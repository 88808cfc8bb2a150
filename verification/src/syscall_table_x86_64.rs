//! System call numbers on x86_64.

use vstd::prelude::*;

use crate::text::str_eq;

verus! {

/// The calls 0 to 39.
pub open spec fn calls_0_39(s: Seq<char>) -> Option<i64> {
    if s == "read"@ {
        Some(0i64)
    } else if s == "write"@ {
        Some(1i64)
    } else if s == "open"@ {
        Some(2i64)
    } else if s == "close"@ {
        Some(3i64)
    } else if s == "stat"@ {
        Some(4i64)
    } else if s == "fstat"@ {
        Some(5i64)
    } else if s == "lstat"@ {
        Some(6i64)
    } else if s == "poll"@ {
        Some(7i64)
    } else if s == "lseek"@ {
        Some(8i64)
    } else if s == "mmap"@ {
        Some(9i64)
    } else if s == "mprotect"@ {
        Some(10i64)
    } else if s == "munmap"@ {
        Some(11i64)
    } else if s == "brk"@ {
        Some(12i64)
    } else if s == "rt_sigaction"@ {
        Some(13i64)
    } else if s == "rt_sigprocmask"@ {
        Some(14i64)
    } else if s == "rt_sigreturn"@ {
        Some(15i64)
    } else if s == "ioctl"@ {
        Some(16i64)
    } else if s == "pread64"@ {
        Some(17i64)
    } else if s == "pwrite64"@ {
        Some(18i64)
    } else if s == "readv"@ {
        Some(19i64)
    } else if s == "writev"@ {
        Some(20i64)
    } else if s == "access"@ {
        Some(21i64)
    } else if s == "pipe"@ {
        Some(22i64)
    } else if s == "select"@ {
        Some(23i64)
    } else if s == "sched_yield"@ {
        Some(24i64)
    } else if s == "mremap"@ {
        Some(25i64)
    } else if s == "msync"@ {
        Some(26i64)
    } else if s == "mincore"@ {
        Some(27i64)
    } else if s == "madvise"@ {
        Some(28i64)
    } else if s == "shmget"@ {
        Some(29i64)
    } else if s == "shmat"@ {
        Some(30i64)
    } else if s == "shmctl"@ {
        Some(31i64)
    } else if s == "dup"@ {
        Some(32i64)
    } else if s == "dup2"@ {
        Some(33i64)
    } else if s == "pause"@ {
        Some(34i64)
    } else if s == "nanosleep"@ {
        Some(35i64)
    } else if s == "getitimer"@ {
        Some(36i64)
    } else if s == "alarm"@ {
        Some(37i64)
    } else if s == "setitimer"@ {
        Some(38i64)
    } else if s == "getpid"@ {
        Some(39i64)
    } else {
        None
    }
}

/// The calls 0 to 39.
fn find_0_39(s: &str) -> (r: Option<i64>)
    ensures
        r == calls_0_39(s@),
{
    if str_eq(s, "read") {
        Some(0i64)
    } else if str_eq(s, "write") {
        Some(1i64)
    } else if str_eq(s, "open") {
        Some(2i64)
    } else if str_eq(s, "close") {
        Some(3i64)
    } else if str_eq(s, "stat") {
        Some(4i64)
    } else if str_eq(s, "fstat") {
        Some(5i64)
    } else if str_eq(s, "lstat") {
        Some(6i64)
    } else if str_eq(s, "poll") {
        Some(7i64)
    } else if str_eq(s, "lseek") {
        Some(8i64)
    } else if str_eq(s, "mmap") {
        Some(9i64)
    } else if str_eq(s, "mprotect") {
        Some(10i64)
    } else if str_eq(s, "munmap") {
        Some(11i64)
    } else if str_eq(s, "brk") {
        Some(12i64)
    } else if str_eq(s, "rt_sigaction") {
        Some(13i64)
    } else if str_eq(s, "rt_sigprocmask") {
        Some(14i64)
    } else if str_eq(s, "rt_sigreturn") {
        Some(15i64)
    } else if str_eq(s, "ioctl") {
        Some(16i64)
    } else if str_eq(s, "pread64") {
        Some(17i64)
    } else if str_eq(s, "pwrite64") {
        Some(18i64)
    } else if str_eq(s, "readv") {
        Some(19i64)
    } else if str_eq(s, "writev") {
        Some(20i64)
    } else if str_eq(s, "access") {
        Some(21i64)
    } else if str_eq(s, "pipe") {
        Some(22i64)
    } else if str_eq(s, "select") {
        Some(23i64)
    } else if str_eq(s, "sched_yield") {
        Some(24i64)
    } else if str_eq(s, "mremap") {
        Some(25i64)
    } else if str_eq(s, "msync") {
        Some(26i64)
    } else if str_eq(s, "mincore") {
        Some(27i64)
    } else if str_eq(s, "madvise") {
        Some(28i64)
    } else if str_eq(s, "shmget") {
        Some(29i64)
    } else if str_eq(s, "shmat") {
        Some(30i64)
    } else if str_eq(s, "shmctl") {
        Some(31i64)
    } else if str_eq(s, "dup") {
        Some(32i64)
    } else if str_eq(s, "dup2") {
        Some(33i64)
    } else if str_eq(s, "pause") {
        Some(34i64)
    } else if str_eq(s, "nanosleep") {
        Some(35i64)
    } else if str_eq(s, "getitimer") {
        Some(36i64)
    } else if str_eq(s, "alarm") {
        Some(37i64)
    } else if str_eq(s, "setitimer") {
        Some(38i64)
    } else if str_eq(s, "getpid") {
        Some(39i64)
    } else {
        None
    }
}

/// The calls 40 to 79.
pub open spec fn calls_40_79(s: Seq<char>) -> Option<i64> {
    if s == "sendfile"@ {
        Some(40i64)
    } else if s == "socket"@ {
        Some(41i64)
    } else if s == "connect"@ {
        Some(42i64)
    } else if s == "accept"@ {
        Some(43i64)
    } else if s == "sendto"@ {
        Some(44i64)
    } else if s == "recvfrom"@ {
        Some(45i64)
    } else if s == "sendmsg"@ {
        Some(46i64)
    } else if s == "recvmsg"@ {
        Some(47i64)
    } else if s == "shutdown"@ {
        Some(48i64)
    } else if s == "bind"@ {
        Some(49i64)
    } else if s == "listen"@ {
        Some(50i64)
    } else if s == "getsockname"@ {
        Some(51i64)
    } else if s == "getpeername"@ {
        Some(52i64)
    } else if s == "socketpair"@ {
        Some(53i64)
    } else if s == "setsockopt"@ {
        Some(54i64)
    } else if s == "getsockopt"@ {
        Some(55i64)
    } else if s == "clone"@ {
        Some(56i64)
    } else if s == "fork"@ {
        Some(57i64)
    } else if s == "vfork"@ {
        Some(58i64)
    } else if s == "execve"@ {
        Some(59i64)
    } else if s == "exit"@ {
        Some(60i64)
    } else if s == "wait4"@ {
        Some(61i64)
    } else if s == "kill"@ {
        Some(62i64)
    } else if s == "uname"@ {
        Some(63i64)
    } else if s == "semget"@ {
        Some(64i64)
    } else if s == "semop"@ {
        Some(65i64)
    } else if s == "semctl"@ {
        Some(66i64)
    } else if s == "shmdt"@ {
        Some(67i64)
    } else if s == "msgget"@ {
        Some(68i64)
    } else if s == "msgsnd"@ {
        Some(69i64)
    } else if s == "msgrcv"@ {
        Some(70i64)
    } else if s == "msgctl"@ {
        Some(71i64)
    } else if s == "fcntl"@ {
        Some(72i64)
    } else if s == "flock"@ {
        Some(73i64)
    } else if s == "fsync"@ {
        Some(74i64)
    } else if s == "fdatasync"@ {
        Some(75i64)
    } else if s == "truncate"@ {
        Some(76i64)
    } else if s == "ftruncate"@ {
        Some(77i64)
    } else if s == "getdents"@ {
        Some(78i64)
    } else if s == "getcwd"@ {
        Some(79i64)
    } else {
        None
    }
}

/// The calls 40 to 79.
fn find_40_79(s: &str) -> (r: Option<i64>)
    ensures
        r == calls_40_79(s@),
{
    if str_eq(s, "sendfile") {
        Some(40i64)
    } else if str_eq(s, "socket") {
        Some(41i64)
    } else if str_eq(s, "connect") {
        Some(42i64)
    } else if str_eq(s, "accept") {
        Some(43i64)
    } else if str_eq(s, "sendto") {
        Some(44i64)
    } else if str_eq(s, "recvfrom") {
        Some(45i64)
    } else if str_eq(s, "sendmsg") {
        Some(46i64)
    } else if str_eq(s, "recvmsg") {
        Some(47i64)
    } else if str_eq(s, "shutdown") {
        Some(48i64)
    } else if str_eq(s, "bind") {
        Some(49i64)
    } else if str_eq(s, "listen") {
        Some(50i64)
    } else if str_eq(s, "getsockname") {
        Some(51i64)
    } else if str_eq(s, "getpeername") {
        Some(52i64)
    } else if str_eq(s, "socketpair") {
        Some(53i64)
    } else if str_eq(s, "setsockopt") {
        Some(54i64)
    } else if str_eq(s, "getsockopt") {
        Some(55i64)
    } else if str_eq(s, "clone") {
        Some(56i64)
    } else if str_eq(s, "fork") {
        Some(57i64)
    } else if str_eq(s, "vfork") {
        Some(58i64)
    } else if str_eq(s, "execve") {
        Some(59i64)
    } else if str_eq(s, "exit") {
        Some(60i64)
    } else if str_eq(s, "wait4") {
        Some(61i64)
    } else if str_eq(s, "kill") {
        Some(62i64)
    } else if str_eq(s, "uname") {
        Some(63i64)
    } else if str_eq(s, "semget") {
        Some(64i64)
    } else if str_eq(s, "semop") {
        Some(65i64)
    } else if str_eq(s, "semctl") {
        Some(66i64)
    } else if str_eq(s, "shmdt") {
        Some(67i64)
    } else if str_eq(s, "msgget") {
        Some(68i64)
    } else if str_eq(s, "msgsnd") {
        Some(69i64)
    } else if str_eq(s, "msgrcv") {
        Some(70i64)
    } else if str_eq(s, "msgctl") {
        Some(71i64)
    } else if str_eq(s, "fcntl") {
        Some(72i64)
    } else if str_eq(s, "flock") {
        Some(73i64)
    } else if str_eq(s, "fsync") {
        Some(74i64)
    } else if str_eq(s, "fdatasync") {
        Some(75i64)
    } else if str_eq(s, "truncate") {
        Some(76i64)
    } else if str_eq(s, "ftruncate") {
        Some(77i64)
    } else if str_eq(s, "getdents") {
        Some(78i64)
    } else if str_eq(s, "getcwd") {
        Some(79i64)
    } else {
        None
    }
}

/// The calls 80 to 119.
pub open spec fn calls_80_119(s: Seq<char>) -> Option<i64> {
    if s == "chdir"@ {
        Some(80i64)
    } else if s == "fchdir"@ {
        Some(81i64)
    } else if s == "rename"@ {
        Some(82i64)
    } else if s == "mkdir"@ {
        Some(83i64)
    } else if s == "rmdir"@ {
        Some(84i64)
    } else if s == "creat"@ {
        Some(85i64)
    } else if s == "link"@ {
        Some(86i64)
    } else if s == "unlink"@ {
        Some(87i64)
    } else if s == "symlink"@ {
        Some(88i64)
    } else if s == "readlink"@ {
        Some(89i64)
    } else if s == "chmod"@ {
        Some(90i64)
    } else if s == "fchmod"@ {
        Some(91i64)
    } else if s == "chown"@ {
        Some(92i64)
    } else if s == "fchown"@ {
        Some(93i64)
    } else if s == "lchown"@ {
        Some(94i64)
    } else if s == "umask"@ {
        Some(95i64)
    } else if s == "gettimeofday"@ {
        Some(96i64)
    } else if s == "getrlimit"@ {
        Some(97i64)
    } else if s == "getrusage"@ {
        Some(98i64)
    } else if s == "sysinfo"@ {
        Some(99i64)
    } else if s == "times"@ {
        Some(100i64)
    } else if s == "ptrace"@ {
        Some(101i64)
    } else if s == "getuid"@ {
        Some(102i64)
    } else if s == "syslog"@ {
        Some(103i64)
    } else if s == "getgid"@ {
        Some(104i64)
    } else if s == "setuid"@ {
        Some(105i64)
    } else if s == "setgid"@ {
        Some(106i64)
    } else if s == "geteuid"@ {
        Some(107i64)
    } else if s == "getegid"@ {
        Some(108i64)
    } else if s == "setpgid"@ {
        Some(109i64)
    } else if s == "getppid"@ {
        Some(110i64)
    } else if s == "getpgrp"@ {
        Some(111i64)
    } else if s == "setsid"@ {
        Some(112i64)
    } else if s == "setreuid"@ {
        Some(113i64)
    } else if s == "setregid"@ {
        Some(114i64)
    } else if s == "getgroups"@ {
        Some(115i64)
    } else if s == "setgroups"@ {
        Some(116i64)
    } else if s == "setresuid"@ {
        Some(117i64)
    } else if s == "getresuid"@ {
        Some(118i64)
    } else if s == "setresgid"@ {
        Some(119i64)
    } else {
        None
    }
}

/// The calls 80 to 119.
fn find_80_119(s: &str) -> (r: Option<i64>)
    ensures
        r == calls_80_119(s@),
{
    if str_eq(s, "chdir") {
        Some(80i64)
    } else if str_eq(s, "fchdir") {
        Some(81i64)
    } else if str_eq(s, "rename") {
        Some(82i64)
    } else if str_eq(s, "mkdir") {
        Some(83i64)
    } else if str_eq(s, "rmdir") {
        Some(84i64)
    } else if str_eq(s, "creat") {
        Some(85i64)
    } else if str_eq(s, "link") {
        Some(86i64)
    } else if str_eq(s, "unlink") {
        Some(87i64)
    } else if str_eq(s, "symlink") {
        Some(88i64)
    } else if str_eq(s, "readlink") {
        Some(89i64)
    } else if str_eq(s, "chmod") {
        Some(90i64)
    } else if str_eq(s, "fchmod") {
        Some(91i64)
    } else if str_eq(s, "chown") {
        Some(92i64)
    } else if str_eq(s, "fchown") {
        Some(93i64)
    } else if str_eq(s, "lchown") {
        Some(94i64)
    } else if str_eq(s, "umask") {
        Some(95i64)
    } else if str_eq(s, "gettimeofday") {
        Some(96i64)
    } else if str_eq(s, "getrlimit") {
        Some(97i64)
    } else if str_eq(s, "getrusage") {
        Some(98i64)
    } else if str_eq(s, "sysinfo") {
        Some(99i64)
    } else if str_eq(s, "times") {
        Some(100i64)
    } else if str_eq(s, "ptrace") {
        Some(101i64)
    } else if str_eq(s, "getuid") {
        Some(102i64)
    } else if str_eq(s, "syslog") {
        Some(103i64)
    } else if str_eq(s, "getgid") {
        Some(104i64)
    } else if str_eq(s, "setuid") {
        Some(105i64)
    } else if str_eq(s, "setgid") {
        Some(106i64)
    } else if str_eq(s, "geteuid") {
        Some(107i64)
    } else if str_eq(s, "getegid") {
        Some(108i64)
    } else if str_eq(s, "setpgid") {
        Some(109i64)
    } else if str_eq(s, "getppid") {
        Some(110i64)
    } else if str_eq(s, "getpgrp") {
        Some(111i64)
    } else if str_eq(s, "setsid") {
        Some(112i64)
    } else if str_eq(s, "setreuid") {
        Some(113i64)
    } else if str_eq(s, "setregid") {
        Some(114i64)
    } else if str_eq(s, "getgroups") {
        Some(115i64)
    } else if str_eq(s, "setgroups") {
        Some(116i64)
    } else if str_eq(s, "setresuid") {
        Some(117i64)
    } else if str_eq(s, "getresuid") {
        Some(118i64)
    } else if str_eq(s, "setresgid") {
        Some(119i64)
    } else {
        None
    }
}

/// The calls 120 to 159.
pub open spec fn calls_120_159(s: Seq<char>) -> Option<i64> {
    if s == "getresgid"@ {
        Some(120i64)
    } else if s == "getpgid"@ {
        Some(121i64)
    } else if s == "setfsuid"@ {
        Some(122i64)
    } else if s == "setfsgid"@ {
        Some(123i64)
    } else if s == "getsid"@ {
        Some(124i64)
    } else if s == "capget"@ {
        Some(125i64)
    } else if s == "capset"@ {
        Some(126i64)
    } else if s == "rt_sigpending"@ {
        Some(127i64)
    } else if s == "rt_sigtimedwait"@ {
        Some(128i64)
    } else if s == "rt_sigqueueinfo"@ {
        Some(129i64)
    } else if s == "rt_sigsuspend"@ {
        Some(130i64)
    } else if s == "sigaltstack"@ {
        Some(131i64)
    } else if s == "utime"@ {
        Some(132i64)
    } else if s == "mknod"@ {
        Some(133i64)
    } else if s == "uselib"@ {
        Some(134i64)
    } else if s == "personality"@ {
        Some(135i64)
    } else if s == "ustat"@ {
        Some(136i64)
    } else if s == "statfs"@ {
        Some(137i64)
    } else if s == "fstatfs"@ {
        Some(138i64)
    } else if s == "sysfs"@ {
        Some(139i64)
    } else if s == "getpriority"@ {
        Some(140i64)
    } else if s == "setpriority"@ {
        Some(141i64)
    } else if s == "sched_setparam"@ {
        Some(142i64)
    } else if s == "sched_getparam"@ {
        Some(143i64)
    } else if s == "sched_setscheduler"@ {
        Some(144i64)
    } else if s == "sched_getscheduler"@ {
        Some(145i64)
    } else if s == "sched_get_priority_max"@ {
        Some(146i64)
    } else if s == "sched_get_priority_min"@ {
        Some(147i64)
    } else if s == "sched_rr_get_interval"@ {
        Some(148i64)
    } else if s == "mlock"@ {
        Some(149i64)
    } else if s == "munlock"@ {
        Some(150i64)
    } else if s == "mlockall"@ {
        Some(151i64)
    } else if s == "munlockall"@ {
        Some(152i64)
    } else if s == "vhangup"@ {
        Some(153i64)
    } else if s == "modify_ldt"@ {
        Some(154i64)
    } else if s == "pivot_root"@ {
        Some(155i64)
    } else if s == "_sysctl"@ {
        Some(156i64)
    } else if s == "prctl"@ {
        Some(157i64)
    } else if s == "arch_prctl"@ {
        Some(158i64)
    } else if s == "adjtimex"@ {
        Some(159i64)
    } else {
        None
    }
}

/// The calls 120 to 159.
fn find_120_159(s: &str) -> (r: Option<i64>)
    ensures
        r == calls_120_159(s@),
{
    if str_eq(s, "getresgid") {
        Some(120i64)
    } else if str_eq(s, "getpgid") {
        Some(121i64)
    } else if str_eq(s, "setfsuid") {
        Some(122i64)
    } else if str_eq(s, "setfsgid") {
        Some(123i64)
    } else if str_eq(s, "getsid") {
        Some(124i64)
    } else if str_eq(s, "capget") {
        Some(125i64)
    } else if str_eq(s, "capset") {
        Some(126i64)
    } else if str_eq(s, "rt_sigpending") {
        Some(127i64)
    } else if str_eq(s, "rt_sigtimedwait") {
        Some(128i64)
    } else if str_eq(s, "rt_sigqueueinfo") {
        Some(129i64)
    } else if str_eq(s, "rt_sigsuspend") {
        Some(130i64)
    } else if str_eq(s, "sigaltstack") {
        Some(131i64)
    } else if str_eq(s, "utime") {
        Some(132i64)
    } else if str_eq(s, "mknod") {
        Some(133i64)
    } else if str_eq(s, "uselib") {
        Some(134i64)
    } else if str_eq(s, "personality") {
        Some(135i64)
    } else if str_eq(s, "ustat") {
        Some(136i64)
    } else if str_eq(s, "statfs") {
        Some(137i64)
    } else if str_eq(s, "fstatfs") {
        Some(138i64)
    } else if str_eq(s, "sysfs") {
        Some(139i64)
    } else if str_eq(s, "getpriority") {
        Some(140i64)
    } else if str_eq(s, "setpriority") {
        Some(141i64)
    } else if str_eq(s, "sched_setparam") {
        Some(142i64)
    } else if str_eq(s, "sched_getparam") {
        Some(143i64)
    } else if str_eq(s, "sched_setscheduler") {
        Some(144i64)
    } else if str_eq(s, "sched_getscheduler") {
        Some(145i64)
    } else if str_eq(s, "sched_get_priority_max") {
        Some(146i64)
    } else if str_eq(s, "sched_get_priority_min") {
        Some(147i64)
    } else if str_eq(s, "sched_rr_get_interval") {
        Some(148i64)
    } else if str_eq(s, "mlock") {
        Some(149i64)
    } else if str_eq(s, "munlock") {
        Some(150i64)
    } else if str_eq(s, "mlockall") {
        Some(151i64)
    } else if str_eq(s, "munlockall") {
        Some(152i64)
    } else if str_eq(s, "vhangup") {
        Some(153i64)
    } else if str_eq(s, "modify_ldt") {
        Some(154i64)
    } else if str_eq(s, "pivot_root") {
        Some(155i64)
    } else if str_eq(s, "_sysctl") {
        Some(156i64)
    } else if str_eq(s, "prctl") {
        Some(157i64)
    } else if str_eq(s, "arch_prctl") {
        Some(158i64)
    } else if str_eq(s, "adjtimex") {
        Some(159i64)
    } else {
        None
    }
}

/// The calls 160 to 199.
pub open spec fn calls_160_199(s: Seq<char>) -> Option<i64> {
    if s == "setrlimit"@ {
        Some(160i64)
    } else if s == "chroot"@ {
        Some(161i64)
    } else if s == "sync"@ {
        Some(162i64)
    } else if s == "acct"@ {
        Some(163i64)
    } else if s == "settimeofday"@ {
        Some(164i64)
    } else if s == "mount"@ {
        Some(165i64)
    } else if s == "umount2"@ {
        Some(166i64)
    } else if s == "swapon"@ {
        Some(167i64)
    } else if s == "swapoff"@ {
        Some(168i64)
    } else if s == "reboot"@ {
        Some(169i64)
    } else if s == "sethostname"@ {
        Some(170i64)
    } else if s == "setdomainname"@ {
        Some(171i64)
    } else if s == "iopl"@ {
        Some(172i64)
    } else if s == "ioperm"@ {
        Some(173i64)
    } else if s == "create_module"@ {
        Some(174i64)
    } else if s == "init_module"@ {
        Some(175i64)
    } else if s == "delete_module"@ {
        Some(176i64)
    } else if s == "get_kernel_syms"@ {
        Some(177i64)
    } else if s == "query_module"@ {
        Some(178i64)
    } else if s == "quotactl"@ {
        Some(179i64)
    } else if s == "nfsservctl"@ {
        Some(180i64)
    } else if s == "getpmsg"@ {
        Some(181i64)
    } else if s == "putpmsg"@ {
        Some(182i64)
    } else if s == "afs_syscall"@ {
        Some(183i64)
    } else if s == "tuxcall"@ {
        Some(184i64)
    } else if s == "security"@ {
        Some(185i64)
    } else if s == "gettid"@ {
        Some(186i64)
    } else if s == "readahead"@ {
        Some(187i64)
    } else if s == "setxattr"@ {
        Some(188i64)
    } else if s == "lsetxattr"@ {
        Some(189i64)
    } else if s == "fsetxattr"@ {
        Some(190i64)
    } else if s == "getxattr"@ {
        Some(191i64)
    } else if s == "lgetxattr"@ {
        Some(192i64)
    } else if s == "fgetxattr"@ {
        Some(193i64)
    } else if s == "listxattr"@ {
        Some(194i64)
    } else if s == "llistxattr"@ {
        Some(195i64)
    } else if s == "flistxattr"@ {
        Some(196i64)
    } else if s == "removexattr"@ {
        Some(197i64)
    } else if s == "lremovexattr"@ {
        Some(198i64)
    } else if s == "fremovexattr"@ {
        Some(199i64)
    } else {
        None
    }
}

/// The calls 160 to 199.
fn find_160_199(s: &str) -> (r: Option<i64>)
    ensures
        r == calls_160_199(s@),
{
    if str_eq(s, "setrlimit") {
        Some(160i64)
    } else if str_eq(s, "chroot") {
        Some(161i64)
    } else if str_eq(s, "sync") {
        Some(162i64)
    } else if str_eq(s, "acct") {
        Some(163i64)
    } else if str_eq(s, "settimeofday") {
        Some(164i64)
    } else if str_eq(s, "mount") {
        Some(165i64)
    } else if str_eq(s, "umount2") {
        Some(166i64)
    } else if str_eq(s, "swapon") {
        Some(167i64)
    } else if str_eq(s, "swapoff") {
        Some(168i64)
    } else if str_eq(s, "reboot") {
        Some(169i64)
    } else if str_eq(s, "sethostname") {
        Some(170i64)
    } else if str_eq(s, "setdomainname") {
        Some(171i64)
    } else if str_eq(s, "iopl") {
        Some(172i64)
    } else if str_eq(s, "ioperm") {
        Some(173i64)
    } else if str_eq(s, "create_module") {
        Some(174i64)
    } else if str_eq(s, "init_module") {
        Some(175i64)
    } else if str_eq(s, "delete_module") {
        Some(176i64)
    } else if str_eq(s, "get_kernel_syms") {
        Some(177i64)
    } else if str_eq(s, "query_module") {
        Some(178i64)
    } else if str_eq(s, "quotactl") {
        Some(179i64)
    } else if str_eq(s, "nfsservctl") {
        Some(180i64)
    } else if str_eq(s, "getpmsg") {
        Some(181i64)
    } else if str_eq(s, "putpmsg") {
        Some(182i64)
    } else if str_eq(s, "afs_syscall") {
        Some(183i64)
    } else if str_eq(s, "tuxcall") {
        Some(184i64)
    } else if str_eq(s, "security") {
        Some(185i64)
    } else if str_eq(s, "gettid") {
        Some(186i64)
    } else if str_eq(s, "readahead") {
        Some(187i64)
    } else if str_eq(s, "setxattr") {
        Some(188i64)
    } else if str_eq(s, "lsetxattr") {
        Some(189i64)
    } else if str_eq(s, "fsetxattr") {
        Some(190i64)
    } else if str_eq(s, "getxattr") {
        Some(191i64)
    } else if str_eq(s, "lgetxattr") {
        Some(192i64)
    } else if str_eq(s, "fgetxattr") {
        Some(193i64)
    } else if str_eq(s, "listxattr") {
        Some(194i64)
    } else if str_eq(s, "llistxattr") {
        Some(195i64)
    } else if str_eq(s, "flistxattr") {
        Some(196i64)
    } else if str_eq(s, "removexattr") {
        Some(197i64)
    } else if str_eq(s, "lremovexattr") {
        Some(198i64)
    } else if str_eq(s, "fremovexattr") {
        Some(199i64)
    } else {
        None
    }
}

/// The calls 200 to 239.
pub open spec fn calls_200_239(s: Seq<char>) -> Option<i64> {
    if s == "tkill"@ {
        Some(200i64)
    } else if s == "time"@ {
        Some(201i64)
    } else if s == "futex"@ {
        Some(202i64)
    } else if s == "sched_setaffinity"@ {
        Some(203i64)
    } else if s == "sched_getaffinity"@ {
        Some(204i64)
    } else if s == "set_thread_area"@ {
        Some(205i64)
    } else if s == "io_setup"@ {
        Some(206i64)
    } else if s == "io_destroy"@ {
        Some(207i64)
    } else if s == "io_getevents"@ {
        Some(208i64)
    } else if s == "io_submit"@ {
        Some(209i64)
    } else if s == "io_cancel"@ {
        Some(210i64)
    } else if s == "get_thread_area"@ {
        Some(211i64)
    } else if s == "lookup_dcookie"@ {
        Some(212i64)
    } else if s == "epoll_create"@ {
        Some(213i64)
    } else if s == "epoll_ctl_old"@ {
        Some(214i64)
    } else if s == "epoll_wait_old"@ {
        Some(215i64)
    } else if s == "remap_file_pages"@ {
        Some(216i64)
    } else if s == "getdents64"@ {
        Some(217i64)
    } else if s == "set_tid_address"@ {
        Some(218i64)
    } else if s == "restart_syscall"@ {
        Some(219i64)
    } else if s == "semtimedop"@ {
        Some(220i64)
    } else if s == "fadvise64"@ {
        Some(221i64)
    } else if s == "timer_create"@ {
        Some(222i64)
    } else if s == "timer_settime"@ {
        Some(223i64)
    } else if s == "timer_gettime"@ {
        Some(224i64)
    } else if s == "timer_getoverrun"@ {
        Some(225i64)
    } else if s == "timer_delete"@ {
        Some(226i64)
    } else if s == "clock_settime"@ {
        Some(227i64)
    } else if s == "clock_gettime"@ {
        Some(228i64)
    } else if s == "clock_getres"@ {
        Some(229i64)
    } else if s == "clock_nanosleep"@ {
        Some(230i64)
    } else if s == "exit_group"@ {
        Some(231i64)
    } else if s == "epoll_wait"@ {
        Some(232i64)
    } else if s == "epoll_ctl"@ {
        Some(233i64)
    } else if s == "tgkill"@ {
        Some(234i64)
    } else if s == "utimes"@ {
        Some(235i64)
    } else if s == "vserver"@ {
        Some(236i64)
    } else if s == "mbind"@ {
        Some(237i64)
    } else if s == "set_mempolicy"@ {
        Some(238i64)
    } else if s == "get_mempolicy"@ {
        Some(239i64)
    } else {
        None
    }
}

/// The calls 200 to 239.
fn find_200_239(s: &str) -> (r: Option<i64>)
    ensures
        r == calls_200_239(s@),
{
    if str_eq(s, "tkill") {
        Some(200i64)
    } else if str_eq(s, "time") {
        Some(201i64)
    } else if str_eq(s, "futex") {
        Some(202i64)
    } else if str_eq(s, "sched_setaffinity") {
        Some(203i64)
    } else if str_eq(s, "sched_getaffinity") {
        Some(204i64)
    } else if str_eq(s, "set_thread_area") {
        Some(205i64)
    } else if str_eq(s, "io_setup") {
        Some(206i64)
    } else if str_eq(s, "io_destroy") {
        Some(207i64)
    } else if str_eq(s, "io_getevents") {
        Some(208i64)
    } else if str_eq(s, "io_submit") {
        Some(209i64)
    } else if str_eq(s, "io_cancel") {
        Some(210i64)
    } else if str_eq(s, "get_thread_area") {
        Some(211i64)
    } else if str_eq(s, "lookup_dcookie") {
        Some(212i64)
    } else if str_eq(s, "epoll_create") {
        Some(213i64)
    } else if str_eq(s, "epoll_ctl_old") {
        Some(214i64)
    } else if str_eq(s, "epoll_wait_old") {
        Some(215i64)
    } else if str_eq(s, "remap_file_pages") {
        Some(216i64)
    } else if str_eq(s, "getdents64") {
        Some(217i64)
    } else if str_eq(s, "set_tid_address") {
        Some(218i64)
    } else if str_eq(s, "restart_syscall") {
        Some(219i64)
    } else if str_eq(s, "semtimedop") {
        Some(220i64)
    } else if str_eq(s, "fadvise64") {
        Some(221i64)
    } else if str_eq(s, "timer_create") {
        Some(222i64)
    } else if str_eq(s, "timer_settime") {
        Some(223i64)
    } else if str_eq(s, "timer_gettime") {
        Some(224i64)
    } else if str_eq(s, "timer_getoverrun") {
        Some(225i64)
    } else if str_eq(s, "timer_delete") {
        Some(226i64)
    } else if str_eq(s, "clock_settime") {
        Some(227i64)
    } else if str_eq(s, "clock_gettime") {
        Some(228i64)
    } else if str_eq(s, "clock_getres") {
        Some(229i64)
    } else if str_eq(s, "clock_nanosleep") {
        Some(230i64)
    } else if str_eq(s, "exit_group") {
        Some(231i64)
    } else if str_eq(s, "epoll_wait") {
        Some(232i64)
    } else if str_eq(s, "epoll_ctl") {
        Some(233i64)
    } else if str_eq(s, "tgkill") {
        Some(234i64)
    } else if str_eq(s, "utimes") {
        Some(235i64)
    } else if str_eq(s, "vserver") {
        Some(236i64)
    } else if str_eq(s, "mbind") {
        Some(237i64)
    } else if str_eq(s, "set_mempolicy") {
        Some(238i64)
    } else if str_eq(s, "get_mempolicy") {
        Some(239i64)
    } else {
        None
    }
}

/// The calls 240 to 279.
pub open spec fn calls_240_279(s: Seq<char>) -> Option<i64> {
    if s == "mq_open"@ {
        Some(240i64)
    } else if s == "mq_unlink"@ {
        Some(241i64)
    } else if s == "mq_timedsend"@ {
        Some(242i64)
    } else if s == "mq_timedreceive"@ {
        Some(243i64)
    } else if s == "mq_notify"@ {
        Some(244i64)
    } else if s == "mq_getsetattr"@ {
        Some(245i64)
    } else if s == "kexec_load"@ {
        Some(246i64)
    } else if s == "waitid"@ {
        Some(247i64)
    } else if s == "add_key"@ {
        Some(248i64)
    } else if s == "request_key"@ {
        Some(249i64)
    } else if s == "keyctl"@ {
        Some(250i64)
    } else if s == "ioprio_set"@ {
        Some(251i64)
    } else if s == "ioprio_get"@ {
        Some(252i64)
    } else if s == "inotify_init"@ {
        Some(253i64)
    } else if s == "inotify_add_watch"@ {
        Some(254i64)
    } else if s == "inotify_rm_watch"@ {
        Some(255i64)
    } else if s == "migrate_pages"@ {
        Some(256i64)
    } else if s == "openat"@ {
        Some(257i64)
    } else if s == "mkdirat"@ {
        Some(258i64)
    } else if s == "mknodat"@ {
        Some(259i64)
    } else if s == "fchownat"@ {
        Some(260i64)
    } else if s == "futimesat"@ {
        Some(261i64)
    } else if s == "newfstatat"@ {
        Some(262i64)
    } else if s == "unlinkat"@ {
        Some(263i64)
    } else if s == "renameat"@ {
        Some(264i64)
    } else if s == "linkat"@ {
        Some(265i64)
    } else if s == "symlinkat"@ {
        Some(266i64)
    } else if s == "readlinkat"@ {
        Some(267i64)
    } else if s == "fchmodat"@ {
        Some(268i64)
    } else if s == "faccessat"@ {
        Some(269i64)
    } else if s == "pselect6"@ {
        Some(270i64)
    } else if s == "ppoll"@ {
        Some(271i64)
    } else if s == "unshare"@ {
        Some(272i64)
    } else if s == "set_robust_list"@ {
        Some(273i64)
    } else if s == "get_robust_list"@ {
        Some(274i64)
    } else if s == "splice"@ {
        Some(275i64)
    } else if s == "tee"@ {
        Some(276i64)
    } else if s == "sync_file_range"@ {
        Some(277i64)
    } else if s == "vmsplice"@ {
        Some(278i64)
    } else if s == "move_pages"@ {
        Some(279i64)
    } else {
        None
    }
}

/// The calls 240 to 279.
fn find_240_279(s: &str) -> (r: Option<i64>)
    ensures
        r == calls_240_279(s@),
{
    if str_eq(s, "mq_open") {
        Some(240i64)
    } else if str_eq(s, "mq_unlink") {
        Some(241i64)
    } else if str_eq(s, "mq_timedsend") {
        Some(242i64)
    } else if str_eq(s, "mq_timedreceive") {
        Some(243i64)
    } else if str_eq(s, "mq_notify") {
        Some(244i64)
    } else if str_eq(s, "mq_getsetattr") {
        Some(245i64)
    } else if str_eq(s, "kexec_load") {
        Some(246i64)
    } else if str_eq(s, "waitid") {
        Some(247i64)
    } else if str_eq(s, "add_key") {
        Some(248i64)
    } else if str_eq(s, "request_key") {
        Some(249i64)
    } else if str_eq(s, "keyctl") {
        Some(250i64)
    } else if str_eq(s, "ioprio_set") {
        Some(251i64)
    } else if str_eq(s, "ioprio_get") {
        Some(252i64)
    } else if str_eq(s, "inotify_init") {
        Some(253i64)
    } else if str_eq(s, "inotify_add_watch") {
        Some(254i64)
    } else if str_eq(s, "inotify_rm_watch") {
        Some(255i64)
    } else if str_eq(s, "migrate_pages") {
        Some(256i64)
    } else if str_eq(s, "openat") {
        Some(257i64)
    } else if str_eq(s, "mkdirat") {
        Some(258i64)
    } else if str_eq(s, "mknodat") {
        Some(259i64)
    } else if str_eq(s, "fchownat") {
        Some(260i64)
    } else if str_eq(s, "futimesat") {
        Some(261i64)
    } else if str_eq(s, "newfstatat") {
        Some(262i64)
    } else if str_eq(s, "unlinkat") {
        Some(263i64)
    } else if str_eq(s, "renameat") {
        Some(264i64)
    } else if str_eq(s, "linkat") {
        Some(265i64)
    } else if str_eq(s, "symlinkat") {
        Some(266i64)
    } else if str_eq(s, "readlinkat") {
        Some(267i64)
    } else if str_eq(s, "fchmodat") {
        Some(268i64)
    } else if str_eq(s, "faccessat") {
        Some(269i64)
    } else if str_eq(s, "pselect6") {
        Some(270i64)
    } else if str_eq(s, "ppoll") {
        Some(271i64)
    } else if str_eq(s, "unshare") {
        Some(272i64)
    } else if str_eq(s, "set_robust_list") {
        Some(273i64)
    } else if str_eq(s, "get_robust_list") {
        Some(274i64)
    } else if str_eq(s, "splice") {
        Some(275i64)
    } else if str_eq(s, "tee") {
        Some(276i64)
    } else if str_eq(s, "sync_file_range") {
        Some(277i64)
    } else if str_eq(s, "vmsplice") {
        Some(278i64)
    } else if str_eq(s, "move_pages") {
        Some(279i64)
    } else {
        None
    }
}

/// The calls 280 to 319.
pub open spec fn calls_280_319(s: Seq<char>) -> Option<i64> {
    if s == "utimensat"@ {
        Some(280i64)
    } else if s == "epoll_pwait"@ {
        Some(281i64)
    } else if s == "signalfd"@ {
        Some(282i64)
    } else if s == "timerfd_create"@ {
        Some(283i64)
    } else if s == "eventfd"@ {
        Some(284i64)
    } else if s == "fallocate"@ {
        Some(285i64)
    } else if s == "timerfd_settime"@ {
        Some(286i64)
    } else if s == "timerfd_gettime"@ {
        Some(287i64)
    } else if s == "accept4"@ {
        Some(288i64)
    } else if s == "signalfd4"@ {
        Some(289i64)
    } else if s == "eventfd2"@ {
        Some(290i64)
    } else if s == "epoll_create1"@ {
        Some(291i64)
    } else if s == "dup3"@ {
        Some(292i64)
    } else if s == "pipe2"@ {
        Some(293i64)
    } else if s == "inotify_init1"@ {
        Some(294i64)
    } else if s == "preadv"@ {
        Some(295i64)
    } else if s == "pwritev"@ {
        Some(296i64)
    } else if s == "rt_tgsigqueueinfo"@ {
        Some(297i64)
    } else if s == "perf_event_open"@ {
        Some(298i64)
    } else if s == "recvmmsg"@ {
        Some(299i64)
    } else if s == "fanotify_init"@ {
        Some(300i64)
    } else if s == "fanotify_mark"@ {
        Some(301i64)
    } else if s == "prlimit64"@ {
        Some(302i64)
    } else if s == "name_to_handle_at"@ {
        Some(303i64)
    } else if s == "open_by_handle_at"@ {
        Some(304i64)
    } else if s == "clock_adjtime"@ {
        Some(305i64)
    } else if s == "syncfs"@ {
        Some(306i64)
    } else if s == "sendmmsg"@ {
        Some(307i64)
    } else if s == "setns"@ {
        Some(308i64)
    } else if s == "getcpu"@ {
        Some(309i64)
    } else if s == "process_vm_readv"@ {
        Some(310i64)
    } else if s == "process_vm_writev"@ {
        Some(311i64)
    } else if s == "kcmp"@ {
        Some(312i64)
    } else if s == "finit_module"@ {
        Some(313i64)
    } else if s == "sched_setattr"@ {
        Some(314i64)
    } else if s == "sched_getattr"@ {
        Some(315i64)
    } else if s == "renameat2"@ {
        Some(316i64)
    } else if s == "seccomp"@ {
        Some(317i64)
    } else if s == "getrandom"@ {
        Some(318i64)
    } else if s == "memfd_create"@ {
        Some(319i64)
    } else {
        None
    }
}

/// The calls 280 to 319.
fn find_280_319(s: &str) -> (r: Option<i64>)
    ensures
        r == calls_280_319(s@),
{
    if str_eq(s, "utimensat") {
        Some(280i64)
    } else if str_eq(s, "epoll_pwait") {
        Some(281i64)
    } else if str_eq(s, "signalfd") {
        Some(282i64)
    } else if str_eq(s, "timerfd_create") {
        Some(283i64)
    } else if str_eq(s, "eventfd") {
        Some(284i64)
    } else if str_eq(s, "fallocate") {
        Some(285i64)
    } else if str_eq(s, "timerfd_settime") {
        Some(286i64)
    } else if str_eq(s, "timerfd_gettime") {
        Some(287i64)
    } else if str_eq(s, "accept4") {
        Some(288i64)
    } else if str_eq(s, "signalfd4") {
        Some(289i64)
    } else if str_eq(s, "eventfd2") {
        Some(290i64)
    } else if str_eq(s, "epoll_create1") {
        Some(291i64)
    } else if str_eq(s, "dup3") {
        Some(292i64)
    } else if str_eq(s, "pipe2") {
        Some(293i64)
    } else if str_eq(s, "inotify_init1") {
        Some(294i64)
    } else if str_eq(s, "preadv") {
        Some(295i64)
    } else if str_eq(s, "pwritev") {
        Some(296i64)
    } else if str_eq(s, "rt_tgsigqueueinfo") {
        Some(297i64)
    } else if str_eq(s, "perf_event_open") {
        Some(298i64)
    } else if str_eq(s, "recvmmsg") {
        Some(299i64)
    } else if str_eq(s, "fanotify_init") {
        Some(300i64)
    } else if str_eq(s, "fanotify_mark") {
        Some(301i64)
    } else if str_eq(s, "prlimit64") {
        Some(302i64)
    } else if str_eq(s, "name_to_handle_at") {
        Some(303i64)
    } else if str_eq(s, "open_by_handle_at") {
        Some(304i64)
    } else if str_eq(s, "clock_adjtime") {
        Some(305i64)
    } else if str_eq(s, "syncfs") {
        Some(306i64)
    } else if str_eq(s, "sendmmsg") {
        Some(307i64)
    } else if str_eq(s, "setns") {
        Some(308i64)
    } else if str_eq(s, "getcpu") {
        Some(309i64)
    } else if str_eq(s, "process_vm_readv") {
        Some(310i64)
    } else if str_eq(s, "process_vm_writev") {
        Some(311i64)
    } else if str_eq(s, "kcmp") {
        Some(312i64)
    } else if str_eq(s, "finit_module") {
        Some(313i64)
    } else if str_eq(s, "sched_setattr") {
        Some(314i64)
    } else if str_eq(s, "sched_getattr") {
        Some(315i64)
    } else if str_eq(s, "renameat2") {
        Some(316i64)
    } else if str_eq(s, "seccomp") {
        Some(317i64)
    } else if str_eq(s, "getrandom") {
        Some(318i64)
    } else if str_eq(s, "memfd_create") {
        Some(319i64)
    } else {
        None
    }
}

/// The calls 320 to 448.
pub open spec fn calls_320_448(s: Seq<char>) -> Option<i64> {
    if s == "kexec_file_load"@ {
        Some(320i64)
    } else if s == "bpf"@ {
        Some(321i64)
    } else if s == "execveat"@ {
        Some(322i64)
    } else if s == "userfaultfd"@ {
        Some(323i64)
    } else if s == "membarrier"@ {
        Some(324i64)
    } else if s == "mlock2"@ {
        Some(325i64)
    } else if s == "copy_file_range"@ {
        Some(326i64)
    } else if s == "preadv2"@ {
        Some(327i64)
    } else if s == "pwritev2"@ {
        Some(328i64)
    } else if s == "pkey_mprotect"@ {
        Some(329i64)
    } else if s == "pkey_alloc"@ {
        Some(330i64)
    } else if s == "pkey_free"@ {
        Some(331i64)
    } else if s == "statx"@ {
        Some(332i64)
    } else if s == "io_pgetevents"@ {
        Some(333i64)
    } else if s == "rseq"@ {
        Some(334i64)
    } else if s == "pidfd_send_signal"@ {
        Some(424i64)
    } else if s == "io_uring_setup"@ {
        Some(425i64)
    } else if s == "io_uring_enter"@ {
        Some(426i64)
    } else if s == "io_uring_register"@ {
        Some(427i64)
    } else if s == "open_tree"@ {
        Some(428i64)
    } else if s == "move_mount"@ {
        Some(429i64)
    } else if s == "fsopen"@ {
        Some(430i64)
    } else if s == "fsconfig"@ {
        Some(431i64)
    } else if s == "fsmount"@ {
        Some(432i64)
    } else if s == "fspick"@ {
        Some(433i64)
    } else if s == "pidfd_open"@ {
        Some(434i64)
    } else if s == "clone3"@ {
        Some(435i64)
    } else if s == "close_range"@ {
        Some(436i64)
    } else if s == "openat2"@ {
        Some(437i64)
    } else if s == "pidfd_getfd"@ {
        Some(438i64)
    } else if s == "faccessat2"@ {
        Some(439i64)
    } else if s == "process_madvise"@ {
        Some(440i64)
    } else if s == "epoll_pwait2"@ {
        Some(441i64)
    } else if s == "mount_setattr"@ {
        Some(442i64)
    } else if s == "quotactl_fd"@ {
        Some(443i64)
    } else if s == "landlock_create_ruleset"@ {
        Some(444i64)
    } else if s == "landlock_add_rule"@ {
        Some(445i64)
    } else if s == "landlock_restrict_self"@ {
        Some(446i64)
    } else if s == "memfd_secret"@ {
        Some(447i64)
    } else if s == "process_mrelease"@ {
        Some(448i64)
    } else {
        None
    }
}

/// The calls 320 to 448.
fn find_320_448(s: &str) -> (r: Option<i64>)
    ensures
        r == calls_320_448(s@),
{
    if str_eq(s, "kexec_file_load") {
        Some(320i64)
    } else if str_eq(s, "bpf") {
        Some(321i64)
    } else if str_eq(s, "execveat") {
        Some(322i64)
    } else if str_eq(s, "userfaultfd") {
        Some(323i64)
    } else if str_eq(s, "membarrier") {
        Some(324i64)
    } else if str_eq(s, "mlock2") {
        Some(325i64)
    } else if str_eq(s, "copy_file_range") {
        Some(326i64)
    } else if str_eq(s, "preadv2") {
        Some(327i64)
    } else if str_eq(s, "pwritev2") {
        Some(328i64)
    } else if str_eq(s, "pkey_mprotect") {
        Some(329i64)
    } else if str_eq(s, "pkey_alloc") {
        Some(330i64)
    } else if str_eq(s, "pkey_free") {
        Some(331i64)
    } else if str_eq(s, "statx") {
        Some(332i64)
    } else if str_eq(s, "io_pgetevents") {
        Some(333i64)
    } else if str_eq(s, "rseq") {
        Some(334i64)
    } else if str_eq(s, "pidfd_send_signal") {
        Some(424i64)
    } else if str_eq(s, "io_uring_setup") {
        Some(425i64)
    } else if str_eq(s, "io_uring_enter") {
        Some(426i64)
    } else if str_eq(s, "io_uring_register") {
        Some(427i64)
    } else if str_eq(s, "open_tree") {
        Some(428i64)
    } else if str_eq(s, "move_mount") {
        Some(429i64)
    } else if str_eq(s, "fsopen") {
        Some(430i64)
    } else if str_eq(s, "fsconfig") {
        Some(431i64)
    } else if str_eq(s, "fsmount") {
        Some(432i64)
    } else if str_eq(s, "fspick") {
        Some(433i64)
    } else if str_eq(s, "pidfd_open") {
        Some(434i64)
    } else if str_eq(s, "clone3") {
        Some(435i64)
    } else if str_eq(s, "close_range") {
        Some(436i64)
    } else if str_eq(s, "openat2") {
        Some(437i64)
    } else if str_eq(s, "pidfd_getfd") {
        Some(438i64)
    } else if str_eq(s, "faccessat2") {
        Some(439i64)
    } else if str_eq(s, "process_madvise") {
        Some(440i64)
    } else if str_eq(s, "epoll_pwait2") {
        Some(441i64)
    } else if str_eq(s, "mount_setattr") {
        Some(442i64)
    } else if str_eq(s, "quotactl_fd") {
        Some(443i64)
    } else if str_eq(s, "landlock_create_ruleset") {
        Some(444i64)
    } else if str_eq(s, "landlock_add_rule") {
        Some(445i64)
    } else if str_eq(s, "landlock_restrict_self") {
        Some(446i64)
    } else if str_eq(s, "memfd_secret") {
        Some(447i64)
    } else if str_eq(s, "process_mrelease") {
        Some(448i64)
    } else {
        None
    }
}

/// The calls 449 to 453.
pub open spec fn calls_449_453(s: Seq<char>) -> Option<i64> {
    if s == "futex_waitv"@ {
        Some(449i64)
    } else if s == "set_mempolicy_home_node"@ {
        Some(450i64)
    } else if s == "cachestat"@ {
        Some(451i64)
    } else if s == "fchmodat2"@ {
        Some(452i64)
    } else if s == "map_shadow_stack"@ {
        Some(453i64)
    } else {
        None
    }
}

/// The calls 449 to 453.
fn find_449_453(s: &str) -> (r: Option<i64>)
    ensures
        r == calls_449_453(s@),
{
    if str_eq(s, "futex_waitv") {
        Some(449i64)
    } else if str_eq(s, "set_mempolicy_home_node") {
        Some(450i64)
    } else if str_eq(s, "cachestat") {
        Some(451i64)
    } else if str_eq(s, "fchmodat2") {
        Some(452i64)
    } else if str_eq(s, "map_shadow_stack") {
        Some(453i64)
    } else {
        None
    }
}

/// The number of a system call on x86_64.
pub open spec fn number(s: Seq<char>) -> Option<i64> {
    if calls_0_39(s) is Some {
        calls_0_39(s)
    } else if calls_40_79(s) is Some {
        calls_40_79(s)
    } else if calls_80_119(s) is Some {
        calls_80_119(s)
    } else if calls_120_159(s) is Some {
        calls_120_159(s)
    } else if calls_160_199(s) is Some {
        calls_160_199(s)
    } else if calls_200_239(s) is Some {
        calls_200_239(s)
    } else if calls_240_279(s) is Some {
        calls_240_279(s)
    } else if calls_280_319(s) is Some {
        calls_280_319(s)
    } else if calls_320_448(s) is Some {
        calls_320_448(s)
    } else {
        calls_449_453(s)
    }
}

/// The number of a system call on x86_64.
pub fn syscall_nr_x86_64(name: &str) -> (r: Option<i64>)
    ensures
        r == number(name@),
{
    let r = find_0_39(name);
    if r.is_some() {
        return r;
    }
    let r = find_40_79(name);
    if r.is_some() {
        return r;
    }
    let r = find_80_119(name);
    if r.is_some() {
        return r;
    }
    let r = find_120_159(name);
    if r.is_some() {
        return r;
    }
    let r = find_160_199(name);
    if r.is_some() {
        return r;
    }
    let r = find_200_239(name);
    if r.is_some() {
        return r;
    }
    let r = find_240_279(name);
    if r.is_some() {
        return r;
    }
    let r = find_280_319(name);
    if r.is_some() {
        return r;
    }
    let r = find_320_448(name);
    if r.is_some() {
        return r;
    }
    find_449_453(name)
}

/// The names of the calls 0 to 39.
pub open spec fn names_0_39(n: i64) -> Option<Seq<char>> {
    match n {
        0 => Some("read"@),
        1 => Some("write"@),
        2 => Some("open"@),
        3 => Some("close"@),
        4 => Some("stat"@),
        5 => Some("fstat"@),
        6 => Some("lstat"@),
        7 => Some("poll"@),
        8 => Some("lseek"@),
        9 => Some("mmap"@),
        10 => Some("mprotect"@),
        11 => Some("munmap"@),
        12 => Some("brk"@),
        13 => Some("rt_sigaction"@),
        14 => Some("rt_sigprocmask"@),
        15 => Some("rt_sigreturn"@),
        16 => Some("ioctl"@),
        17 => Some("pread64"@),
        18 => Some("pwrite64"@),
        19 => Some("readv"@),
        20 => Some("writev"@),
        21 => Some("access"@),
        22 => Some("pipe"@),
        23 => Some("select"@),
        24 => Some("sched_yield"@),
        25 => Some("mremap"@),
        26 => Some("msync"@),
        27 => Some("mincore"@),
        28 => Some("madvise"@),
        29 => Some("shmget"@),
        30 => Some("shmat"@),
        31 => Some("shmctl"@),
        32 => Some("dup"@),
        33 => Some("dup2"@),
        34 => Some("pause"@),
        35 => Some("nanosleep"@),
        36 => Some("getitimer"@),
        37 => Some("alarm"@),
        38 => Some("setitimer"@),
        39 => Some("getpid"@),
        _ => None,
    }
}

proof fn lemma_names_0_39(s: Seq<char>, n: i64)
    ensures
        calls_0_39(s) matches Some(k) ==> names_0_39(k) == Some(s) && 0 <= k <= 39,
        names_0_39(n) matches Some(name) ==> calls_0_39(name) is Some,
{
}

/// The names of the calls 40 to 79.
pub open spec fn names_40_79(n: i64) -> Option<Seq<char>> {
    match n {
        40 => Some("sendfile"@),
        41 => Some("socket"@),
        42 => Some("connect"@),
        43 => Some("accept"@),
        44 => Some("sendto"@),
        45 => Some("recvfrom"@),
        46 => Some("sendmsg"@),
        47 => Some("recvmsg"@),
        48 => Some("shutdown"@),
        49 => Some("bind"@),
        50 => Some("listen"@),
        51 => Some("getsockname"@),
        52 => Some("getpeername"@),
        53 => Some("socketpair"@),
        54 => Some("setsockopt"@),
        55 => Some("getsockopt"@),
        56 => Some("clone"@),
        57 => Some("fork"@),
        58 => Some("vfork"@),
        59 => Some("execve"@),
        60 => Some("exit"@),
        61 => Some("wait4"@),
        62 => Some("kill"@),
        63 => Some("uname"@),
        64 => Some("semget"@),
        65 => Some("semop"@),
        66 => Some("semctl"@),
        67 => Some("shmdt"@),
        68 => Some("msgget"@),
        69 => Some("msgsnd"@),
        70 => Some("msgrcv"@),
        71 => Some("msgctl"@),
        72 => Some("fcntl"@),
        73 => Some("flock"@),
        74 => Some("fsync"@),
        75 => Some("fdatasync"@),
        76 => Some("truncate"@),
        77 => Some("ftruncate"@),
        78 => Some("getdents"@),
        79 => Some("getcwd"@),
        _ => None,
    }
}

proof fn lemma_names_40_79(s: Seq<char>, n: i64)
    ensures
        calls_40_79(s) matches Some(k) ==> names_40_79(k) == Some(s) && 40 <= k <= 79,
        names_40_79(n) matches Some(name) ==> calls_40_79(name) is Some,
{
}

/// The names of the calls 80 to 119.
pub open spec fn names_80_119(n: i64) -> Option<Seq<char>> {
    match n {
        80 => Some("chdir"@),
        81 => Some("fchdir"@),
        82 => Some("rename"@),
        83 => Some("mkdir"@),
        84 => Some("rmdir"@),
        85 => Some("creat"@),
        86 => Some("link"@),
        87 => Some("unlink"@),
        88 => Some("symlink"@),
        89 => Some("readlink"@),
        90 => Some("chmod"@),
        91 => Some("fchmod"@),
        92 => Some("chown"@),
        93 => Some("fchown"@),
        94 => Some("lchown"@),
        95 => Some("umask"@),
        96 => Some("gettimeofday"@),
        97 => Some("getrlimit"@),
        98 => Some("getrusage"@),
        99 => Some("sysinfo"@),
        100 => Some("times"@),
        101 => Some("ptrace"@),
        102 => Some("getuid"@),
        103 => Some("syslog"@),
        104 => Some("getgid"@),
        105 => Some("setuid"@),
        106 => Some("setgid"@),
        107 => Some("geteuid"@),
        108 => Some("getegid"@),
        109 => Some("setpgid"@),
        110 => Some("getppid"@),
        111 => Some("getpgrp"@),
        112 => Some("setsid"@),
        113 => Some("setreuid"@),
        114 => Some("setregid"@),
        115 => Some("getgroups"@),
        116 => Some("setgroups"@),
        117 => Some("setresuid"@),
        118 => Some("getresuid"@),
        119 => Some("setresgid"@),
        _ => None,
    }
}

proof fn lemma_names_80_119(s: Seq<char>, n: i64)
    ensures
        calls_80_119(s) matches Some(k) ==> names_80_119(k) == Some(s) && 80 <= k <= 119,
        names_80_119(n) matches Some(name) ==> calls_80_119(name) is Some,
{
}

/// The names of the calls 120 to 159.
pub open spec fn names_120_159(n: i64) -> Option<Seq<char>> {
    match n {
        120 => Some("getresgid"@),
        121 => Some("getpgid"@),
        122 => Some("setfsuid"@),
        123 => Some("setfsgid"@),
        124 => Some("getsid"@),
        125 => Some("capget"@),
        126 => Some("capset"@),
        127 => Some("rt_sigpending"@),
        128 => Some("rt_sigtimedwait"@),
        129 => Some("rt_sigqueueinfo"@),
        130 => Some("rt_sigsuspend"@),
        131 => Some("sigaltstack"@),
        132 => Some("utime"@),
        133 => Some("mknod"@),
        134 => Some("uselib"@),
        135 => Some("personality"@),
        136 => Some("ustat"@),
        137 => Some("statfs"@),
        138 => Some("fstatfs"@),
        139 => Some("sysfs"@),
        140 => Some("getpriority"@),
        141 => Some("setpriority"@),
        142 => Some("sched_setparam"@),
        143 => Some("sched_getparam"@),
        144 => Some("sched_setscheduler"@),
        145 => Some("sched_getscheduler"@),
        146 => Some("sched_get_priority_max"@),
        147 => Some("sched_get_priority_min"@),
        148 => Some("sched_rr_get_interval"@),
        149 => Some("mlock"@),
        150 => Some("munlock"@),
        151 => Some("mlockall"@),
        152 => Some("munlockall"@),
        153 => Some("vhangup"@),
        154 => Some("modify_ldt"@),
        155 => Some("pivot_root"@),
        156 => Some("_sysctl"@),
        157 => Some("prctl"@),
        158 => Some("arch_prctl"@),
        159 => Some("adjtimex"@),
        _ => None,
    }
}

proof fn lemma_names_120_159(s: Seq<char>, n: i64)
    ensures
        calls_120_159(s) matches Some(k) ==> names_120_159(k) == Some(s) && 120 <= k <= 159,
        names_120_159(n) matches Some(name) ==> calls_120_159(name) is Some,
{
}

/// The names of the calls 160 to 199.
pub open spec fn names_160_199(n: i64) -> Option<Seq<char>> {
    match n {
        160 => Some("setrlimit"@),
        161 => Some("chroot"@),
        162 => Some("sync"@),
        163 => Some("acct"@),
        164 => Some("settimeofday"@),
        165 => Some("mount"@),
        166 => Some("umount2"@),
        167 => Some("swapon"@),
        168 => Some("swapoff"@),
        169 => Some("reboot"@),
        170 => Some("sethostname"@),
        171 => Some("setdomainname"@),
        172 => Some("iopl"@),
        173 => Some("ioperm"@),
        174 => Some("create_module"@),
        175 => Some("init_module"@),
        176 => Some("delete_module"@),
        177 => Some("get_kernel_syms"@),
        178 => Some("query_module"@),
        179 => Some("quotactl"@),
        180 => Some("nfsservctl"@),
        181 => Some("getpmsg"@),
        182 => Some("putpmsg"@),
        183 => Some("afs_syscall"@),
        184 => Some("tuxcall"@),
        185 => Some("security"@),
        186 => Some("gettid"@),
        187 => Some("readahead"@),
        188 => Some("setxattr"@),
        189 => Some("lsetxattr"@),
        190 => Some("fsetxattr"@),
        191 => Some("getxattr"@),
        192 => Some("lgetxattr"@),
        193 => Some("fgetxattr"@),
        194 => Some("listxattr"@),
        195 => Some("llistxattr"@),
        196 => Some("flistxattr"@),
        197 => Some("removexattr"@),
        198 => Some("lremovexattr"@),
        199 => Some("fremovexattr"@),
        _ => None,
    }
}

proof fn lemma_names_160_199(s: Seq<char>, n: i64)
    ensures
        calls_160_199(s) matches Some(k) ==> names_160_199(k) == Some(s) && 160 <= k <= 199,
        names_160_199(n) matches Some(name) ==> calls_160_199(name) is Some,
{
}

/// The names of the calls 200 to 239.
pub open spec fn names_200_239(n: i64) -> Option<Seq<char>> {
    match n {
        200 => Some("tkill"@),
        201 => Some("time"@),
        202 => Some("futex"@),
        203 => Some("sched_setaffinity"@),
        204 => Some("sched_getaffinity"@),
        205 => Some("set_thread_area"@),
        206 => Some("io_setup"@),
        207 => Some("io_destroy"@),
        208 => Some("io_getevents"@),
        209 => Some("io_submit"@),
        210 => Some("io_cancel"@),
        211 => Some("get_thread_area"@),
        212 => Some("lookup_dcookie"@),
        213 => Some("epoll_create"@),
        214 => Some("epoll_ctl_old"@),
        215 => Some("epoll_wait_old"@),
        216 => Some("remap_file_pages"@),
        217 => Some("getdents64"@),
        218 => Some("set_tid_address"@),
        219 => Some("restart_syscall"@),
        220 => Some("semtimedop"@),
        221 => Some("fadvise64"@),
        222 => Some("timer_create"@),
        223 => Some("timer_settime"@),
        224 => Some("timer_gettime"@),
        225 => Some("timer_getoverrun"@),
        226 => Some("timer_delete"@),
        227 => Some("clock_settime"@),
        228 => Some("clock_gettime"@),
        229 => Some("clock_getres"@),
        230 => Some("clock_nanosleep"@),
        231 => Some("exit_group"@),
        232 => Some("epoll_wait"@),
        233 => Some("epoll_ctl"@),
        234 => Some("tgkill"@),
        235 => Some("utimes"@),
        236 => Some("vserver"@),
        237 => Some("mbind"@),
        238 => Some("set_mempolicy"@),
        239 => Some("get_mempolicy"@),
        _ => None,
    }
}

proof fn lemma_names_200_239(s: Seq<char>, n: i64)
    ensures
        calls_200_239(s) matches Some(k) ==> names_200_239(k) == Some(s) && 200 <= k <= 239,
        names_200_239(n) matches Some(name) ==> calls_200_239(name) is Some,
{
}

/// The names of the calls 240 to 279.
pub open spec fn names_240_279(n: i64) -> Option<Seq<char>> {
    match n {
        240 => Some("mq_open"@),
        241 => Some("mq_unlink"@),
        242 => Some("mq_timedsend"@),
        243 => Some("mq_timedreceive"@),
        244 => Some("mq_notify"@),
        245 => Some("mq_getsetattr"@),
        246 => Some("kexec_load"@),
        247 => Some("waitid"@),
        248 => Some("add_key"@),
        249 => Some("request_key"@),
        250 => Some("keyctl"@),
        251 => Some("ioprio_set"@),
        252 => Some("ioprio_get"@),
        253 => Some("inotify_init"@),
        254 => Some("inotify_add_watch"@),
        255 => Some("inotify_rm_watch"@),
        256 => Some("migrate_pages"@),
        257 => Some("openat"@),
        258 => Some("mkdirat"@),
        259 => Some("mknodat"@),
        260 => Some("fchownat"@),
        261 => Some("futimesat"@),
        262 => Some("newfstatat"@),
        263 => Some("unlinkat"@),
        264 => Some("renameat"@),
        265 => Some("linkat"@),
        266 => Some("symlinkat"@),
        267 => Some("readlinkat"@),
        268 => Some("fchmodat"@),
        269 => Some("faccessat"@),
        270 => Some("pselect6"@),
        271 => Some("ppoll"@),
        272 => Some("unshare"@),
        273 => Some("set_robust_list"@),
        274 => Some("get_robust_list"@),
        275 => Some("splice"@),
        276 => Some("tee"@),
        277 => Some("sync_file_range"@),
        278 => Some("vmsplice"@),
        279 => Some("move_pages"@),
        _ => None,
    }
}

proof fn lemma_names_240_279(s: Seq<char>, n: i64)
    ensures
        calls_240_279(s) matches Some(k) ==> names_240_279(k) == Some(s) && 240 <= k <= 279,
        names_240_279(n) matches Some(name) ==> calls_240_279(name) is Some,
{
}

/// The names of the calls 280 to 319.
pub open spec fn names_280_319(n: i64) -> Option<Seq<char>> {
    match n {
        280 => Some("utimensat"@),
        281 => Some("epoll_pwait"@),
        282 => Some("signalfd"@),
        283 => Some("timerfd_create"@),
        284 => Some("eventfd"@),
        285 => Some("fallocate"@),
        286 => Some("timerfd_settime"@),
        287 => Some("timerfd_gettime"@),
        288 => Some("accept4"@),
        289 => Some("signalfd4"@),
        290 => Some("eventfd2"@),
        291 => Some("epoll_create1"@),
        292 => Some("dup3"@),
        293 => Some("pipe2"@),
        294 => Some("inotify_init1"@),
        295 => Some("preadv"@),
        296 => Some("pwritev"@),
        297 => Some("rt_tgsigqueueinfo"@),
        298 => Some("perf_event_open"@),
        299 => Some("recvmmsg"@),
        300 => Some("fanotify_init"@),
        301 => Some("fanotify_mark"@),
        302 => Some("prlimit64"@),
        303 => Some("name_to_handle_at"@),
        304 => Some("open_by_handle_at"@),
        305 => Some("clock_adjtime"@),
        306 => Some("syncfs"@),
        307 => Some("sendmmsg"@),
        308 => Some("setns"@),
        309 => Some("getcpu"@),
        310 => Some("process_vm_readv"@),
        311 => Some("process_vm_writev"@),
        312 => Some("kcmp"@),
        313 => Some("finit_module"@),
        314 => Some("sched_setattr"@),
        315 => Some("sched_getattr"@),
        316 => Some("renameat2"@),
        317 => Some("seccomp"@),
        318 => Some("getrandom"@),
        319 => Some("memfd_create"@),
        _ => None,
    }
}

proof fn lemma_names_280_319(s: Seq<char>, n: i64)
    ensures
        calls_280_319(s) matches Some(k) ==> names_280_319(k) == Some(s) && 280 <= k <= 319,
        names_280_319(n) matches Some(name) ==> calls_280_319(name) is Some,
{
}

/// The names of the calls 320 to 448.
pub open spec fn names_320_448(n: i64) -> Option<Seq<char>> {
    match n {
        320 => Some("kexec_file_load"@),
        321 => Some("bpf"@),
        322 => Some("execveat"@),
        323 => Some("userfaultfd"@),
        324 => Some("membarrier"@),
        325 => Some("mlock2"@),
        326 => Some("copy_file_range"@),
        327 => Some("preadv2"@),
        328 => Some("pwritev2"@),
        329 => Some("pkey_mprotect"@),
        330 => Some("pkey_alloc"@),
        331 => Some("pkey_free"@),
        332 => Some("statx"@),
        333 => Some("io_pgetevents"@),
        334 => Some("rseq"@),
        424 => Some("pidfd_send_signal"@),
        425 => Some("io_uring_setup"@),
        426 => Some("io_uring_enter"@),
        427 => Some("io_uring_register"@),
        428 => Some("open_tree"@),
        429 => Some("move_mount"@),
        430 => Some("fsopen"@),
        431 => Some("fsconfig"@),
        432 => Some("fsmount"@),
        433 => Some("fspick"@),
        434 => Some("pidfd_open"@),
        435 => Some("clone3"@),
        436 => Some("close_range"@),
        437 => Some("openat2"@),
        438 => Some("pidfd_getfd"@),
        439 => Some("faccessat2"@),
        440 => Some("process_madvise"@),
        441 => Some("epoll_pwait2"@),
        442 => Some("mount_setattr"@),
        443 => Some("quotactl_fd"@),
        444 => Some("landlock_create_ruleset"@),
        445 => Some("landlock_add_rule"@),
        446 => Some("landlock_restrict_self"@),
        447 => Some("memfd_secret"@),
        448 => Some("process_mrelease"@),
        _ => None,
    }
}

proof fn lemma_names_320_448(s: Seq<char>, n: i64)
    ensures
        calls_320_448(s) matches Some(k) ==> names_320_448(k) == Some(s) && 320 <= k <= 448,
        names_320_448(n) matches Some(name) ==> calls_320_448(name) is Some,
{
}

/// The names of the calls 449 to 453.
pub open spec fn names_449_453(n: i64) -> Option<Seq<char>> {
    match n {
        449 => Some("futex_waitv"@),
        450 => Some("set_mempolicy_home_node"@),
        451 => Some("cachestat"@),
        452 => Some("fchmodat2"@),
        453 => Some("map_shadow_stack"@),
        _ => None,
    }
}

proof fn lemma_names_449_453(s: Seq<char>, n: i64)
    ensures
        calls_449_453(s) matches Some(k) ==> names_449_453(k) == Some(s) && 449 <= k <= 453,
        names_449_453(n) matches Some(name) ==> calls_449_453(name) is Some,
{
}

/// The name of a call by its number.
pub open spec fn name_of(n: i64) -> Option<Seq<char>> {
    if n <= 39 {
        names_0_39(n)
    } else if n <= 79 {
        names_40_79(n)
    } else if n <= 119 {
        names_80_119(n)
    } else if n <= 159 {
        names_120_159(n)
    } else if n <= 199 {
        names_160_199(n)
    } else if n <= 239 {
        names_200_239(n)
    } else if n <= 279 {
        names_240_279(n)
    } else if n <= 319 {
        names_280_319(n)
    } else if n <= 448 {
        names_320_448(n)
    } else {
        names_449_453(n)
    }
}

/// A name stands for the call of which it is the name, so that no two names stand for one call; and
/// every call that has a name is found by it.
pub proof fn law_call_names(s: Seq<char>, n: i64)
    ensures
        number(s) matches Some(k) ==> name_of(k) == Some(s),
        name_of(n) matches Some(name) ==> number(name) is Some,
{
    lemma_names_0_39(s, n);
    lemma_names_40_79(s, n);
    lemma_names_80_119(s, n);
    lemma_names_120_159(s, n);
    lemma_names_160_199(s, n);
    lemma_names_200_239(s, n);
    lemma_names_240_279(s, n);
    lemma_names_280_319(s, n);
    lemma_names_320_448(s, n);
    lemma_names_449_453(s, n);
    match name_of(n) {
        Some(name) => {
            lemma_names_0_39(name, n);
            lemma_names_40_79(name, n);
            lemma_names_80_119(name, n);
            lemma_names_120_159(name, n);
            lemma_names_160_199(name, n);
            lemma_names_200_239(name, n);
            lemma_names_240_279(name, n);
            lemma_names_280_319(name, n);
            lemma_names_320_448(name, n);
            lemma_names_449_453(name, n);
        },
        None => {},
    }
}

} // verus!
