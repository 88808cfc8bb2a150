//! System call numbers on aarch64.

use vstd::prelude::*;

use crate::text::str_eq;

verus! {

/// The calls 0 to 39.
pub open spec fn calls_0_39(s: Seq<char>) -> Option<i64> {
    if s == "io_setup"@ {
        Some(0i64)
    } else if s == "io_destroy"@ {
        Some(1i64)
    } else if s == "io_submit"@ {
        Some(2i64)
    } else if s == "io_cancel"@ {
        Some(3i64)
    } else if s == "io_getevents"@ {
        Some(4i64)
    } else if s == "setxattr"@ {
        Some(5i64)
    } else if s == "lsetxattr"@ {
        Some(6i64)
    } else if s == "fsetxattr"@ {
        Some(7i64)
    } else if s == "getxattr"@ {
        Some(8i64)
    } else if s == "lgetxattr"@ {
        Some(9i64)
    } else if s == "fgetxattr"@ {
        Some(10i64)
    } else if s == "listxattr"@ {
        Some(11i64)
    } else if s == "llistxattr"@ {
        Some(12i64)
    } else if s == "flistxattr"@ {
        Some(13i64)
    } else if s == "removexattr"@ {
        Some(14i64)
    } else if s == "lremovexattr"@ {
        Some(15i64)
    } else if s == "fremovexattr"@ {
        Some(16i64)
    } else if s == "getcwd"@ {
        Some(17i64)
    } else if s == "lookup_dcookie"@ {
        Some(18i64)
    } else if s == "eventfd2"@ {
        Some(19i64)
    } else if s == "epoll_create1"@ {
        Some(20i64)
    } else if s == "epoll_ctl"@ {
        Some(21i64)
    } else if s == "epoll_pwait"@ {
        Some(22i64)
    } else if s == "dup"@ {
        Some(23i64)
    } else if s == "dup3"@ {
        Some(24i64)
    } else if s == "fcntl"@ {
        Some(25i64)
    } else if s == "inotify_init1"@ {
        Some(26i64)
    } else if s == "inotify_add_watch"@ {
        Some(27i64)
    } else if s == "inotify_rm_watch"@ {
        Some(28i64)
    } else if s == "ioctl"@ {
        Some(29i64)
    } else if s == "ioprio_set"@ {
        Some(30i64)
    } else if s == "ioprio_get"@ {
        Some(31i64)
    } else if s == "flock"@ {
        Some(32i64)
    } else if s == "mknodat"@ {
        Some(33i64)
    } else if s == "mkdirat"@ {
        Some(34i64)
    } else if s == "unlinkat"@ {
        Some(35i64)
    } else if s == "symlinkat"@ {
        Some(36i64)
    } else if s == "linkat"@ {
        Some(37i64)
    } else if s == "renameat"@ {
        Some(38i64)
    } else if s == "umount2"@ {
        Some(39i64)
    } else {
        None
    }
}

/// The calls 0 to 39.
fn find_0_39(s: &str) -> (r: Option<i64>)
    ensures
        r == calls_0_39(s@),
{
    if str_eq(s, "io_setup") {
        Some(0i64)
    } else if str_eq(s, "io_destroy") {
        Some(1i64)
    } else if str_eq(s, "io_submit") {
        Some(2i64)
    } else if str_eq(s, "io_cancel") {
        Some(3i64)
    } else if str_eq(s, "io_getevents") {
        Some(4i64)
    } else if str_eq(s, "setxattr") {
        Some(5i64)
    } else if str_eq(s, "lsetxattr") {
        Some(6i64)
    } else if str_eq(s, "fsetxattr") {
        Some(7i64)
    } else if str_eq(s, "getxattr") {
        Some(8i64)
    } else if str_eq(s, "lgetxattr") {
        Some(9i64)
    } else if str_eq(s, "fgetxattr") {
        Some(10i64)
    } else if str_eq(s, "listxattr") {
        Some(11i64)
    } else if str_eq(s, "llistxattr") {
        Some(12i64)
    } else if str_eq(s, "flistxattr") {
        Some(13i64)
    } else if str_eq(s, "removexattr") {
        Some(14i64)
    } else if str_eq(s, "lremovexattr") {
        Some(15i64)
    } else if str_eq(s, "fremovexattr") {
        Some(16i64)
    } else if str_eq(s, "getcwd") {
        Some(17i64)
    } else if str_eq(s, "lookup_dcookie") {
        Some(18i64)
    } else if str_eq(s, "eventfd2") {
        Some(19i64)
    } else if str_eq(s, "epoll_create1") {
        Some(20i64)
    } else if str_eq(s, "epoll_ctl") {
        Some(21i64)
    } else if str_eq(s, "epoll_pwait") {
        Some(22i64)
    } else if str_eq(s, "dup") {
        Some(23i64)
    } else if str_eq(s, "dup3") {
        Some(24i64)
    } else if str_eq(s, "fcntl") {
        Some(25i64)
    } else if str_eq(s, "inotify_init1") {
        Some(26i64)
    } else if str_eq(s, "inotify_add_watch") {
        Some(27i64)
    } else if str_eq(s, "inotify_rm_watch") {
        Some(28i64)
    } else if str_eq(s, "ioctl") {
        Some(29i64)
    } else if str_eq(s, "ioprio_set") {
        Some(30i64)
    } else if str_eq(s, "ioprio_get") {
        Some(31i64)
    } else if str_eq(s, "flock") {
        Some(32i64)
    } else if str_eq(s, "mknodat") {
        Some(33i64)
    } else if str_eq(s, "mkdirat") {
        Some(34i64)
    } else if str_eq(s, "unlinkat") {
        Some(35i64)
    } else if str_eq(s, "symlinkat") {
        Some(36i64)
    } else if str_eq(s, "linkat") {
        Some(37i64)
    } else if str_eq(s, "renameat") {
        Some(38i64)
    } else if str_eq(s, "umount2") {
        Some(39i64)
    } else {
        None
    }
}

/// The calls 40 to 79.
pub open spec fn calls_40_79(s: Seq<char>) -> Option<i64> {
    if s == "mount"@ {
        Some(40i64)
    } else if s == "pivot_root"@ {
        Some(41i64)
    } else if s == "nfsservctl"@ {
        Some(42i64)
    } else if s == "statfs"@ {
        Some(43i64)
    } else if s == "fstatfs"@ {
        Some(44i64)
    } else if s == "truncate"@ {
        Some(45i64)
    } else if s == "ftruncate"@ {
        Some(46i64)
    } else if s == "fallocate"@ {
        Some(47i64)
    } else if s == "faccessat"@ {
        Some(48i64)
    } else if s == "chdir"@ {
        Some(49i64)
    } else if s == "fchdir"@ {
        Some(50i64)
    } else if s == "chroot"@ {
        Some(51i64)
    } else if s == "fchmod"@ {
        Some(52i64)
    } else if s == "fchmodat"@ {
        Some(53i64)
    } else if s == "fchownat"@ {
        Some(54i64)
    } else if s == "fchown"@ {
        Some(55i64)
    } else if s == "openat"@ {
        Some(56i64)
    } else if s == "close"@ {
        Some(57i64)
    } else if s == "vhangup"@ {
        Some(58i64)
    } else if s == "pipe2"@ {
        Some(59i64)
    } else if s == "quotactl"@ {
        Some(60i64)
    } else if s == "getdents64"@ {
        Some(61i64)
    } else if s == "lseek"@ {
        Some(62i64)
    } else if s == "read"@ {
        Some(63i64)
    } else if s == "write"@ {
        Some(64i64)
    } else if s == "readv"@ {
        Some(65i64)
    } else if s == "writev"@ {
        Some(66i64)
    } else if s == "pread64"@ {
        Some(67i64)
    } else if s == "pwrite64"@ {
        Some(68i64)
    } else if s == "preadv"@ {
        Some(69i64)
    } else if s == "pwritev"@ {
        Some(70i64)
    } else if s == "sendfile"@ {
        Some(71i64)
    } else if s == "pselect6"@ {
        Some(72i64)
    } else if s == "ppoll"@ {
        Some(73i64)
    } else if s == "signalfd4"@ {
        Some(74i64)
    } else if s == "vmsplice"@ {
        Some(75i64)
    } else if s == "splice"@ {
        Some(76i64)
    } else if s == "tee"@ {
        Some(77i64)
    } else if s == "readlinkat"@ {
        Some(78i64)
    } else if s == "newfstatat"@ {
        Some(79i64)
    } else {
        None
    }
}

/// The calls 40 to 79.
fn find_40_79(s: &str) -> (r: Option<i64>)
    ensures
        r == calls_40_79(s@),
{
    if str_eq(s, "mount") {
        Some(40i64)
    } else if str_eq(s, "pivot_root") {
        Some(41i64)
    } else if str_eq(s, "nfsservctl") {
        Some(42i64)
    } else if str_eq(s, "statfs") {
        Some(43i64)
    } else if str_eq(s, "fstatfs") {
        Some(44i64)
    } else if str_eq(s, "truncate") {
        Some(45i64)
    } else if str_eq(s, "ftruncate") {
        Some(46i64)
    } else if str_eq(s, "fallocate") {
        Some(47i64)
    } else if str_eq(s, "faccessat") {
        Some(48i64)
    } else if str_eq(s, "chdir") {
        Some(49i64)
    } else if str_eq(s, "fchdir") {
        Some(50i64)
    } else if str_eq(s, "chroot") {
        Some(51i64)
    } else if str_eq(s, "fchmod") {
        Some(52i64)
    } else if str_eq(s, "fchmodat") {
        Some(53i64)
    } else if str_eq(s, "fchownat") {
        Some(54i64)
    } else if str_eq(s, "fchown") {
        Some(55i64)
    } else if str_eq(s, "openat") {
        Some(56i64)
    } else if str_eq(s, "close") {
        Some(57i64)
    } else if str_eq(s, "vhangup") {
        Some(58i64)
    } else if str_eq(s, "pipe2") {
        Some(59i64)
    } else if str_eq(s, "quotactl") {
        Some(60i64)
    } else if str_eq(s, "getdents64") {
        Some(61i64)
    } else if str_eq(s, "lseek") {
        Some(62i64)
    } else if str_eq(s, "read") {
        Some(63i64)
    } else if str_eq(s, "write") {
        Some(64i64)
    } else if str_eq(s, "readv") {
        Some(65i64)
    } else if str_eq(s, "writev") {
        Some(66i64)
    } else if str_eq(s, "pread64") {
        Some(67i64)
    } else if str_eq(s, "pwrite64") {
        Some(68i64)
    } else if str_eq(s, "preadv") {
        Some(69i64)
    } else if str_eq(s, "pwritev") {
        Some(70i64)
    } else if str_eq(s, "sendfile") {
        Some(71i64)
    } else if str_eq(s, "pselect6") {
        Some(72i64)
    } else if str_eq(s, "ppoll") {
        Some(73i64)
    } else if str_eq(s, "signalfd4") {
        Some(74i64)
    } else if str_eq(s, "vmsplice") {
        Some(75i64)
    } else if str_eq(s, "splice") {
        Some(76i64)
    } else if str_eq(s, "tee") {
        Some(77i64)
    } else if str_eq(s, "readlinkat") {
        Some(78i64)
    } else if str_eq(s, "newfstatat") {
        Some(79i64)
    } else {
        None
    }
}

/// The calls 80 to 119.
pub open spec fn calls_80_119(s: Seq<char>) -> Option<i64> {
    if s == "fstat"@ {
        Some(80i64)
    } else if s == "sync"@ {
        Some(81i64)
    } else if s == "fsync"@ {
        Some(82i64)
    } else if s == "fdatasync"@ {
        Some(83i64)
    } else if s == "sync_file_range"@ {
        Some(84i64)
    } else if s == "timerfd_create"@ {
        Some(85i64)
    } else if s == "timerfd_settime"@ {
        Some(86i64)
    } else if s == "timerfd_gettime"@ {
        Some(87i64)
    } else if s == "utimensat"@ {
        Some(88i64)
    } else if s == "acct"@ {
        Some(89i64)
    } else if s == "capget"@ {
        Some(90i64)
    } else if s == "capset"@ {
        Some(91i64)
    } else if s == "personality"@ {
        Some(92i64)
    } else if s == "exit"@ {
        Some(93i64)
    } else if s == "exit_group"@ {
        Some(94i64)
    } else if s == "waitid"@ {
        Some(95i64)
    } else if s == "set_tid_address"@ {
        Some(96i64)
    } else if s == "unshare"@ {
        Some(97i64)
    } else if s == "futex"@ {
        Some(98i64)
    } else if s == "set_robust_list"@ {
        Some(99i64)
    } else if s == "get_robust_list"@ {
        Some(100i64)
    } else if s == "nanosleep"@ {
        Some(101i64)
    } else if s == "getitimer"@ {
        Some(102i64)
    } else if s == "setitimer"@ {
        Some(103i64)
    } else if s == "kexec_load"@ {
        Some(104i64)
    } else if s == "init_module"@ {
        Some(105i64)
    } else if s == "delete_module"@ {
        Some(106i64)
    } else if s == "timer_create"@ {
        Some(107i64)
    } else if s == "timer_gettime"@ {
        Some(108i64)
    } else if s == "timer_getoverrun"@ {
        Some(109i64)
    } else if s == "timer_settime"@ {
        Some(110i64)
    } else if s == "timer_delete"@ {
        Some(111i64)
    } else if s == "clock_settime"@ {
        Some(112i64)
    } else if s == "clock_gettime"@ {
        Some(113i64)
    } else if s == "clock_getres"@ {
        Some(114i64)
    } else if s == "clock_nanosleep"@ {
        Some(115i64)
    } else if s == "syslog"@ {
        Some(116i64)
    } else if s == "ptrace"@ {
        Some(117i64)
    } else if s == "sched_setparam"@ {
        Some(118i64)
    } else if s == "sched_setscheduler"@ {
        Some(119i64)
    } else {
        None
    }
}

/// The calls 80 to 119.
fn find_80_119(s: &str) -> (r: Option<i64>)
    ensures
        r == calls_80_119(s@),
{
    if str_eq(s, "fstat") {
        Some(80i64)
    } else if str_eq(s, "sync") {
        Some(81i64)
    } else if str_eq(s, "fsync") {
        Some(82i64)
    } else if str_eq(s, "fdatasync") {
        Some(83i64)
    } else if str_eq(s, "sync_file_range") {
        Some(84i64)
    } else if str_eq(s, "timerfd_create") {
        Some(85i64)
    } else if str_eq(s, "timerfd_settime") {
        Some(86i64)
    } else if str_eq(s, "timerfd_gettime") {
        Some(87i64)
    } else if str_eq(s, "utimensat") {
        Some(88i64)
    } else if str_eq(s, "acct") {
        Some(89i64)
    } else if str_eq(s, "capget") {
        Some(90i64)
    } else if str_eq(s, "capset") {
        Some(91i64)
    } else if str_eq(s, "personality") {
        Some(92i64)
    } else if str_eq(s, "exit") {
        Some(93i64)
    } else if str_eq(s, "exit_group") {
        Some(94i64)
    } else if str_eq(s, "waitid") {
        Some(95i64)
    } else if str_eq(s, "set_tid_address") {
        Some(96i64)
    } else if str_eq(s, "unshare") {
        Some(97i64)
    } else if str_eq(s, "futex") {
        Some(98i64)
    } else if str_eq(s, "set_robust_list") {
        Some(99i64)
    } else if str_eq(s, "get_robust_list") {
        Some(100i64)
    } else if str_eq(s, "nanosleep") {
        Some(101i64)
    } else if str_eq(s, "getitimer") {
        Some(102i64)
    } else if str_eq(s, "setitimer") {
        Some(103i64)
    } else if str_eq(s, "kexec_load") {
        Some(104i64)
    } else if str_eq(s, "init_module") {
        Some(105i64)
    } else if str_eq(s, "delete_module") {
        Some(106i64)
    } else if str_eq(s, "timer_create") {
        Some(107i64)
    } else if str_eq(s, "timer_gettime") {
        Some(108i64)
    } else if str_eq(s, "timer_getoverrun") {
        Some(109i64)
    } else if str_eq(s, "timer_settime") {
        Some(110i64)
    } else if str_eq(s, "timer_delete") {
        Some(111i64)
    } else if str_eq(s, "clock_settime") {
        Some(112i64)
    } else if str_eq(s, "clock_gettime") {
        Some(113i64)
    } else if str_eq(s, "clock_getres") {
        Some(114i64)
    } else if str_eq(s, "clock_nanosleep") {
        Some(115i64)
    } else if str_eq(s, "syslog") {
        Some(116i64)
    } else if str_eq(s, "ptrace") {
        Some(117i64)
    } else if str_eq(s, "sched_setparam") {
        Some(118i64)
    } else if str_eq(s, "sched_setscheduler") {
        Some(119i64)
    } else {
        None
    }
}

/// The calls 120 to 159.
pub open spec fn calls_120_159(s: Seq<char>) -> Option<i64> {
    if s == "sched_getscheduler"@ {
        Some(120i64)
    } else if s == "sched_getparam"@ {
        Some(121i64)
    } else if s == "sched_setaffinity"@ {
        Some(122i64)
    } else if s == "sched_getaffinity"@ {
        Some(123i64)
    } else if s == "sched_yield"@ {
        Some(124i64)
    } else if s == "sched_get_priority_max"@ {
        Some(125i64)
    } else if s == "sched_get_priority_min"@ {
        Some(126i64)
    } else if s == "sched_rr_get_interval"@ {
        Some(127i64)
    } else if s == "restart_syscall"@ {
        Some(128i64)
    } else if s == "kill"@ {
        Some(129i64)
    } else if s == "tkill"@ {
        Some(130i64)
    } else if s == "tgkill"@ {
        Some(131i64)
    } else if s == "sigaltstack"@ {
        Some(132i64)
    } else if s == "rt_sigsuspend"@ {
        Some(133i64)
    } else if s == "rt_sigaction"@ {
        Some(134i64)
    } else if s == "rt_sigprocmask"@ {
        Some(135i64)
    } else if s == "rt_sigpending"@ {
        Some(136i64)
    } else if s == "rt_sigtimedwait"@ {
        Some(137i64)
    } else if s == "rt_sigqueueinfo"@ {
        Some(138i64)
    } else if s == "rt_sigreturn"@ {
        Some(139i64)
    } else if s == "setpriority"@ {
        Some(140i64)
    } else if s == "getpriority"@ {
        Some(141i64)
    } else if s == "reboot"@ {
        Some(142i64)
    } else if s == "setregid"@ {
        Some(143i64)
    } else if s == "setgid"@ {
        Some(144i64)
    } else if s == "setreuid"@ {
        Some(145i64)
    } else if s == "setuid"@ {
        Some(146i64)
    } else if s == "setresuid"@ {
        Some(147i64)
    } else if s == "getresuid"@ {
        Some(148i64)
    } else if s == "setresgid"@ {
        Some(149i64)
    } else if s == "getresgid"@ {
        Some(150i64)
    } else if s == "setfsuid"@ {
        Some(151i64)
    } else if s == "setfsgid"@ {
        Some(152i64)
    } else if s == "times"@ {
        Some(153i64)
    } else if s == "setpgid"@ {
        Some(154i64)
    } else if s == "getpgid"@ {
        Some(155i64)
    } else if s == "getsid"@ {
        Some(156i64)
    } else if s == "setsid"@ {
        Some(157i64)
    } else if s == "getgroups"@ {
        Some(158i64)
    } else if s == "setgroups"@ {
        Some(159i64)
    } else {
        None
    }
}

/// The calls 120 to 159.
fn find_120_159(s: &str) -> (r: Option<i64>)
    ensures
        r == calls_120_159(s@),
{
    if str_eq(s, "sched_getscheduler") {
        Some(120i64)
    } else if str_eq(s, "sched_getparam") {
        Some(121i64)
    } else if str_eq(s, "sched_setaffinity") {
        Some(122i64)
    } else if str_eq(s, "sched_getaffinity") {
        Some(123i64)
    } else if str_eq(s, "sched_yield") {
        Some(124i64)
    } else if str_eq(s, "sched_get_priority_max") {
        Some(125i64)
    } else if str_eq(s, "sched_get_priority_min") {
        Some(126i64)
    } else if str_eq(s, "sched_rr_get_interval") {
        Some(127i64)
    } else if str_eq(s, "restart_syscall") {
        Some(128i64)
    } else if str_eq(s, "kill") {
        Some(129i64)
    } else if str_eq(s, "tkill") {
        Some(130i64)
    } else if str_eq(s, "tgkill") {
        Some(131i64)
    } else if str_eq(s, "sigaltstack") {
        Some(132i64)
    } else if str_eq(s, "rt_sigsuspend") {
        Some(133i64)
    } else if str_eq(s, "rt_sigaction") {
        Some(134i64)
    } else if str_eq(s, "rt_sigprocmask") {
        Some(135i64)
    } else if str_eq(s, "rt_sigpending") {
        Some(136i64)
    } else if str_eq(s, "rt_sigtimedwait") {
        Some(137i64)
    } else if str_eq(s, "rt_sigqueueinfo") {
        Some(138i64)
    } else if str_eq(s, "rt_sigreturn") {
        Some(139i64)
    } else if str_eq(s, "setpriority") {
        Some(140i64)
    } else if str_eq(s, "getpriority") {
        Some(141i64)
    } else if str_eq(s, "reboot") {
        Some(142i64)
    } else if str_eq(s, "setregid") {
        Some(143i64)
    } else if str_eq(s, "setgid") {
        Some(144i64)
    } else if str_eq(s, "setreuid") {
        Some(145i64)
    } else if str_eq(s, "setuid") {
        Some(146i64)
    } else if str_eq(s, "setresuid") {
        Some(147i64)
    } else if str_eq(s, "getresuid") {
        Some(148i64)
    } else if str_eq(s, "setresgid") {
        Some(149i64)
    } else if str_eq(s, "getresgid") {
        Some(150i64)
    } else if str_eq(s, "setfsuid") {
        Some(151i64)
    } else if str_eq(s, "setfsgid") {
        Some(152i64)
    } else if str_eq(s, "times") {
        Some(153i64)
    } else if str_eq(s, "setpgid") {
        Some(154i64)
    } else if str_eq(s, "getpgid") {
        Some(155i64)
    } else if str_eq(s, "getsid") {
        Some(156i64)
    } else if str_eq(s, "setsid") {
        Some(157i64)
    } else if str_eq(s, "getgroups") {
        Some(158i64)
    } else if str_eq(s, "setgroups") {
        Some(159i64)
    } else {
        None
    }
}

/// The calls 160 to 199.
pub open spec fn calls_160_199(s: Seq<char>) -> Option<i64> {
    if s == "uname"@ {
        Some(160i64)
    } else if s == "sethostname"@ {
        Some(161i64)
    } else if s == "setdomainname"@ {
        Some(162i64)
    } else if s == "getrlimit"@ {
        Some(163i64)
    } else if s == "setrlimit"@ {
        Some(164i64)
    } else if s == "getrusage"@ {
        Some(165i64)
    } else if s == "umask"@ {
        Some(166i64)
    } else if s == "prctl"@ {
        Some(167i64)
    } else if s == "getcpu"@ {
        Some(168i64)
    } else if s == "gettimeofday"@ {
        Some(169i64)
    } else if s == "settimeofday"@ {
        Some(170i64)
    } else if s == "adjtimex"@ {
        Some(171i64)
    } else if s == "getpid"@ {
        Some(172i64)
    } else if s == "getppid"@ {
        Some(173i64)
    } else if s == "getuid"@ {
        Some(174i64)
    } else if s == "geteuid"@ {
        Some(175i64)
    } else if s == "getgid"@ {
        Some(176i64)
    } else if s == "getegid"@ {
        Some(177i64)
    } else if s == "gettid"@ {
        Some(178i64)
    } else if s == "sysinfo"@ {
        Some(179i64)
    } else if s == "mq_open"@ {
        Some(180i64)
    } else if s == "mq_unlink"@ {
        Some(181i64)
    } else if s == "mq_timedsend"@ {
        Some(182i64)
    } else if s == "mq_timedreceive"@ {
        Some(183i64)
    } else if s == "mq_notify"@ {
        Some(184i64)
    } else if s == "mq_getsetattr"@ {
        Some(185i64)
    } else if s == "msgget"@ {
        Some(186i64)
    } else if s == "msgctl"@ {
        Some(187i64)
    } else if s == "msgrcv"@ {
        Some(188i64)
    } else if s == "msgsnd"@ {
        Some(189i64)
    } else if s == "semget"@ {
        Some(190i64)
    } else if s == "semctl"@ {
        Some(191i64)
    } else if s == "semtimedop"@ {
        Some(192i64)
    } else if s == "semop"@ {
        Some(193i64)
    } else if s == "shmget"@ {
        Some(194i64)
    } else if s == "shmctl"@ {
        Some(195i64)
    } else if s == "shmat"@ {
        Some(196i64)
    } else if s == "shmdt"@ {
        Some(197i64)
    } else if s == "socket"@ {
        Some(198i64)
    } else if s == "socketpair"@ {
        Some(199i64)
    } else {
        None
    }
}

/// The calls 160 to 199.
fn find_160_199(s: &str) -> (r: Option<i64>)
    ensures
        r == calls_160_199(s@),
{
    if str_eq(s, "uname") {
        Some(160i64)
    } else if str_eq(s, "sethostname") {
        Some(161i64)
    } else if str_eq(s, "setdomainname") {
        Some(162i64)
    } else if str_eq(s, "getrlimit") {
        Some(163i64)
    } else if str_eq(s, "setrlimit") {
        Some(164i64)
    } else if str_eq(s, "getrusage") {
        Some(165i64)
    } else if str_eq(s, "umask") {
        Some(166i64)
    } else if str_eq(s, "prctl") {
        Some(167i64)
    } else if str_eq(s, "getcpu") {
        Some(168i64)
    } else if str_eq(s, "gettimeofday") {
        Some(169i64)
    } else if str_eq(s, "settimeofday") {
        Some(170i64)
    } else if str_eq(s, "adjtimex") {
        Some(171i64)
    } else if str_eq(s, "getpid") {
        Some(172i64)
    } else if str_eq(s, "getppid") {
        Some(173i64)
    } else if str_eq(s, "getuid") {
        Some(174i64)
    } else if str_eq(s, "geteuid") {
        Some(175i64)
    } else if str_eq(s, "getgid") {
        Some(176i64)
    } else if str_eq(s, "getegid") {
        Some(177i64)
    } else if str_eq(s, "gettid") {
        Some(178i64)
    } else if str_eq(s, "sysinfo") {
        Some(179i64)
    } else if str_eq(s, "mq_open") {
        Some(180i64)
    } else if str_eq(s, "mq_unlink") {
        Some(181i64)
    } else if str_eq(s, "mq_timedsend") {
        Some(182i64)
    } else if str_eq(s, "mq_timedreceive") {
        Some(183i64)
    } else if str_eq(s, "mq_notify") {
        Some(184i64)
    } else if str_eq(s, "mq_getsetattr") {
        Some(185i64)
    } else if str_eq(s, "msgget") {
        Some(186i64)
    } else if str_eq(s, "msgctl") {
        Some(187i64)
    } else if str_eq(s, "msgrcv") {
        Some(188i64)
    } else if str_eq(s, "msgsnd") {
        Some(189i64)
    } else if str_eq(s, "semget") {
        Some(190i64)
    } else if str_eq(s, "semctl") {
        Some(191i64)
    } else if str_eq(s, "semtimedop") {
        Some(192i64)
    } else if str_eq(s, "semop") {
        Some(193i64)
    } else if str_eq(s, "shmget") {
        Some(194i64)
    } else if str_eq(s, "shmctl") {
        Some(195i64)
    } else if str_eq(s, "shmat") {
        Some(196i64)
    } else if str_eq(s, "shmdt") {
        Some(197i64)
    } else if str_eq(s, "socket") {
        Some(198i64)
    } else if str_eq(s, "socketpair") {
        Some(199i64)
    } else {
        None
    }
}

/// The calls 200 to 239.
pub open spec fn calls_200_239(s: Seq<char>) -> Option<i64> {
    if s == "bind"@ {
        Some(200i64)
    } else if s == "listen"@ {
        Some(201i64)
    } else if s == "accept"@ {
        Some(202i64)
    } else if s == "connect"@ {
        Some(203i64)
    } else if s == "getsockname"@ {
        Some(204i64)
    } else if s == "getpeername"@ {
        Some(205i64)
    } else if s == "sendto"@ {
        Some(206i64)
    } else if s == "recvfrom"@ {
        Some(207i64)
    } else if s == "setsockopt"@ {
        Some(208i64)
    } else if s == "getsockopt"@ {
        Some(209i64)
    } else if s == "shutdown"@ {
        Some(210i64)
    } else if s == "sendmsg"@ {
        Some(211i64)
    } else if s == "recvmsg"@ {
        Some(212i64)
    } else if s == "readahead"@ {
        Some(213i64)
    } else if s == "brk"@ {
        Some(214i64)
    } else if s == "munmap"@ {
        Some(215i64)
    } else if s == "mremap"@ {
        Some(216i64)
    } else if s == "add_key"@ {
        Some(217i64)
    } else if s == "request_key"@ {
        Some(218i64)
    } else if s == "keyctl"@ {
        Some(219i64)
    } else if s == "clone"@ {
        Some(220i64)
    } else if s == "execve"@ {
        Some(221i64)
    } else if s == "mmap"@ {
        Some(222i64)
    } else if s == "fadvise64"@ {
        Some(223i64)
    } else if s == "swapon"@ {
        Some(224i64)
    } else if s == "swapoff"@ {
        Some(225i64)
    } else if s == "mprotect"@ {
        Some(226i64)
    } else if s == "msync"@ {
        Some(227i64)
    } else if s == "mlock"@ {
        Some(228i64)
    } else if s == "munlock"@ {
        Some(229i64)
    } else if s == "mlockall"@ {
        Some(230i64)
    } else if s == "munlockall"@ {
        Some(231i64)
    } else if s == "mincore"@ {
        Some(232i64)
    } else if s == "madvise"@ {
        Some(233i64)
    } else if s == "remap_file_pages"@ {
        Some(234i64)
    } else if s == "mbind"@ {
        Some(235i64)
    } else if s == "get_mempolicy"@ {
        Some(236i64)
    } else if s == "set_mempolicy"@ {
        Some(237i64)
    } else if s == "migrate_pages"@ {
        Some(238i64)
    } else if s == "move_pages"@ {
        Some(239i64)
    } else {
        None
    }
}

/// The calls 200 to 239.
fn find_200_239(s: &str) -> (r: Option<i64>)
    ensures
        r == calls_200_239(s@),
{
    if str_eq(s, "bind") {
        Some(200i64)
    } else if str_eq(s, "listen") {
        Some(201i64)
    } else if str_eq(s, "accept") {
        Some(202i64)
    } else if str_eq(s, "connect") {
        Some(203i64)
    } else if str_eq(s, "getsockname") {
        Some(204i64)
    } else if str_eq(s, "getpeername") {
        Some(205i64)
    } else if str_eq(s, "sendto") {
        Some(206i64)
    } else if str_eq(s, "recvfrom") {
        Some(207i64)
    } else if str_eq(s, "setsockopt") {
        Some(208i64)
    } else if str_eq(s, "getsockopt") {
        Some(209i64)
    } else if str_eq(s, "shutdown") {
        Some(210i64)
    } else if str_eq(s, "sendmsg") {
        Some(211i64)
    } else if str_eq(s, "recvmsg") {
        Some(212i64)
    } else if str_eq(s, "readahead") {
        Some(213i64)
    } else if str_eq(s, "brk") {
        Some(214i64)
    } else if str_eq(s, "munmap") {
        Some(215i64)
    } else if str_eq(s, "mremap") {
        Some(216i64)
    } else if str_eq(s, "add_key") {
        Some(217i64)
    } else if str_eq(s, "request_key") {
        Some(218i64)
    } else if str_eq(s, "keyctl") {
        Some(219i64)
    } else if str_eq(s, "clone") {
        Some(220i64)
    } else if str_eq(s, "execve") {
        Some(221i64)
    } else if str_eq(s, "mmap") {
        Some(222i64)
    } else if str_eq(s, "fadvise64") {
        Some(223i64)
    } else if str_eq(s, "swapon") {
        Some(224i64)
    } else if str_eq(s, "swapoff") {
        Some(225i64)
    } else if str_eq(s, "mprotect") {
        Some(226i64)
    } else if str_eq(s, "msync") {
        Some(227i64)
    } else if str_eq(s, "mlock") {
        Some(228i64)
    } else if str_eq(s, "munlock") {
        Some(229i64)
    } else if str_eq(s, "mlockall") {
        Some(230i64)
    } else if str_eq(s, "munlockall") {
        Some(231i64)
    } else if str_eq(s, "mincore") {
        Some(232i64)
    } else if str_eq(s, "madvise") {
        Some(233i64)
    } else if str_eq(s, "remap_file_pages") {
        Some(234i64)
    } else if str_eq(s, "mbind") {
        Some(235i64)
    } else if str_eq(s, "get_mempolicy") {
        Some(236i64)
    } else if str_eq(s, "set_mempolicy") {
        Some(237i64)
    } else if str_eq(s, "migrate_pages") {
        Some(238i64)
    } else if str_eq(s, "move_pages") {
        Some(239i64)
    } else {
        None
    }
}

/// The calls 240 to 424.
pub open spec fn calls_240_424(s: Seq<char>) -> Option<i64> {
    if s == "rt_tgsigqueueinfo"@ {
        Some(240i64)
    } else if s == "perf_event_open"@ {
        Some(241i64)
    } else if s == "accept4"@ {
        Some(242i64)
    } else if s == "recvmmsg"@ {
        Some(243i64)
    } else if s == "wait4"@ {
        Some(260i64)
    } else if s == "prlimit64"@ {
        Some(261i64)
    } else if s == "fanotify_init"@ {
        Some(262i64)
    } else if s == "fanotify_mark"@ {
        Some(263i64)
    } else if s == "name_to_handle_at"@ {
        Some(264i64)
    } else if s == "open_by_handle_at"@ {
        Some(265i64)
    } else if s == "clock_adjtime"@ {
        Some(266i64)
    } else if s == "syncfs"@ {
        Some(267i64)
    } else if s == "setns"@ {
        Some(268i64)
    } else if s == "sendmmsg"@ {
        Some(269i64)
    } else if s == "process_vm_readv"@ {
        Some(270i64)
    } else if s == "process_vm_writev"@ {
        Some(271i64)
    } else if s == "kcmp"@ {
        Some(272i64)
    } else if s == "finit_module"@ {
        Some(273i64)
    } else if s == "sched_setattr"@ {
        Some(274i64)
    } else if s == "sched_getattr"@ {
        Some(275i64)
    } else if s == "renameat2"@ {
        Some(276i64)
    } else if s == "seccomp"@ {
        Some(277i64)
    } else if s == "getrandom"@ {
        Some(278i64)
    } else if s == "memfd_create"@ {
        Some(279i64)
    } else if s == "bpf"@ {
        Some(280i64)
    } else if s == "execveat"@ {
        Some(281i64)
    } else if s == "userfaultfd"@ {
        Some(282i64)
    } else if s == "membarrier"@ {
        Some(283i64)
    } else if s == "mlock2"@ {
        Some(284i64)
    } else if s == "copy_file_range"@ {
        Some(285i64)
    } else if s == "preadv2"@ {
        Some(286i64)
    } else if s == "pwritev2"@ {
        Some(287i64)
    } else if s == "pkey_mprotect"@ {
        Some(288i64)
    } else if s == "pkey_alloc"@ {
        Some(289i64)
    } else if s == "pkey_free"@ {
        Some(290i64)
    } else if s == "statx"@ {
        Some(291i64)
    } else if s == "io_pgetevents"@ {
        Some(292i64)
    } else if s == "rseq"@ {
        Some(293i64)
    } else if s == "kexec_file_load"@ {
        Some(294i64)
    } else if s == "pidfd_send_signal"@ {
        Some(424i64)
    } else {
        None
    }
}

/// The calls 240 to 424.
fn find_240_424(s: &str) -> (r: Option<i64>)
    ensures
        r == calls_240_424(s@),
{
    if str_eq(s, "rt_tgsigqueueinfo") {
        Some(240i64)
    } else if str_eq(s, "perf_event_open") {
        Some(241i64)
    } else if str_eq(s, "accept4") {
        Some(242i64)
    } else if str_eq(s, "recvmmsg") {
        Some(243i64)
    } else if str_eq(s, "wait4") {
        Some(260i64)
    } else if str_eq(s, "prlimit64") {
        Some(261i64)
    } else if str_eq(s, "fanotify_init") {
        Some(262i64)
    } else if str_eq(s, "fanotify_mark") {
        Some(263i64)
    } else if str_eq(s, "name_to_handle_at") {
        Some(264i64)
    } else if str_eq(s, "open_by_handle_at") {
        Some(265i64)
    } else if str_eq(s, "clock_adjtime") {
        Some(266i64)
    } else if str_eq(s, "syncfs") {
        Some(267i64)
    } else if str_eq(s, "setns") {
        Some(268i64)
    } else if str_eq(s, "sendmmsg") {
        Some(269i64)
    } else if str_eq(s, "process_vm_readv") {
        Some(270i64)
    } else if str_eq(s, "process_vm_writev") {
        Some(271i64)
    } else if str_eq(s, "kcmp") {
        Some(272i64)
    } else if str_eq(s, "finit_module") {
        Some(273i64)
    } else if str_eq(s, "sched_setattr") {
        Some(274i64)
    } else if str_eq(s, "sched_getattr") {
        Some(275i64)
    } else if str_eq(s, "renameat2") {
        Some(276i64)
    } else if str_eq(s, "seccomp") {
        Some(277i64)
    } else if str_eq(s, "getrandom") {
        Some(278i64)
    } else if str_eq(s, "memfd_create") {
        Some(279i64)
    } else if str_eq(s, "bpf") {
        Some(280i64)
    } else if str_eq(s, "execveat") {
        Some(281i64)
    } else if str_eq(s, "userfaultfd") {
        Some(282i64)
    } else if str_eq(s, "membarrier") {
        Some(283i64)
    } else if str_eq(s, "mlock2") {
        Some(284i64)
    } else if str_eq(s, "copy_file_range") {
        Some(285i64)
    } else if str_eq(s, "preadv2") {
        Some(286i64)
    } else if str_eq(s, "pwritev2") {
        Some(287i64)
    } else if str_eq(s, "pkey_mprotect") {
        Some(288i64)
    } else if str_eq(s, "pkey_alloc") {
        Some(289i64)
    } else if str_eq(s, "pkey_free") {
        Some(290i64)
    } else if str_eq(s, "statx") {
        Some(291i64)
    } else if str_eq(s, "io_pgetevents") {
        Some(292i64)
    } else if str_eq(s, "rseq") {
        Some(293i64)
    } else if str_eq(s, "kexec_file_load") {
        Some(294i64)
    } else if str_eq(s, "pidfd_send_signal") {
        Some(424i64)
    } else {
        None
    }
}

/// The calls 425 to 451.
pub open spec fn calls_425_451(s: Seq<char>) -> Option<i64> {
    if s == "io_uring_setup"@ {
        Some(425i64)
    } else if s == "io_uring_enter"@ {
        Some(426i64)
    } else if s == "io_uring_register"@ {
        Some(427i64)
    } else if s == "open_tree"@ {
        Some(428i64)
    } else if s == "move_mount"@ {
        Some(429i64)
    } else if s == "fsopen"@ {
        Some(430i64)
    } else if s == "fsconfig"@ {
        Some(431i64)
    } else if s == "fsmount"@ {
        Some(432i64)
    } else if s == "fspick"@ {
        Some(433i64)
    } else if s == "pidfd_open"@ {
        Some(434i64)
    } else if s == "clone3"@ {
        Some(435i64)
    } else if s == "close_range"@ {
        Some(436i64)
    } else if s == "openat2"@ {
        Some(437i64)
    } else if s == "pidfd_getfd"@ {
        Some(438i64)
    } else if s == "faccessat2"@ {
        Some(439i64)
    } else if s == "process_madvise"@ {
        Some(440i64)
    } else if s == "epoll_pwait2"@ {
        Some(441i64)
    } else if s == "mount_setattr"@ {
        Some(442i64)
    } else if s == "quotactl_fd"@ {
        Some(443i64)
    } else if s == "landlock_create_ruleset"@ {
        Some(444i64)
    } else if s == "landlock_add_rule"@ {
        Some(445i64)
    } else if s == "landlock_restrict_self"@ {
        Some(446i64)
    } else if s == "memfd_secret"@ {
        Some(447i64)
    } else if s == "process_mrelease"@ {
        Some(448i64)
    } else if s == "futex_waitv"@ {
        Some(449i64)
    } else if s == "set_mempolicy_home_node"@ {
        Some(450i64)
    } else if s == "cachestat"@ {
        Some(451i64)
    } else {
        None
    }
}

/// The calls 425 to 451.
fn find_425_451(s: &str) -> (r: Option<i64>)
    ensures
        r == calls_425_451(s@),
{
    if str_eq(s, "io_uring_setup") {
        Some(425i64)
    } else if str_eq(s, "io_uring_enter") {
        Some(426i64)
    } else if str_eq(s, "io_uring_register") {
        Some(427i64)
    } else if str_eq(s, "open_tree") {
        Some(428i64)
    } else if str_eq(s, "move_mount") {
        Some(429i64)
    } else if str_eq(s, "fsopen") {
        Some(430i64)
    } else if str_eq(s, "fsconfig") {
        Some(431i64)
    } else if str_eq(s, "fsmount") {
        Some(432i64)
    } else if str_eq(s, "fspick") {
        Some(433i64)
    } else if str_eq(s, "pidfd_open") {
        Some(434i64)
    } else if str_eq(s, "clone3") {
        Some(435i64)
    } else if str_eq(s, "close_range") {
        Some(436i64)
    } else if str_eq(s, "openat2") {
        Some(437i64)
    } else if str_eq(s, "pidfd_getfd") {
        Some(438i64)
    } else if str_eq(s, "faccessat2") {
        Some(439i64)
    } else if str_eq(s, "process_madvise") {
        Some(440i64)
    } else if str_eq(s, "epoll_pwait2") {
        Some(441i64)
    } else if str_eq(s, "mount_setattr") {
        Some(442i64)
    } else if str_eq(s, "quotactl_fd") {
        Some(443i64)
    } else if str_eq(s, "landlock_create_ruleset") {
        Some(444i64)
    } else if str_eq(s, "landlock_add_rule") {
        Some(445i64)
    } else if str_eq(s, "landlock_restrict_self") {
        Some(446i64)
    } else if str_eq(s, "memfd_secret") {
        Some(447i64)
    } else if str_eq(s, "process_mrelease") {
        Some(448i64)
    } else if str_eq(s, "futex_waitv") {
        Some(449i64)
    } else if str_eq(s, "set_mempolicy_home_node") {
        Some(450i64)
    } else if str_eq(s, "cachestat") {
        Some(451i64)
    } else {
        None
    }
}

/// The number of a system call on aarch64.
pub open spec fn number(s: Seq<char>) -> Option<i64> {
    if calls_0_39(s) is Some {
        calls_0_39(s)
    } else if calls_40_79(s) is Some {
        calls_40_79(s)
    } else if calls_80_119(s) is Some {
        calls_80_119(s)
    } else if calls_120_159(s) is Some {
        calls_120_159(s)
    } else if calls_160_199(s) is Some {
        calls_160_199(s)
    } else if calls_200_239(s) is Some {
        calls_200_239(s)
    } else if calls_240_424(s) is Some {
        calls_240_424(s)
    } else {
        calls_425_451(s)
    }
}

/// The number of a system call on aarch64.
pub fn syscall_nr_aarch64(name: &str) -> (r: Option<i64>)
    ensures
        r == number(name@),
{
    let r = find_0_39(name);
    if r.is_some() {
        return r;
    }
    let r = find_40_79(name);
    if r.is_some() {
        return r;
    }
    let r = find_80_119(name);
    if r.is_some() {
        return r;
    }
    let r = find_120_159(name);
    if r.is_some() {
        return r;
    }
    let r = find_160_199(name);
    if r.is_some() {
        return r;
    }
    let r = find_200_239(name);
    if r.is_some() {
        return r;
    }
    let r = find_240_424(name);
    if r.is_some() {
        return r;
    }
    find_425_451(name)
}

/// The names of the calls 0 to 39.
pub open spec fn names_0_39(n: i64) -> Option<Seq<char>> {
    match n {
        0 => Some("io_setup"@),
        1 => Some("io_destroy"@),
        2 => Some("io_submit"@),
        3 => Some("io_cancel"@),
        4 => Some("io_getevents"@),
        5 => Some("setxattr"@),
        6 => Some("lsetxattr"@),
        7 => Some("fsetxattr"@),
        8 => Some("getxattr"@),
        9 => Some("lgetxattr"@),
        10 => Some("fgetxattr"@),
        11 => Some("listxattr"@),
        12 => Some("llistxattr"@),
        13 => Some("flistxattr"@),
        14 => Some("removexattr"@),
        15 => Some("lremovexattr"@),
        16 => Some("fremovexattr"@),
        17 => Some("getcwd"@),
        18 => Some("lookup_dcookie"@),
        19 => Some("eventfd2"@),
        20 => Some("epoll_create1"@),
        21 => Some("epoll_ctl"@),
        22 => Some("epoll_pwait"@),
        23 => Some("dup"@),
        24 => Some("dup3"@),
        25 => Some("fcntl"@),
        26 => Some("inotify_init1"@),
        27 => Some("inotify_add_watch"@),
        28 => Some("inotify_rm_watch"@),
        29 => Some("ioctl"@),
        30 => Some("ioprio_set"@),
        31 => Some("ioprio_get"@),
        32 => Some("flock"@),
        33 => Some("mknodat"@),
        34 => Some("mkdirat"@),
        35 => Some("unlinkat"@),
        36 => Some("symlinkat"@),
        37 => Some("linkat"@),
        38 => Some("renameat"@),
        39 => Some("umount2"@),
        _ => None,
    }
}

proof fn lemma_names_0_39(s: Seq<char>, n: i64)
    ensures
        calls_0_39(s) matches Some(k) ==> names_0_39(k) == Some(s) && 0 <= k <= 39,
        names_0_39(n) matches Some(name) ==> calls_0_39(name) is Some,
{
}

/// The names of the calls 40 to 79.
pub open spec fn names_40_79(n: i64) -> Option<Seq<char>> {
    match n {
        40 => Some("mount"@),
        41 => Some("pivot_root"@),
        42 => Some("nfsservctl"@),
        43 => Some("statfs"@),
        44 => Some("fstatfs"@),
        45 => Some("truncate"@),
        46 => Some("ftruncate"@),
        47 => Some("fallocate"@),
        48 => Some("faccessat"@),
        49 => Some("chdir"@),
        50 => Some("fchdir"@),
        51 => Some("chroot"@),
        52 => Some("fchmod"@),
        53 => Some("fchmodat"@),
        54 => Some("fchownat"@),
        55 => Some("fchown"@),
        56 => Some("openat"@),
        57 => Some("close"@),
        58 => Some("vhangup"@),
        59 => Some("pipe2"@),
        60 => Some("quotactl"@),
        61 => Some("getdents64"@),
        62 => Some("lseek"@),
        63 => Some("read"@),
        64 => Some("write"@),
        65 => Some("readv"@),
        66 => Some("writev"@),
        67 => Some("pread64"@),
        68 => Some("pwrite64"@),
        69 => Some("preadv"@),
        70 => Some("pwritev"@),
        71 => Some("sendfile"@),
        72 => Some("pselect6"@),
        73 => Some("ppoll"@),
        74 => Some("signalfd4"@),
        75 => Some("vmsplice"@),
        76 => Some("splice"@),
        77 => Some("tee"@),
        78 => Some("readlinkat"@),
        79 => Some("newfstatat"@),
        _ => None,
    }
}

proof fn lemma_names_40_79(s: Seq<char>, n: i64)
    ensures
        calls_40_79(s) matches Some(k) ==> names_40_79(k) == Some(s) && 40 <= k <= 79,
        names_40_79(n) matches Some(name) ==> calls_40_79(name) is Some,
{
}

/// The names of the calls 80 to 119.
pub open spec fn names_80_119(n: i64) -> Option<Seq<char>> {
    match n {
        80 => Some("fstat"@),
        81 => Some("sync"@),
        82 => Some("fsync"@),
        83 => Some("fdatasync"@),
        84 => Some("sync_file_range"@),
        85 => Some("timerfd_create"@),
        86 => Some("timerfd_settime"@),
        87 => Some("timerfd_gettime"@),
        88 => Some("utimensat"@),
        89 => Some("acct"@),
        90 => Some("capget"@),
        91 => Some("capset"@),
        92 => Some("personality"@),
        93 => Some("exit"@),
        94 => Some("exit_group"@),
        95 => Some("waitid"@),
        96 => Some("set_tid_address"@),
        97 => Some("unshare"@),
        98 => Some("futex"@),
        99 => Some("set_robust_list"@),
        100 => Some("get_robust_list"@),
        101 => Some("nanosleep"@),
        102 => Some("getitimer"@),
        103 => Some("setitimer"@),
        104 => Some("kexec_load"@),
        105 => Some("init_module"@),
        106 => Some("delete_module"@),
        107 => Some("timer_create"@),
        108 => Some("timer_gettime"@),
        109 => Some("timer_getoverrun"@),
        110 => Some("timer_settime"@),
        111 => Some("timer_delete"@),
        112 => Some("clock_settime"@),
        113 => Some("clock_gettime"@),
        114 => Some("clock_getres"@),
        115 => Some("clock_nanosleep"@),
        116 => Some("syslog"@),
        117 => Some("ptrace"@),
        118 => Some("sched_setparam"@),
        119 => Some("sched_setscheduler"@),
        _ => None,
    }
}

proof fn lemma_names_80_119(s: Seq<char>, n: i64)
    ensures
        calls_80_119(s) matches Some(k) ==> names_80_119(k) == Some(s) && 80 <= k <= 119,
        names_80_119(n) matches Some(name) ==> calls_80_119(name) is Some,
{
}

/// The names of the calls 120 to 159.
pub open spec fn names_120_159(n: i64) -> Option<Seq<char>> {
    match n {
        120 => Some("sched_getscheduler"@),
        121 => Some("sched_getparam"@),
        122 => Some("sched_setaffinity"@),
        123 => Some("sched_getaffinity"@),
        124 => Some("sched_yield"@),
        125 => Some("sched_get_priority_max"@),
        126 => Some("sched_get_priority_min"@),
        127 => Some("sched_rr_get_interval"@),
        128 => Some("restart_syscall"@),
        129 => Some("kill"@),
        130 => Some("tkill"@),
        131 => Some("tgkill"@),
        132 => Some("sigaltstack"@),
        133 => Some("rt_sigsuspend"@),
        134 => Some("rt_sigaction"@),
        135 => Some("rt_sigprocmask"@),
        136 => Some("rt_sigpending"@),
        137 => Some("rt_sigtimedwait"@),
        138 => Some("rt_sigqueueinfo"@),
        139 => Some("rt_sigreturn"@),
        140 => Some("setpriority"@),
        141 => Some("getpriority"@),
        142 => Some("reboot"@),
        143 => Some("setregid"@),
        144 => Some("setgid"@),
        145 => Some("setreuid"@),
        146 => Some("setuid"@),
        147 => Some("setresuid"@),
        148 => Some("getresuid"@),
        149 => Some("setresgid"@),
        150 => Some("getresgid"@),
        151 => Some("setfsuid"@),
        152 => Some("setfsgid"@),
        153 => Some("times"@),
        154 => Some("setpgid"@),
        155 => Some("getpgid"@),
        156 => Some("getsid"@),
        157 => Some("setsid"@),
        158 => Some("getgroups"@),
        159 => Some("setgroups"@),
        _ => None,
    }
}

proof fn lemma_names_120_159(s: Seq<char>, n: i64)
    ensures
        calls_120_159(s) matches Some(k) ==> names_120_159(k) == Some(s) && 120 <= k <= 159,
        names_120_159(n) matches Some(name) ==> calls_120_159(name) is Some,
{
}

/// The names of the calls 160 to 199.
pub open spec fn names_160_199(n: i64) -> Option<Seq<char>> {
    match n {
        160 => Some("uname"@),
        161 => Some("sethostname"@),
        162 => Some("setdomainname"@),
        163 => Some("getrlimit"@),
        164 => Some("setrlimit"@),
        165 => Some("getrusage"@),
        166 => Some("umask"@),
        167 => Some("prctl"@),
        168 => Some("getcpu"@),
        169 => Some("gettimeofday"@),
        170 => Some("settimeofday"@),
        171 => Some("adjtimex"@),
        172 => Some("getpid"@),
        173 => Some("getppid"@),
        174 => Some("getuid"@),
        175 => Some("geteuid"@),
        176 => Some("getgid"@),
        177 => Some("getegid"@),
        178 => Some("gettid"@),
        179 => Some("sysinfo"@),
        180 => Some("mq_open"@),
        181 => Some("mq_unlink"@),
        182 => Some("mq_timedsend"@),
        183 => Some("mq_timedreceive"@),
        184 => Some("mq_notify"@),
        185 => Some("mq_getsetattr"@),
        186 => Some("msgget"@),
        187 => Some("msgctl"@),
        188 => Some("msgrcv"@),
        189 => Some("msgsnd"@),
        190 => Some("semget"@),
        191 => Some("semctl"@),
        192 => Some("semtimedop"@),
        193 => Some("semop"@),
        194 => Some("shmget"@),
        195 => Some("shmctl"@),
        196 => Some("shmat"@),
        197 => Some("shmdt"@),
        198 => Some("socket"@),
        199 => Some("socketpair"@),
        _ => None,
    }
}

proof fn lemma_names_160_199(s: Seq<char>, n: i64)
    ensures
        calls_160_199(s) matches Some(k) ==> names_160_199(k) == Some(s) && 160 <= k <= 199,
        names_160_199(n) matches Some(name) ==> calls_160_199(name) is Some,
{
}

/// The names of the calls 200 to 239.
pub open spec fn names_200_239(n: i64) -> Option<Seq<char>> {
    match n {
        200 => Some("bind"@),
        201 => Some("listen"@),
        202 => Some("accept"@),
        203 => Some("connect"@),
        204 => Some("getsockname"@),
        205 => Some("getpeername"@),
        206 => Some("sendto"@),
        207 => Some("recvfrom"@),
        208 => Some("setsockopt"@),
        209 => Some("getsockopt"@),
        210 => Some("shutdown"@),
        211 => Some("sendmsg"@),
        212 => Some("recvmsg"@),
        213 => Some("readahead"@),
        214 => Some("brk"@),
        215 => Some("munmap"@),
        216 => Some("mremap"@),
        217 => Some("add_key"@),
        218 => Some("request_key"@),
        219 => Some("keyctl"@),
        220 => Some("clone"@),
        221 => Some("execve"@),
        222 => Some("mmap"@),
        223 => Some("fadvise64"@),
        224 => Some("swapon"@),
        225 => Some("swapoff"@),
        226 => Some("mprotect"@),
        227 => Some("msync"@),
        228 => Some("mlock"@),
        229 => Some("munlock"@),
        230 => Some("mlockall"@),
        231 => Some("munlockall"@),
        232 => Some("mincore"@),
        233 => Some("madvise"@),
        234 => Some("remap_file_pages"@),
        235 => Some("mbind"@),
        236 => Some("get_mempolicy"@),
        237 => Some("set_mempolicy"@),
        238 => Some("migrate_pages"@),
        239 => Some("move_pages"@),
        _ => None,
    }
}

proof fn lemma_names_200_239(s: Seq<char>, n: i64)
    ensures
        calls_200_239(s) matches Some(k) ==> names_200_239(k) == Some(s) && 200 <= k <= 239,
        names_200_239(n) matches Some(name) ==> calls_200_239(name) is Some,
{
}

/// The names of the calls 240 to 424.
pub open spec fn names_240_424(n: i64) -> Option<Seq<char>> {
    match n {
        240 => Some("rt_tgsigqueueinfo"@),
        241 => Some("perf_event_open"@),
        242 => Some("accept4"@),
        243 => Some("recvmmsg"@),
        260 => Some("wait4"@),
        261 => Some("prlimit64"@),
        262 => Some("fanotify_init"@),
        263 => Some("fanotify_mark"@),
        264 => Some("name_to_handle_at"@),
        265 => Some("open_by_handle_at"@),
        266 => Some("clock_adjtime"@),
        267 => Some("syncfs"@),
        268 => Some("setns"@),
        269 => Some("sendmmsg"@),
        270 => Some("process_vm_readv"@),
        271 => Some("process_vm_writev"@),
        272 => Some("kcmp"@),
        273 => Some("finit_module"@),
        274 => Some("sched_setattr"@),
        275 => Some("sched_getattr"@),
        276 => Some("renameat2"@),
        277 => Some("seccomp"@),
        278 => Some("getrandom"@),
        279 => Some("memfd_create"@),
        280 => Some("bpf"@),
        281 => Some("execveat"@),
        282 => Some("userfaultfd"@),
        283 => Some("membarrier"@),
        284 => Some("mlock2"@),
        285 => Some("copy_file_range"@),
        286 => Some("preadv2"@),
        287 => Some("pwritev2"@),
        288 => Some("pkey_mprotect"@),
        289 => Some("pkey_alloc"@),
        290 => Some("pkey_free"@),
        291 => Some("statx"@),
        292 => Some("io_pgetevents"@),
        293 => Some("rseq"@),
        294 => Some("kexec_file_load"@),
        424 => Some("pidfd_send_signal"@),
        _ => None,
    }
}

proof fn lemma_names_240_424(s: Seq<char>, n: i64)
    ensures
        calls_240_424(s) matches Some(k) ==> names_240_424(k) == Some(s) && 240 <= k <= 424,
        names_240_424(n) matches Some(name) ==> calls_240_424(name) is Some,
{
}

/// The names of the calls 425 to 451.
pub open spec fn names_425_451(n: i64) -> Option<Seq<char>> {
    match n {
        425 => Some("io_uring_setup"@),
        426 => Some("io_uring_enter"@),
        427 => Some("io_uring_register"@),
        428 => Some("open_tree"@),
        429 => Some("move_mount"@),
        430 => Some("fsopen"@),
        431 => Some("fsconfig"@),
        432 => Some("fsmount"@),
        433 => Some("fspick"@),
        434 => Some("pidfd_open"@),
        435 => Some("clone3"@),
        436 => Some("close_range"@),
        437 => Some("openat2"@),
        438 => Some("pidfd_getfd"@),
        439 => Some("faccessat2"@),
        440 => Some("process_madvise"@),
        441 => Some("epoll_pwait2"@),
        442 => Some("mount_setattr"@),
        443 => Some("quotactl_fd"@),
        444 => Some("landlock_create_ruleset"@),
        445 => Some("landlock_add_rule"@),
        446 => Some("landlock_restrict_self"@),
        447 => Some("memfd_secret"@),
        448 => Some("process_mrelease"@),
        449 => Some("futex_waitv"@),
        450 => Some("set_mempolicy_home_node"@),
        451 => Some("cachestat"@),
        _ => None,
    }
}

proof fn lemma_names_425_451(s: Seq<char>, n: i64)
    ensures
        calls_425_451(s) matches Some(k) ==> names_425_451(k) == Some(s) && 425 <= k <= 451,
        names_425_451(n) matches Some(name) ==> calls_425_451(name) is Some,
{
}

/// The name of a call by its number.
pub open spec fn name_of(n: i64) -> Option<Seq<char>> {
    if n <= 39 {
        names_0_39(n)
    } else if n <= 79 {
        names_40_79(n)
    } else if n <= 119 {
        names_80_119(n)
    } else if n <= 159 {
        names_120_159(n)
    } else if n <= 199 {
        names_160_199(n)
    } else if n <= 239 {
        names_200_239(n)
    } else if n <= 424 {
        names_240_424(n)
    } else {
        names_425_451(n)
    }
}

/// A name stands for the call of which it is the name, so that no two names stand for one call; and
/// every call that has a name is found by it.
pub proof fn law_call_names(s: Seq<char>, n: i64)
    ensures
        number(s) matches Some(k) ==> name_of(k) == Some(s),
        name_of(n) matches Some(name) ==> number(name) is Some,
{
    lemma_names_0_39(s, n);
    lemma_names_40_79(s, n);
    lemma_names_80_119(s, n);
    lemma_names_120_159(s, n);
    lemma_names_160_199(s, n);
    lemma_names_200_239(s, n);
    lemma_names_240_424(s, n);
    lemma_names_425_451(s, n);
    match name_of(n) {
        Some(name) => {
            lemma_names_0_39(name, n);
            lemma_names_40_79(name, n);
            lemma_names_80_119(name, n);
            lemma_names_120_159(name, n);
            lemma_names_160_199(name, n);
            lemma_names_200_239(name, n);
            lemma_names_240_424(name, n);
            lemma_names_425_451(name, n);
        },
        None => {},
    }
}

} // verus!
