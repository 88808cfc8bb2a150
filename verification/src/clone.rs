//! The arguments of the `clone3` call that makes the container's first process.

use vstd::prelude::*;

use crate::signal::SIGCHLD;
use crate::text;
use crate::text::str_eq;

verus! {

/// Make the process in the cgroup whose directory is open as `cgroup`.
pub const CLONE_INTO_CGROUP: u64 = 0x2_0000_0000;

/// Hand back a descriptor for the process.
pub const CLONE_PIDFD: u64 = 0x1000;

pub const EACCES: i32 = 13;

pub const EBUSY: i32 = 16;

pub const ENODEV: i32 = 19;

pub const EINVAL: i32 = 22;

pub const EOPNOTSUPP: i32 = 95;

/// The number of the `clone3` call, the same on every machine.
pub const SYS_CLONE3: i64 = 435;

/// The kernel's `struct clone_args`.
#[derive(Debug, Clone, Copy, PartialEq, Eq, Structural)]
pub struct CloneArgs {
    pub flags: u64,
    pub pidfd: u64,
    pub child_tid: u64,
    pub parent_tid: u64,
    pub exit_signal: u64,
    pub stack: u64,
    pub stack_size: u64,
    pub tls: u64,
    pub set_tid: u64,
    pub set_tid_size: u64,
    pub cgroup: u64,
}

impl Default for CloneArgs {
    fn default() -> (a: CloneArgs)
        ensures
            a == no_args(),
    {
        CloneArgs {
            flags: 0,
            pidfd: 0,
            child_tid: 0,
            parent_tid: 0,
            exit_signal: 0,
            stack: 0,
            stack_size: 0,
            tls: 0,
            set_tid: 0,
            set_tid_size: 0,
            cgroup: 0,
        }
    }
}

/// Arguments that ask for nothing.
pub open spec fn no_args() -> CloneArgs {
    CloneArgs {
        flags: 0,
        pidfd: 0,
        child_tid: 0,
        parent_tid: 0,
        exit_signal: 0,
        stack: 0,
        stack_size: 0,
        tls: 0,
        set_tid: 0,
        set_tid_size: 0,
        cgroup: 0,
    }
}

/// The arguments for the namespaces of a container. A cgroup descriptor that is negative is none.
pub open spec fn clone_args(namespace_flags: u64, pidfd: u64, cgroup_fd: i32) -> CloneArgs {
    CloneArgs {
        flags: if cgroup_fd >= 0 {
            (namespace_flags | CLONE_PIDFD) | CLONE_INTO_CGROUP
        } else {
            namespace_flags | CLONE_PIDFD
        },
        pidfd,
        exit_signal: SIGCHLD as u64,
        cgroup: if cgroup_fd >= 0 {
            cgroup_fd as u64
        } else {
            0
        },
        ..no_args()
    }
}

/// The arguments for the namespaces of a container; `pidfd` is the address that receives the
/// descriptor.
pub fn build_clone_args(namespace_flags: u64, pidfd: u64, cgroup_fd: i32) -> (a: CloneArgs)
    ensures
        a == clone_args(namespace_flags, pidfd, cgroup_fd),
{
    let mut a = CloneArgs::default();
    a.flags = namespace_flags | CLONE_PIDFD;
    a.pidfd = pidfd;
    a.exit_signal = SIGCHLD as u64;
    if cgroup_fd >= 0 {
        a.flags = a.flags | CLONE_INTO_CGROUP;
        a.cgroup = cgroup_fd as u64;
    }
    a
}

/// Whether an error says that the kernel will not put the process into the cgroup right away.
pub open spec fn rejects_cgroup(errno: Option<i32>) -> bool {
    match errno {
        Some(e) => e == EINVAL || e == EOPNOTSUPP || e == EACCES || e == EBUSY || e == ENODEV,
        None => false,
    }
}

/// Whether to try again without the cgroup.
pub fn should_retry_without_clone_into_cgroup(errno: Option<i32>) -> (r: bool)
    ensures
        r == rejects_cgroup(errno),
{
    match errno {
        Some(e) => e == EINVAL || e == EOPNOTSUPP || e == EACCES || e == EBUSY || e == ENODEV,
        None => false,
    }
}

/// The settings that switch cgroup placement by `clone3` on.
pub open spec fn switched_on(v: Seq<char>) -> bool {
    v == "1"@ || v == "true"@ || v == "yes"@ || v == "on"@
}

/// Whether the setting `v` switches cgroup placement by `clone3` on; it is off by default.
pub fn clone_into_cgroup_enabled(v: &Option<String>) -> (r: bool)
    ensures
        r == (match *v {
            Some(t) => switched_on(t@),
            None => false,
        }),
{
    match v {
        Some(t) => str_eq(t.as_str(), "1") || str_eq(t.as_str(), "true") || str_eq(
            t.as_str(),
            "yes",
        ) || str_eq(t.as_str(), "on"),
        None => false,
    }
}

/// What comes after a `clone3` call.
#[derive(Debug, Clone, Copy, PartialEq, Eq, Structural)]
pub enum CloneNext {
    /// This is the new process.
    Child,
    /// This is the old process, and the new one is in the cgroup already or not.
    Parent { pid: i32, in_cgroup: bool },
    /// Call again without the cgroup.
    Retry,
    /// Give up with the error of the call.
    Fail,
}

/// What comes after a call that returned `rc`, with `errno` where it failed and `used_cgroup` where
/// it asked for the cgroup.
pub open spec fn clone_next(rc: i32, errno: Option<i32>, used_cgroup: bool) -> CloneNext {
    if rc == 0 {
        CloneNext::Child
    } else if rc > 0 {
        CloneNext::Parent { pid: rc, in_cgroup: used_cgroup }
    } else if used_cgroup && rejects_cgroup(errno) {
        CloneNext::Retry
    } else {
        CloneNext::Fail
    }
}

/// Decides what comes after a `clone3` call.
pub fn after_clone(rc: i32, errno: Option<i32>, used_cgroup: bool) -> (n: CloneNext)
    ensures
        n == clone_next(rc, errno, used_cgroup),
{
    if rc == 0 {
        CloneNext::Child
    } else if rc > 0 {
        CloneNext::Parent { pid: rc, in_cgroup: used_cgroup }
    } else if used_cgroup && should_retry_without_clone_into_cgroup(errno) {
        CloneNext::Retry
    } else {
        CloneNext::Fail
    }
}

/// A call is tried again at most once: the second one does not ask for the cgroup.
pub proof fn law_one_retry(rc: i32, errno: Option<i32>)
    ensures
        clone_next(rc, errno, false) != CloneNext::Retry,
{
}

/// How a process is made: with the namespaces that are asked for, with a descriptor for it, and in
/// its cgroup where there is a descriptor of that; its end is told by `SIGCHLD`, and nothing else
/// is set.
pub proof fn law_clone_args(namespace_flags: u64, pidfd: u64, cgroup_fd: i32)
    requires
        namespace_flags & 0x2_0000_1000 == 0,
    ensures
        ({
            let a = clone_args(namespace_flags, pidfd, cgroup_fd);
            &&& a.flags & 0x1000 != 0
            &&& a.flags & 0x2_0000_0000 != 0 <==> cgroup_fd >= 0
            &&& a.flags & !0x2_0000_1000u64 == namespace_flags
            &&& a.pidfd == pidfd
            &&& a.exit_signal == 17
            &&& cgroup_fd >= 0 ==> a.cgroup == cgroup_fd
            &&& cgroup_fd < 0 ==> a.cgroup == 0
            &&& a.child_tid == 0 && a.parent_tid == 0 && a.stack == 0 && a.stack_size == 0 && a.tls
                == 0 && a.set_tid == 0 && a.set_tid_size == 0
        }),
{
    let n = namespace_flags;
    assert((n | 0x1000u64) & 0x1000 != 0 && ((n | 0x1000u64) | 0x2_0000_0000u64) & 0x1000 != 0 && (
    n | 0x1000u64) & 0x2_0000_0000 == 0 && ((n | 0x1000u64) | 0x2_0000_0000u64) & 0x2_0000_0000 != 0
        && (n | 0x1000u64) & !0x2_0000_1000u64 == n && ((n | 0x1000u64) | 0x2_0000_0000u64)
        & !0x2_0000_1000u64 == n) by (bit_vector)
        requires
            n & 0x2_0000_1000 == 0,
    ;
}

/// What comes of making a process: the one that is made goes on as such, the other learns its pid;
/// where the cgroup is what is refused it is tried once without it, and otherwise it fails.
pub proof fn law_clone_outcomes(rc: i32, errno: Option<i32>, used_cgroup: bool)
    ensures
        rc == 0 ==> clone_next(rc, errno, used_cgroup) == CloneNext::Child,
        rc > 0 ==> clone_next(rc, errno, used_cgroup) == (CloneNext::Parent {
            pid: rc,
            in_cgroup: used_cgroup,
        }),
        rc < 0 ==> (clone_next(rc, errno, used_cgroup) == CloneNext::Retry <==> used_cgroup && (
        errno == Some(22i32) || errno == Some(95i32) || errno == Some(13i32) || errno == Some(
            16i32,
        ) || errno == Some(19i32))),
        rc < 0 ==> clone_next(rc, errno, used_cgroup) == CloneNext::Retry || clone_next(
            rc,
            errno,
            used_cgroup,
        ) == CloneNext::Fail,
{
}

/// The words that switch something on.
pub proof fn law_switched_on(v: Seq<char>)
    ensures
        switched_on(v) <==> v == "1"@ || v == "true"@ || v == "yes"@ || v == "on"@,
{
}

} // verus!
