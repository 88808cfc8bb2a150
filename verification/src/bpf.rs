//! Loading the device filter into the kernel and attaching it to the container's cgroup.

use vstd::prelude::*;
use vstd::string::*;

use crate::agent;
use crate::agent::lossy;
use crate::clone::EINVAL;
use crate::error::Error;
use crate::text::{cat2, owned};

verus! {

pub const BPF_PROG_LOAD: u32 = 5;

pub const BPF_PROG_ATTACH: u32 = 8;

/// The kind of program that filters device accesses.
pub const BPF_PROG_TYPE_CGROUP_DEVICE: u32 = 15;

/// The place it is attached to.
pub const BPF_CGROUP_DEVICE: u32 = 6;

/// Let the program stand beside those of the cgroups above.
pub const BPF_F_ALLOW_MULTI: u32 = 2;

/// The bytes of the kernel's report on a program it rejects.
pub const LOG_SIZE: u32 = 16384;

/// The arguments of the load that depend on the program.
#[derive(Debug, Clone, Copy, PartialEq, Eq, Structural)]
pub struct BpfLoad {
    pub prog_type: u32,
    pub insn_cnt: u32,
    pub log_level: u32,
    pub log_size: u32,
}

/// The arguments of the attachment.
#[derive(Debug, Clone, Copy, PartialEq, Eq, Structural)]
pub struct BpfAttach {
    pub target_fd: u32,
    pub attach_bpf_fd: u32,
    pub attach_type: u32,
    pub attach_flags: u32,
}

/// The arguments to load a program of `len` bytes; its instructions have eight bytes each.
pub fn load_request(len: usize) -> (r: Result<BpfLoad, Error>)
    ensures
        match r {
            Ok(l) => len % 8 == 0 && l == (BpfLoad {
                prog_type: BPF_PROG_TYPE_CGROUP_DEVICE,
                insn_cnt: (len / 8) as u32,
                log_level: 0,
                log_size: 0,
            }),
            Err(e) => len % 8 != 0 && e@
                == "device cgroup BPF program length not 8-byte aligned"@,
        },
{
    if len % 8 != 0 {
        return Err(Error::new(owned("device cgroup BPF program length not 8-byte aligned")));
    }
    Ok(
        BpfLoad {
            prog_type: BPF_PROG_TYPE_CGROUP_DEVICE,
            insn_cnt: (len / 8) as u32,
            log_level: 0,
            log_size: 0,
        },
    )
}

/// The same load once more, with a report.
pub fn with_report(l: BpfLoad) -> (r: BpfLoad)
    ensures
        r == (BpfLoad { log_level: 1, log_size: LOG_SIZE, ..l }),
{
    BpfLoad { prog_type: l.prog_type, insn_cnt: l.insn_cnt, log_level: 1, log_size: LOG_SIZE }
}

/// What comes after an attempt to load the program.
#[derive(Debug, Clone, Copy, PartialEq, Eq, Structural)]
pub enum LoadNext {
    /// It is there, under this descriptor.
    Loaded(i64),
    /// The kernel rejects it: load again for the report, and fail with that.
    Explain,
    /// Lift the limit on locked memory and load once more.
    Retry,
    /// Fail with the error of the call.
    Fail,
}

/// What comes after an attempt that returned `rc`, with `errno` where it failed; `again` for the
/// second one.
pub open spec fn load_next(rc: i64, errno: i32, again: bool) -> LoadNext {
    if rc >= 0 {
        LoadNext::Loaded(rc)
    } else if again {
        LoadNext::Fail
    } else if errno == EINVAL {
        LoadNext::Explain
    } else {
        LoadNext::Retry
    }
}

/// Decides what comes after an attempt to load the program.
pub fn after_load(rc: i64, errno: i32, again: bool) -> (n: LoadNext)
    ensures
        n == load_next(rc, errno, again),
{
    if rc >= 0 {
        LoadNext::Loaded(rc)
    } else if again {
        LoadNext::Fail
    } else if errno == EINVAL {
        LoadNext::Explain
    } else {
        LoadNext::Retry
    }
}

/// The load is tried at most twice.
pub proof fn law_one_more_load(rc: i64, errno: i32)
    ensures
        load_next(rc, errno, true) != LoadNext::Retry,
        load_next(rc, errno, true) != LoadNext::Explain,
{
}

/// What stands before the first zero, or everything where there is none.
pub open spec fn up_to_zero(log: Seq<u8>) -> Seq<u8> {
    match log.index_of_first(0u8) {
        Some(k) => log.take(k),
        None => log,
    }
}

/// The error for a program that the kernel rejects, with its report.
pub fn rejected(log: &[u8]) -> (e: Error)
    ensures
        e@ == "BPF verifier rejected device program (EINVAL):\n"@ + agent::lossy_text(
            up_to_zero(log@),
        ),
{
    let mut k: usize = 0;
    proof {
        log@.index_of_first_ensures(0u8);
    }
    while k < log.len() && log[k] != 0
        invariant
            k <= log@.len(),
            forall|j: int| 0 <= j < k ==> log@[j] != 0,
        decreases log@.len() - k,
    {
        k += 1;
    }
    let head = vstd::slice::slice_subrange(log, 0, k);
    proof {
        log@.index_of_first_ensures(0u8);
        if k < log@.len() {
            assert(log@.contains(0u8));
        } else {
            assert(!log@.contains(0u8));
        }
        assert(head@ =~= up_to_zero(log@));
    }
    let report = lossy(head);
    Error::new(cat2("BPF verifier rejected device program (EINVAL):\n", report.as_str()))
}

/// The arguments to attach a loaded program to an open cgroup.
pub fn attach_request(cgroup_fd: i32, prog_fd: i32) -> (a: BpfAttach)
    ensures
        a == (BpfAttach {
            target_fd: cgroup_fd as u32,
            attach_bpf_fd: prog_fd as u32,
            attach_type: BPF_CGROUP_DEVICE,
            attach_flags: BPF_F_ALLOW_MULTI,
        }),
{
    BpfAttach {
        target_fd: cgroup_fd as u32,
        attach_bpf_fd: prog_fd as u32,
        attach_type: BPF_CGROUP_DEVICE,
        attach_flags: BPF_F_ALLOW_MULTI,
    }
}

/// The error for an attachment that failed.
pub fn not_attached(cgroup_dir: &str, why: &str) -> (e: Error)
    ensures
        e@ == "BPF_PROG_ATTACH (cgroup="@ + cgroup_dir@ + "): "@ + why@,
{
    let mut s = owned("BPF_PROG_ATTACH (cgroup=");
    s.append(cgroup_dir);
    s.append("): ");
    s.append(why);
    Error::new(s)
}

/// One thing done to put the device filter in force.
#[derive(Debug, Clone, Copy, PartialEq, Eq, Structural)]
pub enum BpfOp {
    Load,
    LiftMemlock,
    LoadAgain,
    LoadForReport,
    OpenCgroup,
    Attach,
}

/// How the filter was put in force, or why not.
pub enum BpfNext {
    /// Do this next.
    Do(BpfOp),
    /// The filter is in force.
    Done,
    /// Fail with the error of the call.
    CallError,
    /// Fail with the report of the kernel.
    Report,
    /// Fail with the error of the attachment.
    AttachError,
}

/// What follows a step that returned `rc`, with `errno` where it failed.
pub open spec fn bpf_next(op: BpfOp, rc: i64, errno: i32) -> BpfNext {
    match op {
        BpfOp::Load => match load_next(rc, errno, false) {
            LoadNext::Loaded(_) => BpfNext::Do(BpfOp::OpenCgroup),
            LoadNext::Explain => BpfNext::Do(BpfOp::LoadForReport),
            LoadNext::Retry => BpfNext::Do(BpfOp::LiftMemlock),
            LoadNext::Fail => BpfNext::CallError,
        },
        BpfOp::LiftMemlock => BpfNext::Do(BpfOp::LoadAgain),
        BpfOp::LoadAgain => if rc >= 0 {
            BpfNext::Do(BpfOp::OpenCgroup)
        } else {
            BpfNext::CallError
        },
        BpfOp::LoadForReport => BpfNext::Report,
        BpfOp::OpenCgroup => if rc >= 0 {
            BpfNext::Do(BpfOp::Attach)
        } else {
            BpfNext::CallError
        },
        BpfOp::Attach => if rc >= 0 {
            BpfNext::Done
        } else {
            BpfNext::AttachError
        },
    }
}

/// Decides what follows a step towards the device filter. The container is not made where the filter
/// is not in force.
pub fn attach_device_cgroup_bpf(op: BpfOp, rc: i64, errno: i32) -> (n: BpfNext)
    ensures
        n == bpf_next(op, rc, errno),
{
    match op {
        BpfOp::Load => match after_load(rc, errno, false) {
            LoadNext::Loaded(_) => BpfNext::Do(BpfOp::OpenCgroup),
            LoadNext::Explain => BpfNext::Do(BpfOp::LoadForReport),
            LoadNext::Retry => BpfNext::Do(BpfOp::LiftMemlock),
            LoadNext::Fail => BpfNext::CallError,
        },
        BpfOp::LiftMemlock => BpfNext::Do(BpfOp::LoadAgain),
        BpfOp::LoadAgain => match after_load(rc, errno, true) {
            LoadNext::Loaded(_) => BpfNext::Do(BpfOp::OpenCgroup),
            _ => BpfNext::CallError,
        },
        BpfOp::LoadForReport => BpfNext::Report,
        BpfOp::OpenCgroup => if rc >= 0 {
            BpfNext::Do(BpfOp::Attach)
        } else {
            BpfNext::CallError
        },
        BpfOp::Attach => if rc >= 0 {
            BpfNext::Done
        } else {
            BpfNext::AttachError
        },
    }
}

/// How many steps are left at most.
pub open spec fn bpf_left(op: BpfOp) -> nat {
    match op {
        BpfOp::Load => 4,
        BpfOp::LiftMemlock => 3,
        BpfOp::LoadAgain => 2,
        BpfOp::LoadForReport => 0,
        BpfOp::OpenCgroup => 1,
        BpfOp::Attach => 0,
    }
}

/// Whatever the calls return, the steps come to an end; and the filter is reported in force only
/// after an attachment that went well.
pub proof fn law_bpf_ends(op: BpfOp, rc: i64, errno: i32)
    ensures
        bpf_next(op, rc, errno) matches BpfNext::Do(next) ==> bpf_left(next) < bpf_left(op),
        bpf_next(op, rc, errno) is Done ==> op == BpfOp::Attach && rc >= 0,
{
}

/// How a program gets into a cgroup: it is loaded, the cgroup is opened, and the program attached. A
/// load that is refused as wrong is repeated for the kernel's report only; one that fails otherwise
/// is repeated once, after the limit on locked memory was lifted.
pub proof fn law_bpf_steps(rc: i64, errno: i32)
    ensures
        rc >= 0 ==> bpf_next(BpfOp::Load, rc, errno) == BpfNext::Do(BpfOp::OpenCgroup),
        rc < 0 && errno == 22 ==> bpf_next(BpfOp::Load, rc, errno) == BpfNext::Do(
            BpfOp::LoadForReport,
        ),
        rc < 0 && errno != 22 ==> bpf_next(BpfOp::Load, rc, errno) == BpfNext::Do(
            BpfOp::LiftMemlock,
        ),
        bpf_next(BpfOp::LiftMemlock, rc, errno) == BpfNext::Do(BpfOp::LoadAgain),
        rc >= 0 ==> bpf_next(BpfOp::LoadAgain, rc, errno) == BpfNext::Do(BpfOp::OpenCgroup),
        rc < 0 ==> bpf_next(BpfOp::LoadAgain, rc, errno) is CallError,
        bpf_next(BpfOp::LoadForReport, rc, errno) is Report,
        rc >= 0 ==> bpf_next(BpfOp::OpenCgroup, rc, errno) == BpfNext::Do(BpfOp::Attach),
        rc < 0 ==> bpf_next(BpfOp::OpenCgroup, rc, errno) is CallError,
        rc >= 0 ==> bpf_next(BpfOp::Attach, rc, errno) is Done,
        rc < 0 ==> bpf_next(BpfOp::Attach, rc, errno) is AttachError,
{
}

/// What a load comes to: a descriptor where there is one; otherwise a second load at most.
pub proof fn law_load_outcomes(rc: i64, errno: i32, again: bool)
    ensures
        rc >= 0 ==> load_next(rc, errno, again) == LoadNext::Loaded(rc),
        rc < 0 && again ==> load_next(rc, errno, again) == LoadNext::Fail,
        rc < 0 && !again && errno == 22 ==> load_next(rc, errno, again) == LoadNext::Explain,
        rc < 0 && !again && errno != 22 ==> load_next(rc, errno, again) == LoadNext::Retry,
{
}

/// The report of the kernel is what is before the first zero byte.
pub proof fn law_log_ends_at_zero(log: Seq<u8>)
    ensures
        up_to_zero(log).is_prefix_of(log),
        !up_to_zero(log).contains(0),
        up_to_zero(log).len() < log.len() ==> log[up_to_zero(log).len() as int] == 0,
{
    log.index_of_first_ensures(0u8);
    match log.index_of_first(0u8) {
        Some(k) => {
            let t = log.take(k);
            assert forall|i: int| 0 <= i < t.len() implies t[i] != 0 by {
                assert(t[i] == log[i]);
            }
        },
        None => {
            assert(log.is_prefix_of(log));
        },
    }
}

} // verus!
