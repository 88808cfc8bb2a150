//! The calls behind the steps of the container's first process, and what their results mean.

use vstd::prelude::*;
use vstd::string::*;
use vstd::utf8::*;

use crate::child;
use crate::child::{Cause, ChildOp};
use crate::plan;
use crate::plan::{
    CapBitmasks, CompiledPlan, MS_BIND, MS_PRIVATE, MS_RDONLY, MS_REC,
};
use crate::signal;
use crate::signal::ending_of;
use crate::spec::NamespaceKind;
use crate::text;
use crate::text::{clone_opt, contains_char, dec_u64, owned, str_eq};

verus! {

pub const EINTR: i32 = 4;

pub const EAGAIN: i32 = 11;

/// Change the flags of a mount that is there.
pub const MS_REMOUNT: u64 = 32;

/// The arguments of a `mount` call.
pub struct MountCall {
    pub source: Option<String>,
    pub target: String,
    pub fstype: Option<String>,
    pub flags: u64,
    pub data: Option<String>,
}

/// What a `mount` call says.
pub struct MountCallView {
    pub source: Option<Seq<char>>,
    pub target: Seq<char>,
    pub fstype: Option<Seq<char>>,
    pub flags: u64,
    pub data: Option<Seq<char>>,
}

impl View for MountCall {
    type V = MountCallView;

    open spec fn view(&self) -> MountCallView {
        MountCallView {
            source: text::opt_text(self.source),
            target: self.target@,
            fstype: text::opt_text(self.fstype),
            flags: self.flags,
            data: text::opt_text(self.data),
        }
    }
}

/// A call with a target and flags alone.
pub open spec fn remount(target: Seq<char>, flags: u64) -> MountCallView {
    MountCallView { source: None, target, fstype: None, flags, data: None }
}

/// A call that binds `source` at `target`.
pub open spec fn binding(source: Seq<char>, target: Seq<char>, flags: u64) -> MountCallView {
    MountCallView { source: Some(source), target, fstype: None, flags, data: None }
}

/// The call of a mount of the plan: no source where it is empty, no type where it is empty or
/// `none`.
pub open spec fn plan_mount(m: plan::MountOpView) -> MountCallView {
    MountCallView {
        source: if m.source.len() == 0 {
            None
        } else {
            Some(m.source)
        },
        target: m.target,
        fstype: if m.fstype.len() == 0 || m.fstype == "none"@ {
            None
        } else {
            Some(m.fstype)
        },
        flags: m.flags,
        data: m.data,
    }
}

/// The `mount` call of a step, if it makes one.
pub open spec fn call_of(p: CompiledPlan, rootfs: Seq<char>, op: ChildOp) -> Option<MountCallView> {
    match op {
        ChildOp::MakePrivate => Some(remount("/"@, MS_REC | MS_PRIVATE)),
        ChildOp::BindRoot => Some(binding(rootfs, rootfs, MS_BIND | MS_REC)),
        ChildOp::Mount(i) => if i < p.mounts@.len() {
            Some(plan_mount(p.mounts@[i as int]@))
        } else {
            None
        },
        ChildOp::SetPropagation => Some(remount("/"@, p.rootfs_propagation)),
        ChildOp::BindDevice(i) => if i < p.default_devices@.len() {
            let path = p.default_devices@[i as int].path@;
            Some(binding(path, path, MS_BIND))
        } else {
            None
        },
        ChildOp::MaskFile(i) => if i < p.masked_paths@.len() {
            Some(binding("/dev/null"@, p.masked_paths@[i as int]@, MS_BIND))
        } else {
            None
        },
        ChildOp::MaskDir(i) => if i < p.masked_paths@.len() {
            Some(
                MountCallView {
                    source: Some("tmpfs"@),
                    target: p.masked_paths@[i as int]@,
                    fstype: Some("tmpfs"@),
                    flags: MS_RDONLY,
                    data: None,
                },
            )
        } else {
            None
        },
        ChildOp::BindReadonly(i) => if i < p.readonly_paths@.len() {
            let path = p.readonly_paths@[i as int]@;
            Some(binding(path, path, MS_BIND | MS_REC))
        } else {
            None
        },
        ChildOp::RemountReadonly(i) => if i < p.readonly_paths@.len() {
            Some(
                remount(
                    p.readonly_paths@[i as int]@,
                    ((MS_BIND | MS_REC) | MS_REMOUNT) | MS_RDONLY,
                ),
            )
        } else {
            None
        },
        ChildOp::RootReadonly => Some(remount("/"@, (MS_BIND | MS_REMOUNT) | MS_RDONLY)),
        _ => None,
    }
}

/// A call with a target and flags alone.
fn remount_call(target: &str, flags: u64) -> (c: MountCall)
    ensures
        c@ == remount(target@, flags),
{
    MountCall { source: None, target: owned(target), fstype: None, flags, data: None }
}

/// A call that binds `source` at `target`.
fn bind_call(source: &str, target: &str, flags: u64) -> (c: MountCall)
    ensures
        c@ == binding(source@, target@, flags),
{
    MountCall {
        source: Some(owned(source)),
        target: owned(target),
        fstype: None,
        flags,
        data: None,
    }
}

/// The call of a mount of the plan.
fn plan_mount_call(m: &plan::MountOp) -> (c: MountCall)
    ensures
        c@ == plan_mount(m@),
{
    MountCall {
        source: if text::is_empty(m.source.as_str()) {
            None
        } else {
            Some(m.source.clone())
        },
        target: m.target.clone(),
        fstype: if text::is_empty(m.fstype.as_str()) || str_eq(m.fstype.as_str(), "none") {
            None
        } else {
            Some(m.fstype.clone())
        },
        flags: m.flags,
        data: clone_opt(&m.data),
    }
}

/// The `mount` call of a step, if it makes one.
pub fn mount_call(p: &CompiledPlan, rootfs: &str, op: ChildOp) -> (c: Option<MountCall>)
    ensures
        match c {
            Some(m) => call_of(*p, rootfs@, op) == Some(m@),
            None => call_of(*p, rootfs@, op) is None,
        },
{
    match op {
        ChildOp::MakePrivate => Some(remount_call("/", MS_REC | MS_PRIVATE)),
        ChildOp::BindRoot => Some(bind_call(rootfs, rootfs, MS_BIND | MS_REC)),
        ChildOp::Mount(i) => if i < p.mounts.len() {
            Some(plan_mount_call(&p.mounts[i]))
        } else {
            None
        },
        ChildOp::SetPropagation => Some(remount_call("/", p.rootfs_propagation)),
        ChildOp::BindDevice(i) => if i < p.default_devices.len() {
            let path = p.default_devices[i].path.as_str();
            Some(bind_call(path, path, MS_BIND))
        } else {
            None
        },
        ChildOp::MaskFile(i) => if i < p.masked_paths.len() {
            Some(bind_call("/dev/null", p.masked_paths[i].as_str(), MS_BIND))
        } else {
            None
        },
        ChildOp::MaskDir(i) => if i < p.masked_paths.len() {
            Some(
                MountCall {
                    source: Some(owned("tmpfs")),
                    target: p.masked_paths[i].clone(),
                    fstype: Some(owned("tmpfs")),
                    flags: MS_RDONLY,
                    data: None,
                },
            )
        } else {
            None
        },
        ChildOp::BindReadonly(i) => if i < p.readonly_paths.len() {
            let path = p.readonly_paths[i].as_str();
            Some(bind_call(path, path, MS_BIND | MS_REC))
        } else {
            None
        },
        ChildOp::RemountReadonly(i) => if i < p.readonly_paths.len() {
            Some(
                remount_call(
                    p.readonly_paths[i].as_str(),
                    ((MS_BIND | MS_REC) | MS_REMOUNT) | MS_RDONLY,
                ),
            )
        } else {
            None
        },
        ChildOp::RootReadonly => Some(remount_call("/", (MS_BIND | MS_REMOUNT) | MS_RDONLY)),
        _ => None,
    }
}

/// Whether what the kernel says of an open namespace (`actual`, negative where it says nothing) is
/// what was declared.
pub fn namespace_matches(kind: NamespaceKind, actual: i64) -> (r: bool)
    ensures
        r == (actual >= 0 && actual == plan::ns_flag(kind)),
{
    actual >= 0 && actual as u64 == plan::clone_flag(kind)
}

/// What to do after a call that waits.
#[derive(Debug, Clone, Copy, PartialEq, Eq, Structural)]
pub enum Await {
    /// It is over.
    Go,
    /// Call again.
    Again,
    /// It failed.
    Fail(Cause),
}

/// The read that waits for the id maps returned `n`, with `errno` where that is negative.
pub open spec fn sync_verdict(n: i64, errno: i32) -> Await {
    if n == 1 {
        Await::Go
    } else if n == 0 {
        Await::Fail(Cause::PipeClosed)
    } else if errno == EINTR {
        Await::Again
    } else {
        Await::Fail(Cause::Call)
    }
}

/// What to do after the read that waits for the id maps.
pub fn after_sync_read(n: i64, errno: i32) -> (a: Await)
    ensures
        a == sync_verdict(n, errno),
{
    if n == 1 {
        Await::Go
    } else if n == 0 {
        Await::Fail(Cause::PipeClosed)
    } else if errno == EINTR {
        Await::Again
    } else {
        Await::Fail(Cause::Call)
    }
}

/// The wait on the fifo returned `rc`.
pub open spec fn start_poll_verdict(rc: i32, errno: i32) -> Await {
    if rc >= 0 {
        Await::Go
    } else if errno == EINTR {
        Await::Again
    } else {
        Await::Fail(Cause::Poll)
    }
}

/// What to do after the wait on the fifo.
pub fn after_start_poll(rc: i32, errno: i32) -> (a: Await)
    ensures
        a == start_poll_verdict(rc, errno),
{
    if rc >= 0 {
        Await::Go
    } else if errno == EINTR {
        Await::Again
    } else {
        Await::Fail(Cause::Poll)
    }
}

/// The read of the fifo returned `n`. A writer that closed it without a byte counts as a start.
pub open spec fn start_read_verdict(n: i64, errno: i32) -> Await {
    if n >= 0 {
        Await::Go
    } else if errno == EINTR || errno == EAGAIN {
        Await::Again
    } else {
        Await::Fail(Cause::Call)
    }
}

/// What to do after the read of the fifo.
pub fn after_start_read(n: i64, errno: i32) -> (a: Await)
    ensures
        a == start_read_verdict(n, errno),
{
    if n >= 0 {
        Await::Go
    } else if errno == EINTR || errno == EAGAIN {
        Await::Again
    } else {
        Await::Fail(Cause::Call)
    }
}

/// The wait on a hook with a timeout returned `rc`; zero is the end of the time.
pub open spec fn hook_poll_verdict(rc: i32, errno: i32) -> Await {
    if rc > 0 {
        Await::Go
    } else if rc == 0 {
        Await::Fail(Cause::HookTimeout)
    } else if errno == EINTR {
        Await::Again
    } else {
        Await::Fail(Cause::HookPoll)
    }
}

/// What to do after the wait on a hook with a timeout.
pub fn after_hook_poll(rc: i32, errno: i32) -> (a: Await)
    ensures
        a == hook_poll_verdict(rc, errno),
{
    if rc > 0 {
        Await::Go
    } else if rc == 0 {
        Await::Fail(Cause::HookTimeout)
    } else if errno == EINTR {
        Await::Again
    } else {
        Await::Fail(Cause::HookPoll)
    }
}

/// The wait for the end of a hook returned `rc` with the status `status`. A hook went well only
/// where it exited with zero.
pub open spec fn hook_wait_verdict(rc: i32, errno: i32, status: i32) -> Await {
    if rc < 0 {
        if errno == EINTR {
            Await::Again
        } else {
            Await::Fail(Cause::HookWait)
        }
    } else if signal::exited(status) && signal::exit_status(status) != 0 {
        Await::Fail(Cause::HookExit)
    } else if signal::signaled(status) {
        Await::Fail(Cause::HookSignal)
    } else {
        Await::Go
    }
}

/// What to do after the wait for the end of a hook.
pub fn after_hook_wait(rc: i32, errno: i32, status: i32) -> (a: Await)
    ensures
        a == hook_wait_verdict(rc, errno, status),
{
    if rc < 0 {
        if errno == EINTR {
            return Await::Again;
        }
        return Await::Fail(Cause::HookWait);
    }
    proof {
        signal::law_one_ending(status);
    }
    let e = ending_of(status);
    match e.exit_code {
        Some(c) => if c != 0 {
            return Await::Fail(Cause::HookExit);
        },
        None => {},
    }
    match e.signal {
        Some(_) => Await::Fail(Cause::HookSignal),
        None => Await::Go,
    }
}

/// One half of the three capability sets, as the `capset` call takes them.
#[derive(Debug, Clone, Copy, PartialEq, Eq, Structural)]
pub struct CapWords {
    pub effective: u32,
    pub permitted: u32,
    pub inheritable: u32,
}

/// The low half of a set.
pub open spec fn low(mask: u64) -> u32 {
    (mask & 0xffff_ffff) as u32
}

/// The high half of a set.
pub open spec fn high(mask: u64) -> u32 {
    (mask >> 32) as u32
}

/// The capability sets to ask for, low half first.
pub fn cap_words(caps: &CapBitmasks) -> (w: (CapWords, CapWords))
    ensures
        w.0 == (CapWords {
            effective: low(caps.effective),
            permitted: low(caps.permitted),
            inheritable: low(caps.inheritable),
        }),
        w.1 == (CapWords {
            effective: high(caps.effective),
            permitted: high(caps.permitted),
            inheritable: high(caps.inheritable),
        }),
{
    (
        CapWords {
            effective: (caps.effective & 0xffff_ffff) as u32,
            permitted: (caps.permitted & 0xffff_ffff) as u32,
            inheritable: (caps.inheritable & 0xffff_ffff) as u32,
        },
        CapWords {
            effective: (caps.effective >> 32) as u32,
            permitted: (caps.permitted >> 32) as u32,
            inheritable: (caps.inheritable >> 32) as u32,
        },
    )
}

/// The capability sets to ask for after the change of user, where `permitted` survived it: what
/// survived stays permitted, and of that what was asked for becomes effective again.
pub fn restored_words(caps: &CapBitmasks, permitted: (u32, u32)) -> (w: (CapWords, CapWords))
    ensures
        w.0 == (CapWords {
            effective: permitted.0 & low(caps.effective),
            permitted: permitted.0,
            inheritable: low(caps.inheritable),
        }),
        w.1 == (CapWords {
            effective: permitted.1 & high(caps.effective),
            permitted: permitted.1,
            inheritable: high(caps.inheritable),
        }),
{
    let asked = cap_words(caps);
    (
        CapWords {
            effective: permitted.0 & asked.0.effective,
            permitted: permitted.0,
            inheritable: asked.0.inheritable,
        },
        CapWords {
            effective: permitted.1 & asked.1.effective,
            permitted: permitted.1,
            inheritable: asked.1.inheritable,
        },
    )
}

/// Whether the set holds the capability.
pub open spec fn holds(mask: u64, cap: u32) -> bool {
    mask & (1u64 << cap) != 0
}

/// The capabilities below `n` that the set holds, or those that it does not hold, in rising order.
pub open spec fn listed(mask: u64, held: bool, n: nat) -> Seq<u32>
    decreases n,
{
    if n == 0 {
        Seq::empty()
    } else {
        let cap = (n - 1) as u32;
        if holds(mask, cap) == held {
            listed(mask, held, (n - 1) as nat).push(cap)
        } else {
            listed(mask, held, (n - 1) as nat)
        }
    }
}

/// Lists the capabilities that the set holds, or those that it does not hold.
fn list_caps(mask: u64, held: bool) -> (v: Vec<u32>)
    ensures
        v@ == listed(mask, held, 64),
{
    let mut v: Vec<u32> = Vec::new();
    let mut cap: u32 = 0;
    while cap < 64
        invariant
            cap <= 64,
            v@ == listed(mask, held, cap as nat),
        decreases 64 - cap,
    {
        if (mask & (1u64 << cap) != 0) == held {
            v.push(cap);
        }
        cap += 1;
    }
    v
}

/// The capabilities to drop from the bounding set: those that it is not to hold.
pub fn dropped_caps(bounding: u64) -> (v: Vec<u32>)
    ensures
        v@ == listed(bounding, false, 64),
{
    list_caps(bounding, false)
}

/// The ambient capabilities to raise.
pub fn raised_caps(ambient: u64) -> (v: Vec<u32>)
    ensures
        v@ == listed(ambient, true, 64),
{
    list_caps(ambient, true)
}

/// What a list of capabilities holds.
proof fn lemma_listed(mask: u64, held: bool, n: nat, cap: u32)
    requires
        n <= 64,
    ensures
        listed(mask, held, n).contains(cap) <==> (cap < n && holds(mask, cap) == held),
    decreases n,
{
    if n > 0 {
        lemma_listed(mask, held, (n - 1) as nat, cap);
        let before = listed(mask, held, (n - 1) as nat);
        let last = (n - 1) as u32;
        if holds(mask, last) == held {
            let now = before.push(last);
            assert(now[now.len() - 1] == last);
            if before.contains(cap) {
                let i = choose|i: int| 0 <= i < before.len() && before[i] == cap;
                assert(now[i] == cap);
            }
            if now.contains(cap) && cap != last {
                let i = choose|i: int| 0 <= i < now.len() && now[i] == cap;
                assert(before[i] == cap);
            }
        }
    }
}

/// Every capability that the bounding set is not to hold is dropped, and no other.
pub proof fn law_bounding_is_exact(bounding: u64, cap: u32)
    requires
        cap < 64,
    ensures
        listed(bounding, false, 64).contains(cap) <==> !holds(bounding, cap),
{
    lemma_listed(bounding, false, 64, cap);
}

/// The longest request for an AppArmor profile, in bytes.
pub const APPARMOR_REQUEST_MAX: usize = 256;

/// What is written to ask for an AppArmor profile at the next `execve`.
pub open spec fn apparmor_text(profile: Seq<char>) -> Seq<u8> {
    encode_utf8("exec "@) + encode_utf8(profile)
}

/// What to write to ask for an AppArmor profile, unless it is too long.
pub fn apparmor_request(profile: &str) -> (r: Option<Vec<u8>>)
    ensures
        match r {
            Some(b) => b@ == apparmor_text(profile@) && b@.len() <= APPARMOR_REQUEST_MAX,
            None => apparmor_text(profile@).len() > APPARMOR_REQUEST_MAX,
        },
{
    let mut b = "exec ".as_bytes_vec();
    let mut name = profile.as_bytes_vec();
    b.append(&mut name);
    if b.len() > APPARMOR_REQUEST_MAX {
        None
    } else {
        Some(b)
    }
}

/// Whether a request was written whole: `n` is what the write returned.
pub fn wrote_all(n: i64, len: usize) -> (r: bool)
    ensures
        r == (n == len),
{
    n >= 0 && n as u64 == len as u64
}

/// Whether the program is executed by its path, and not looked for.
pub fn exec_by_path(argv0: &str) -> (r: bool)
    ensures
        r == text::has_char(argv0@, '/'),
{
    contains_char(argv0, '/')
}

/// The line the process leaves behind before it ends; a number below zero is left out.
pub open spec fn death_line(reason: Seq<char>, errno: int) -> Seq<char> {
    "rsrun-child: "@ + reason + " errno="@ + (if errno >= 0 {
        text::dec(errno as nat)
    } else {
        Seq::empty()
    }) + "\n"@
}

/// The line the process leaves behind before it ends.
pub fn child_die(reason: &str, errno: i32) -> (s: String)
    ensures
        s@ == death_line(reason@, errno as int),
{
    let mut s = owned("rsrun-child: ");
    s.append(reason);
    s.append(" errno=");
    if errno >= 0 {
        let n = dec_u64(errno as u64);
        s.append(n.as_str());
    } else {
        proof {
            assert(s@ =~= s@ + Seq::<char>::empty());
        }
    }
    s.append("\n");
    s
}

/// What each step mounts, and how: the root made private, bound to itself; the mounts of the plan as
/// they are, without a type that is empty or `none`; paths hidden behind `/dev/null` or an empty
/// tree that cannot be written; and paths bound to themselves and then made so that they cannot be
/// written.
pub proof fn law_mount_calls(p: CompiledPlan, rootfs: Seq<char>, i: usize)
    ensures
        call_of(p, rootfs, ChildOp::MakePrivate) matches Some(c) && c.source is None && c.target
            == "/"@ && c.flags == 0x44000,
        call_of(p, rootfs, ChildOp::BindRoot) matches Some(c) && c.source == Some(rootfs) && c.target
            == rootfs && c.flags == 0x5000,
        i < p.mounts@.len() ==> (call_of(p, rootfs, ChildOp::Mount(i)) matches Some(c) && {
            let m = p.mounts@[i as int];
            &&& m.source@.len() > 0 ==> c.source == Some(m.source@)
            &&& m.source@.len() == 0 ==> c.source is None
            &&& c.target == m.target@
            &&& m.fstype@.len() == 0 || m.fstype@ == "none"@ ==> c.fstype is None
            &&& m.fstype@.len() > 0 && m.fstype@ != "none"@ ==> c.fstype == Some(m.fstype@)
            &&& c.flags == m.flags
            &&& c.data == text::opt_text(m.data)
        }),
        call_of(p, rootfs, ChildOp::SetPropagation) matches Some(c) && c.target == "/"@ && c.flags
            == p.rootfs_propagation && c.source is None,
        i < p.default_devices@.len() ==> (call_of(p, rootfs, ChildOp::BindDevice(i)) matches Some(c)
            && c.source == Some(p.default_devices@[i as int].path@) && c.target
            == p.default_devices@[i as int].path@ && c.flags == 0x1000),
        i < p.masked_paths@.len() ==> (call_of(p, rootfs, ChildOp::MaskFile(i)) matches Some(c)
            && c.source == Some("/dev/null"@) && c.target == p.masked_paths@[i as int]@ && c.flags
            == 0x1000),
        i < p.masked_paths@.len() ==> (call_of(p, rootfs, ChildOp::MaskDir(i)) matches Some(c)
            && c.fstype == Some("tmpfs"@) && c.target == p.masked_paths@[i as int]@ && c.flags == 1),
        i < p.readonly_paths@.len() ==> (call_of(p, rootfs, ChildOp::BindReadonly(i)) matches Some(c)
            && c.source == Some(p.readonly_paths@[i as int]@) && c.target
            == p.readonly_paths@[i as int]@ && c.flags == 0x5000),
        i < p.readonly_paths@.len() ==> (call_of(p, rootfs, ChildOp::RemountReadonly(i))
            matches Some(c) && c.target == p.readonly_paths@[i as int]@ && c.flags == 0x5021),
        call_of(p, rootfs, ChildOp::RootReadonly) matches Some(c) && c.target == "/"@ && c.flags
            == 0x1021,
{
    assert(16384u64 | 262144 == 0x44000 && 4096u64 | 16384 == 0x5000 && ((4096u64 | 16384) | 32) | 1
        == 0x5021 && (4096u64 | 32) | 1 == 0x1021) by (bit_vector);
}

/// How a wait goes on: an interruption repeats it, what was awaited ends it, and anything else is a
/// failure of its own kind.
pub proof fn law_waits_go_on(n: i64, rc: i32, errno: i32)
    ensures
        n == 1 ==> sync_verdict(n, errno) == Await::Go,
        n == 0 ==> sync_verdict(n, errno) == Await::Fail(Cause::PipeClosed),
        n < 0 && errno == 4 ==> sync_verdict(n, errno) == Await::Again && start_read_verdict(
            n,
            errno,
        ) == Await::Again,
        n < 0 && errno != 4 ==> sync_verdict(n, errno) == Await::Fail(Cause::Call),
        rc >= 0 ==> start_poll_verdict(rc, errno) == Await::Go,
        rc < 0 && errno == 4 ==> start_poll_verdict(rc, errno) == Await::Again
            && hook_poll_verdict(rc, errno) == Await::Again,
        rc < 0 && errno != 4 ==> start_poll_verdict(rc, errno) == Await::Fail(Cause::Poll)
            && hook_poll_verdict(rc, errno) == Await::Fail(Cause::HookPoll),
        n >= 0 ==> start_read_verdict(n, errno) == Await::Go,
        n < 0 && errno == 11 ==> start_read_verdict(n, errno) == Await::Again,
        n < 0 && errno != 4 && errno != 11 ==> start_read_verdict(n, errno) == Await::Fail(
            Cause::Call,
        ),
        rc > 0 ==> hook_poll_verdict(rc, errno) == Await::Go,
        rc == 0 ==> hook_poll_verdict(rc, errno) == Await::Fail(Cause::HookTimeout),
{
}

/// What a hook's end comes to: it passes where it exited with zero.
pub proof fn law_hook_end(rc: i32, errno: i32, status: i32)
    ensures
        rc < 0 && errno == 4 ==> hook_wait_verdict(rc, errno, status) == Await::Again,
        rc < 0 && errno != 4 ==> hook_wait_verdict(rc, errno, status) == Await::Fail(
            Cause::HookWait,
        ),
        rc >= 0 && signal::ending(status).exit_code == Some(0i32) ==> hook_wait_verdict(
            rc,
            errno,
            status,
        ) == Await::Go,
        rc >= 0 && (signal::ending(status).exit_code matches Some(c) && c != 0)
            ==> hook_wait_verdict(rc, errno, status) == Await::Fail(Cause::HookExit),
        rc >= 0 && signal::ending(status).signal is Some ==> hook_wait_verdict(rc, errno, status)
            == Await::Fail(Cause::HookSignal),
{
    signal::law_one_ending(status);
}

/// A mask of capabilities is handed over in two halves.
pub proof fn law_mask_halves(mask: u64)
    ensures
        low(mask) + 0x1_0000_0000 * high(mask) == mask,
{
    assert((mask & 0xffff_ffff) as u32 + 0x1_0000_0000 * ((mask >> 32) as u32) == mask)
        by (bit_vector);
}

/// The capabilities that are raised or dropped are those that the mask has or has not, from the
/// lowest up.
pub proof fn law_listed_caps(mask: u64, held: bool, n: nat, cap: u32)
    requires
        n <= 64,
    ensures
        listed(mask, held, n).contains(cap) <==> cap < n && holds(mask, cap) == held,
        forall|i: int, j: int|
            0 <= i < j < listed(mask, held, n).len() ==> #[trigger] listed(mask, held, n)[i]
                < #[trigger] listed(mask, held, n)[j],
        forall|i: int| 0 <= i < listed(mask, held, n).len() ==> #[trigger] listed(mask, held, n)[i] < n,
    decreases n,
{
    if n > 0 {
        let m = (n - 1) as nat;
        let c = (n - 1) as u32;
        law_listed_caps(mask, held, m, cap);
        let h = listed(mask, held, m);
        let l = listed(mask, held, n);
        if holds(mask, c) == held {
            assert(l == h.push(c));
            if l.contains(cap) {
                let i = choose|i: int| 0 <= i < l.len() && l[i] == cap;
                if i < h.len() {
                    assert(h[i] == cap);
                }
            }
            if h.contains(cap) {
                let i = choose|i: int| 0 <= i < h.len() && h[i] == cap;
                assert(l[i] == cap);
            }
            assert(l[l.len() - 1] == c);
        }
    }
}

/// The line of a process that dies tells why, and the number of the error.
pub proof fn law_death_line(reason: Seq<char>, errno: int)
    ensures
        errno >= 0 ==> death_line(reason, errno) == "rsrun-child: "@ + reason + " errno="@
            + text::dec(errno as nat) + "\n"@,
{
}

} // verus!
