//! Running hooks, outside the container and inside.

use vstd::prelude::*;
use vstd::string::*;

use crate::child::Cause;
use crate::child_calls;
use crate::child_calls::{after_hook_poll, after_hook_wait, Await};
use crate::error::Error;
use crate::plan::HookCmd;
use crate::signal;
use crate::text;
use crate::text::{dec_u64, owned};

verus! {

/// What a hook reads on its standard input.
pub open spec fn hook_input_text(id: Seq<char>) -> Seq<char> {
    "{\"ociVersion\":\"1.0.2\",\"id\":\""@ + id
        + "\",\"status\":\"creating\",\"pid\":0,\"bundle\":\"\"}"@
}

/// What a hook reads on its standard input: as much of the container's state as every hook gets.
pub fn hook_input(id: &str) -> (s: String)
    ensures
        s@ == hook_input_text(id@),
{
    let mut s = owned("{\"ociVersion\":\"1.0.2\",\"id\":\"");
    s.append(id);
    s.append("\",\"status\":\"creating\",\"pid\":0,\"bundle\":\"\"}");
    s
}

/// The error of a hook that failed; where there is none, the error is that of the call.
pub open spec fn hook_fault(cause: Cause, timeout_ms: nat) -> Option<Seq<char>> {
    match cause {
        Cause::HookTimeout => Some(
            "hook exceeded "@ + text::dec(timeout_ms) + " ms timeout, killed"@,
        ),
        Cause::HookExit => Some("hook exited nonzero"@),
        Cause::HookSignal => Some("hook killed by signal"@),
        _ => None,
    }
}

/// The error of a hook that failed for `cause`, under the timeout `timeout_ms`; none where the error
/// is that of the call.
pub fn hook_error(cause: Cause, timeout_ms: u64) -> (e: Option<Error>)
    ensures
        match e {
            Some(e) => hook_fault(cause, timeout_ms as nat) == Some(e@),
            None => hook_fault(cause, timeout_ms as nat) is None,
        },
{
    match cause {
        Cause::HookTimeout => {
            let mut s = owned("hook exceeded ");
            let n = dec_u64(timeout_ms);
            s.append(n.as_str());
            s.append(" ms timeout, killed");
            Some(Error::new(s))
        },
        Cause::HookExit => Some(Error::new(owned("hook exited nonzero"))),
        Cause::HookSignal => Some(Error::new(owned("hook killed by signal"))),
        _ => None,
    }
}

/// When a hook runs.
#[derive(Debug, Clone, Copy, PartialEq, Eq, Structural)]
pub enum Phase {
    CreateRuntime,
    Prestart,
    CreateContainer,
    StartContainer,
    Poststart,
    Poststop,
}

/// Whether hooks of the phase are run by the container's own process.
pub open spec fn inside(phase: Phase) -> bool {
    phase == Phase::CreateContainer || phase == Phase::StartContainer
}

/// Whether hooks of the phase come after everything that they could still keep from happening.
pub open spec fn late(phase: Phase) -> bool {
    phase == Phase::Poststart || phase == Phase::Poststop
}

/// One thing done to wait for the end of a hook.
#[derive(Debug, Clone, Copy, PartialEq, Eq, Structural)]
pub enum WaitOp {
    /// Get a descriptor that tells of its end.
    Watch,
    /// Wait on the descriptor, no longer than the limit.
    Poll,
    /// Kill the hook.
    Kill,
    /// Reap what was killed.
    Reap,
    /// Wait for the hook, however long it takes and however often it is interrupted.
    Wait,
    /// Wait for the hook, up to the first interruption.
    WaitOnce,
}

/// What follows.
#[derive(Debug, Clone, Copy, PartialEq, Eq, Structural)]
pub enum HookNext {
    Do(WaitOp),
    /// The hook ended, and went well.
    Over,
    Fail(Cause),
}

/// Where the wait for a hook begins.
pub open spec fn wait_start(limit: Option<u64>) -> WaitOp {
    if limit is Some {
        WaitOp::Watch
    } else {
        WaitOp::Wait
    }
}

/// Says where the wait for a hook begins: only one with a limit is watched.
pub fn await_hook(limit: Option<u64>) -> (op: WaitOp)
    ensures
        op == wait_start(limit),
{
    match limit {
        Some(_) => WaitOp::Watch,
        None => WaitOp::Wait,
    }
}

/// How the end of a hook with a limit is waited for, once it is due or cannot be watched: outside
/// the container an interruption counts as a failure.
pub open spec fn limited_wait(phase: Phase) -> WaitOp {
    if inside(phase) {
        WaitOp::Wait
    } else {
        WaitOp::WaitOnce
    }
}

/// What follows a step of the wait that returned `rc`. A hook that cannot be watched is waited for
/// without a limit; one that overruns its limit is killed and reaped.
pub open spec fn wait_next(phase: Phase, op: WaitOp, rc: i32, errno: i32, status: i32) -> HookNext {
    match op {
        WaitOp::Watch => HookNext::Do(
            if rc >= 0 {
                WaitOp::Poll
            } else {
                limited_wait(phase)
            },
        ),
        WaitOp::Poll => match child_calls::hook_poll_verdict(rc, errno) {
            Await::Again => HookNext::Do(WaitOp::Poll),
            Await::Go => HookNext::Do(limited_wait(phase)),
            Await::Fail(c) => if c == Cause::HookTimeout {
                HookNext::Do(WaitOp::Kill)
            } else {
                HookNext::Fail(c)
            },
        },
        WaitOp::Kill => HookNext::Do(WaitOp::Reap),
        WaitOp::Reap => HookNext::Fail(Cause::HookTimeout),
        WaitOp::Wait => match child_calls::hook_wait_verdict(rc, errno, status) {
            Await::Again => HookNext::Do(WaitOp::Wait),
            Await::Go => HookNext::Over,
            Await::Fail(c) => HookNext::Fail(c),
        },
        WaitOp::WaitOnce => match child_calls::hook_wait_verdict(rc, errno, status) {
            Await::Again => HookNext::Fail(Cause::HookWait),
            Await::Go => HookNext::Over,
            Await::Fail(c) => HookNext::Fail(c),
        },
    }
}

/// Decides how the end of a hook with a limit is waited for.
fn wait_limited(phase: Phase) -> (op: WaitOp)
    ensures
        op == limited_wait(phase),
{
    match phase {
        Phase::CreateContainer => WaitOp::Wait,
        Phase::StartContainer => WaitOp::Wait,
        _ => WaitOp::WaitOnce,
    }
}

/// Decides what follows a step of the wait for a hook.
pub fn wait_hook_with_timeout(phase: Phase, op: WaitOp, rc: i32, errno: i32, status: i32) -> (n:
    HookNext)
    ensures
        n == wait_next(phase, op, rc, errno, status),
{
    match op {
        WaitOp::Watch => if rc >= 0 {
            HookNext::Do(WaitOp::Poll)
        } else {
            HookNext::Do(wait_limited(phase))
        },
        WaitOp::Poll => match after_hook_poll(rc, errno) {
            Await::Again => HookNext::Do(WaitOp::Poll),
            Await::Go => HookNext::Do(wait_limited(phase)),
            Await::Fail(c) => if c == Cause::HookTimeout {
                HookNext::Do(WaitOp::Kill)
            } else {
                HookNext::Fail(c)
            },
        },
        WaitOp::Kill => HookNext::Do(WaitOp::Reap),
        WaitOp::Reap => HookNext::Fail(Cause::HookTimeout),
        WaitOp::Wait => match after_hook_wait(rc, errno, status) {
            Await::Again => HookNext::Do(WaitOp::Wait),
            Await::Go => HookNext::Over,
            Await::Fail(c) => HookNext::Fail(c),
        },
        WaitOp::WaitOnce => match after_hook_wait(rc, errno, status) {
            Await::Again => HookNext::Fail(Cause::HookWait),
            Await::Go => HookNext::Over,
            Await::Fail(c) => HookNext::Fail(c),
        },
    }
}

/// A hook is reported to have overrun only after it was killed and reaped, and it is killed only
/// where its time was up; one that went well was waited for.
pub proof fn law_overrun_hook_is_reaped(phase: Phase, op: WaitOp, rc: i32, errno: i32, status: i32)
    ensures
        wait_next(phase, op, rc, errno, status) == HookNext::Fail(Cause::HookTimeout) ==> op
            == WaitOp::Reap,
        wait_next(phase, op, rc, errno, status) == HookNext::Do(WaitOp::Reap) ==> op
            == WaitOp::Kill,
        wait_next(phase, op, rc, errno, status) == HookNext::Do(WaitOp::Kill) ==> op
            == WaitOp::Poll && rc == 0,
        wait_next(phase, op, rc, errno, status) == HookNext::Over ==> (op == WaitOp::Wait || op
            == WaitOp::WaitOnce) && rc >= 0 && !(signal::exited(status) && signal::exit_status(
            status,
        ) != 0) && !signal::signaled(status),
{
}

/// What a hook that failed means for the ones behind it.
#[derive(Debug, Clone, Copy, PartialEq, Eq, Structural)]
pub enum AfterFailure {
    /// None of them is run.
    EndList,
    /// The next one is run.
    GoOn,
}

/// What a hook that failed means for the ones behind it. One that ran and ended badly is passed over
/// where nothing depends on it any more; else the list ends.
pub open spec fn failure_verdict(phase: Phase, cause: Cause) -> AfterFailure {
    if late(phase) && (cause == Cause::HookExit || cause == Cause::HookSignal) {
        AfterFailure::GoOn
    } else {
        AfterFailure::EndList
    }
}

/// Decides whether the hooks behind one that failed are run.
pub fn after_hook_failure(phase: Phase, cause: Cause) -> (a: AfterFailure)
    ensures
        a == failure_verdict(phase, cause),
{
    let is_late = match phase {
        Phase::Poststart => true,
        Phase::Poststop => true,
        _ => false,
    };
    if is_late && (cause == Cause::HookExit || cause == Cause::HookSignal) {
        AfterFailure::GoOn
    } else {
        AfterFailure::EndList
    }
}

/// How many hooks of a list have their turn, where the one at each place ends as `ends` says: well,
/// or for a cause.
pub open spec fn turns(phase: Phase, ends: Seq<Option<Cause>>) -> nat
    decreases ends.len(),
{
    if ends.len() == 0 {
        0
    } else if ends[0] is Some && failure_verdict(phase, ends[0]->0) == AfterFailure::EndList {
        1
    } else {
        1 + turns(phase, ends.skip(1))
    }
}

/// Every hook of the last two phases has its turn, however those before it ended once they ran.
pub proof fn law_late_hooks_all_run(phase: Phase, ends: Seq<Option<Cause>>)
    requires
        late(phase),
        forall|i: int|
            0 <= i < ends.len() ==> ((#[trigger] ends[i]) is None || ends[i] == Some(
                Cause::HookExit,
            ) || ends[i] == Some(Cause::HookSignal)),
    ensures
        turns(phase, ends) == ends.len(),
    decreases ends.len(),
{
    if ends.len() > 0 {
        assert(ends[0] is None || ends[0] is Some);
        law_late_hooks_all_run(phase, ends.skip(1));
    }
}

/// In the other phases the first hook that fails is the last that has its turn.
pub proof fn law_early_hook_failure_ends(phase: Phase, ends: Seq<Option<Cause>>, k: int)
    requires
        !late(phase),
        0 <= k < ends.len(),
        ends[k] is Some,
        forall|i: int| 0 <= i < k ==> (#[trigger] ends[i]) is None,
    ensures
        turns(phase, ends) == k + 1,
    decreases k,
{
    if k > 0 {
        assert(ends[0] is None);
        law_early_hook_failure_ends(phase, ends.skip(1), k - 1);
    }
}

/// One thing done to run hooks. A number is a place in the list of hooks.
#[derive(Debug, Clone, Copy, PartialEq, Eq, Structural)]
pub enum HookStep {
    /// See that there is time left.
    CheckTime(usize),
    /// Make the process of the hook.
    Fork(usize),
    /// Wait for its end.
    Await(usize),
}

/// The steps for the first `n` hooks, one hook after the other.
pub open spec fn hook_steps(n: nat) -> Seq<HookStep>
    decreases n,
{
    if n == 0 {
        Seq::empty()
    } else {
        let i = (n - 1) as usize;
        hook_steps((n - 1) as nat) + seq![
            HookStep::CheckTime(i),
            HookStep::Fork(i),
            HookStep::Await(i),
        ]
    }
}

/// Lays out how hooks are run. A step that fails ends it, but for a hook that is passed over.
pub fn run_hooks(hooks: &Vec<HookCmd>) -> (v: Vec<HookStep>)
    ensures
        v@ == hook_steps(hooks@.len()),
{
    let mut v: Vec<HookStep> = Vec::new();
    let mut i: usize = 0;
    while i < hooks.len()
        invariant
            i <= hooks@.len(),
            v@ == hook_steps(i as nat),
        decreases hooks@.len() - i,
    {
        let ghost was = v@;
        v.push(HookStep::CheckTime(i));
        v.push(HookStep::Fork(i));
        v.push(HookStep::Await(i));
        proof {
            assert(v@ =~= was + seq![
                HookStep::CheckTime(i),
                HookStep::Fork(i),
                HookStep::Await(i),
            ]);
        }
        i += 1;
    }
    v
}

/// Each hook has its turn, in the order of the list, and is waited for before the next one is made.
pub proof fn law_hooks_in_turn(n: nat, i: int)
    requires
        0 <= i < n <= usize::MAX,
    ensures
        hook_steps(n).len() == 3 * n,
        hook_steps(n)[3 * i] == HookStep::CheckTime(i as usize),
        hook_steps(n)[3 * i + 1] == HookStep::Fork(i as usize),
        hook_steps(n)[3 * i + 2] == HookStep::Await(i as usize),
    decreases n,
{
    let m = (n - 1) as nat;
    if m == 0 {
        assert(hook_steps(0).len() == 0);
    } else {
        law_hooks_in_turn(
            m,
            if i < m {
                i
            } else {
                0
            },
        );
    }
}

/// How the wait for a hook goes on. With a limit the process is watched where that can be done, and
/// polled; a poll that was interrupted is repeated, one that ran out kills the hook, and one that saw
/// it end waits for it. A wait inside the container is repeated when it was interrupted, one outside
/// is not. A hook passes only where it exited with zero.
pub proof fn law_hook_wait_goes_on(phase: Phase, rc: i32, errno: i32, status: i32)
    ensures
        wait_start(None) == WaitOp::Wait,
        forall|n: u64| #[trigger] wait_start(Some(n)) == WaitOp::Watch,
        rc >= 0 ==> wait_next(phase, WaitOp::Watch, rc, errno, status) == HookNext::Do(
            WaitOp::Poll,
        ),
        rc < 0 && inside(phase) ==> wait_next(phase, WaitOp::Watch, rc, errno, status)
            == HookNext::Do(WaitOp::Wait),
        rc < 0 && !inside(phase) ==> wait_next(phase, WaitOp::Watch, rc, errno, status)
            == HookNext::Do(WaitOp::WaitOnce),
        rc < 0 && errno == 4 ==> wait_next(phase, WaitOp::Poll, rc, errno, status)
            == HookNext::Do(WaitOp::Poll),
        rc == 0 ==> wait_next(phase, WaitOp::Poll, rc, errno, status) == HookNext::Do(WaitOp::Kill),
        rc > 0 && inside(phase) ==> wait_next(phase, WaitOp::Poll, rc, errno, status)
            == HookNext::Do(WaitOp::Wait),
        rc > 0 && !inside(phase) ==> wait_next(phase, WaitOp::Poll, rc, errno, status)
            == HookNext::Do(WaitOp::WaitOnce),
        wait_next(phase, WaitOp::Kill, rc, errno, status) == HookNext::Do(WaitOp::Reap),
        wait_next(phase, WaitOp::Reap, rc, errno, status) == HookNext::Fail(Cause::HookTimeout),
        rc < 0 && errno == 4 ==> wait_next(phase, WaitOp::Wait, rc, errno, status)
            == HookNext::Do(WaitOp::Wait) && wait_next(phase, WaitOp::WaitOnce, rc, errno, status)
            is Fail,
        rc < 0 && errno != 4 ==> wait_next(phase, WaitOp::Wait, rc, errno, status) is Fail
            && wait_next(phase, WaitOp::WaitOnce, rc, errno, status) is Fail,
        rc >= 0 ==> (wait_next(phase, WaitOp::Wait, rc, errno, status) == wait_next(
            phase,
            WaitOp::WaitOnce,
            rc,
            errno,
            status,
        )),
        rc >= 0 && signal::exited(status) ==> (wait_next(phase, WaitOp::Wait, rc, errno, status)
            == HookNext::Over <==> signal::exit_status(status) == 0),
{
}

/// Only a hook that ran out of time, failed or was killed is told of as a fault of the hook.
pub proof fn law_hook_faults(cause: Cause, timeout_ms: nat)
    ensures
        hook_fault(cause, timeout_ms) is Some <==> cause == Cause::HookTimeout || cause
            == Cause::HookExit || cause == Cause::HookSignal,
        cause == Cause::HookTimeout ==> text::holds(
            hook_fault(cause, timeout_ms)->Some_0,
            text::dec(timeout_ms),
        ),
        cause == Cause::HookExit ==> hook_fault(cause, timeout_ms) == Some("hook exited nonzero"@),
        cause == Cause::HookSignal ==> hook_fault(cause, timeout_ms) == Some(
            "hook killed by signal"@,
        ),
{
    let head = "hook exceeded "@;
    let d = text::dec(timeout_ms);
    let s = head + d + " ms timeout, killed"@;
    assert(s.subrange(head.len() as int, head.len() as int + d.len()) =~= d);
}

/// The hooks in the container are those of its creation and start; those that may fail without
/// ending the rest are the ones after the start and after the stop.
pub proof fn law_hook_phases(phase: Phase)
    ensures
        inside(phase) <==> phase == Phase::CreateContainer || phase == Phase::StartContainer,
        late(phase) <==> phase == Phase::Poststart || phase == Phase::Poststop,
        failure_verdict(phase, Cause::HookExit) == AfterFailure::GoOn <==> phase
            == Phase::Poststart || phase == Phase::Poststop,
        failure_verdict(phase, Cause::HookTimeout) == AfterFailure::EndList,
{
}

} // verus!
