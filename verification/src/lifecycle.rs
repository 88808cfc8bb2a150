//! The life of a container after it was made: start, state, pause, kill, delete.

use vstd::prelude::*;
use vstd::string::*;

use crate::cgroup;
use crate::child;
use crate::child::{Cause, ChildOp};
use crate::child_calls::EINTR;
use crate::create;
use crate::create::{CreateOp, Recovery};
use crate::deadline;
use crate::deadline::{timeout_error, Deadline};
use crate::error::{Error, ErrorKind};
use crate::json;
use crate::json::{get_i64_or, get_text_or, named, parse_json, render_line, set_member, Json, JsonView};
use crate::order;
use crate::signal;
use crate::signal::parse_signal;
use crate::state;
use crate::state::{int_to_json, read_pid, write_state, StatusPidComm};
use crate::steps;
use crate::steps::{push_if, push_one};
use crate::text;
use crate::text::{cat3, dec_i64, owned, parse_i32, str_eq, trim};

verus! {

/// There is no such process.
pub const ESRCH: i32 = 3;

/// There is no such child.
pub const ECHILD: i32 = 10;

/// The message where there is no container.
pub open spec fn absent(id: Seq<char>) -> Seq<char> {
    "container "@ + id + " does not exist"@
}

/// The error where there is no container.
fn absent_error(id: &str) -> (e: Error)
    ensures
        e@ == absent(id@),
        e.kind == ErrorKind::Other,
{
    Error::new(cat3("container ", id, " does not exist"))
}

/// What follows a step that failed.
#[derive(Debug)]
pub enum Failure {
    /// The next step.
    PassOver,
    /// All fails with the error of the call.
    CallError,
    /// All fails with this error.
    Error(Error),
}

/// A step of starting a container.
#[derive(Debug, Clone, Copy, PartialEq, Eq, Structural)]
pub enum StartOp {
    /// See that the container is there.
    FindContainer,
    /// Read the pid of its init process.
    ReadPid,
    /// See that there is time left.
    CheckTime,
    /// See that the name of the pipe can be handed to the kernel.
    CheckPipe,
    /// Open the pipe without waiting, so that an init process that died cannot hold up the start.
    OpenPipe,
    /// Write the byte that the init process waits for.
    Signal,
    /// See that there still is time left.
    CheckTimeAgain,
    /// Note that the container runs.
    WriteRunning,
    /// Run the hooks for a container that was started.
    Poststart,
}

/// The steps of starting a container, in order.
pub open spec fn start_ops() -> Seq<StartOp> {
    seq![
        StartOp::FindContainer,
        StartOp::ReadPid,
        StartOp::CheckTime,
        StartOp::CheckPipe,
        StartOp::OpenPipe,
        StartOp::Signal,
        StartOp::CheckTimeAgain,
        StartOp::WriteRunning,
        StartOp::Poststart,
    ]
}

/// A container to start.
pub struct StartRequest {
    pub id: String,
    pub deadline: Deadline,
    pub steps: Vec<StartOp>,
}

/// Asks for a start without a limit of time.
pub fn cmd_start(id: &str) -> (q: StartRequest)
    ensures
        q.id@ == id@,
        q.deadline.expires_at is None,
        q.steps@ == start_ops(),
{
    cmd_start_with_timeout(id, None, 0)
}

/// Asks for a start that is to be over in time.
pub fn cmd_start_with_timeout(id: &str, timeout_ms: Option<u64>, now: u64) -> (q: StartRequest)
    ensures
        q.id@ == id@,
        q.deadline.expires_at == (match timeout_ms {
            Some(ms) => Some(
                if now + ms > u64::MAX {
                    u64::MAX
                } else {
                    (now + ms) as u64
                },
            ),
            None => None,
        }),
        q.steps@ == start_ops(),
{
    let steps = vec![
        StartOp::FindContainer,
        StartOp::ReadPid,
        StartOp::CheckTime,
        StartOp::CheckPipe,
        StartOp::OpenPipe,
        StartOp::Signal,
        StartOp::CheckTimeAgain,
        StartOp::WriteRunning,
        StartOp::Poststart,
    ];
    proof {
        assert(steps@ =~= start_ops());
    }
    StartRequest { id: owned(id), deadline: Deadline::from_timeout_ms(timeout_ms, now), steps }
}

/// Whether a failure of the step ends the start. Hooks of a container that runs cannot end it.
pub open spec fn fails_start(op: StartOp) -> bool {
    op != StartOp::Poststart
}

/// The message of a step that failed, where it is not that of the call.
pub open spec fn start_fault(op: StartOp, id: Seq<char>) -> Option<Seq<char>> {
    match op {
        StartOp::FindContainer => Some(absent(id)),
        StartOp::CheckTime => Some(deadline::timeout_message("start"@)),
        StartOp::CheckTimeAgain => Some(deadline::timeout_message("start"@)),
        StartOp::CheckPipe => Some("fifo path contains NUL"@),
        _ => None,
    }
}

/// Decides what follows a step that failed.
pub fn after_start_failure(op: StartOp, id: &str) -> (f: Failure)
    ensures
        match f {
            Failure::PassOver => !fails_start(op),
            Failure::CallError => fails_start(op) && start_fault(op, id@) is None,
            Failure::Error(e) => {
                &&& fails_start(op)
                &&& start_fault(op, id@) == Some(e@)
                &&& e.kind == (if op == StartOp::CheckTime || op == StartOp::CheckTimeAgain {
                    ErrorKind::TimedOut
                } else {
                    ErrorKind::Other
                })
            },
        },
{
    match op {
        StartOp::FindContainer => Failure::Error(absent_error(id)),
        StartOp::CheckTime => Failure::Error(timeout_error("start")),
        StartOp::CheckTimeAgain => Failure::Error(timeout_error("start")),
        StartOp::CheckPipe => Failure::Error(Error::new(owned("fifo path contains NUL"))),
        StartOp::Poststart => Failure::PassOver,
        _ => Failure::CallError,
    }
}

/// The byte that the init process waits for.
pub fn start_byte() -> (b: u8)
    ensures
        b == 'S' as u8,
{
    83
}

/// The bytes of the state file of a container that was started: the status changes, and the bundle
/// and the name of the process stay.
pub fn running_state(id: &str, pid: i32, bytes: &[u8]) -> (r: Result<Vec<u8>, Error>)
    ensures
        match json::json_text(bytes@) {
            Err(why) => r is Err && (r->Err_0)@ == why,
            Ok(v) => r is Ok && (r->Ok_0)@ == state::state_text(
                id@,
                pid,
                state::bundle_in(v),
                "running"@,
                state::comm_in(v),
            ),
        },
        forall|i: Seq<char>, p: i32, bundle: Seq<char>, status: Seq<char>, c: Option<Seq<char>>|
            bytes@ == #[trigger] state::state_text(i, p, bundle, status, c) ==> r is Ok && (
            r->Ok_0)@ == state::state_text(id@, pid, bundle, "running"@, c),
{
    let bundle = match state::read_bundle(bytes) {
        Ok(b) => b,
        Err(e) => {
            return Err(e);
        },
    };
    let known = state::read_status_pid_comm(Some(bytes), None);
    let comm: Option<&str> = match &known.comm {
        Some(c) => Some(c.as_str()),
        None => None,
    };
    Ok(write_state(id, pid, bundle.as_str(), "running", comm))
}

/// The init process is told to go on only after the pid was read and the time checked, and the
/// container is noted as running only after that; hooks come last.
pub proof fn law_start_order(i: int, k: int)
    requires
        0 <= i < k < start_ops().len(),
    ensures
        start_ops()[i] != start_ops()[k],
        start_ops()[k] == StartOp::Signal ==> start_ops().take(k).contains(StartOp::ReadPid)
            && start_ops().take(k).contains(StartOp::CheckTime),
        start_ops()[k] == StartOp::WriteRunning ==> start_ops().take(k).contains(StartOp::Signal),
        start_ops()[i] != StartOp::Poststart,
{
    let s = start_ops().take(k);
    if k == 5 {
        assert(s[1] == StartOp::ReadPid);
        assert(s[2] == StartOp::CheckTime);
    }
    if k == 7 {
        assert(s[5] == StartOp::Signal);
    }
}

/// Whether a container counts as running: it is not noted as stopped, and its process is there.
pub open spec fn counts_as_running(status: Option<Seq<char>>, pid: int, alive: bool) -> bool {
    status != Some("stopped"@) && pid > 0 && alive
}

/// The message where a container that runs is to be deleted without force.
pub open spec fn undeletable(id: Seq<char>, status: Option<Seq<char>>) -> Seq<char> {
    "cannot delete container "@ + id + " in state "@ + (match status {
        Some(st) => st,
        None => "creating"@,
    }) + "; use --force"@
}

/// Whether a container may be deleted: whether there is anything to do, or why not.
pub open spec fn delete_verdict(
    id: Seq<char>,
    there: bool,
    force: bool,
    status: Option<Seq<char>>,
    pid: int,
    alive: bool,
) -> Result<bool, Seq<char>> {
    if !there {
        if force {
            Ok(false)
        } else {
            Err(absent(id))
        }
    } else if !force && counts_as_running(status, pid, alive) {
        Err(undeletable(id, status))
    } else {
        Ok(true)
    }
}

/// Decides whether a container may be deleted, and whether there is anything to do. `known` is what
/// is known of its process, and `alive` whether that process is there.
pub fn admit_delete(
    id: &str,
    container_there: bool,
    force: bool,
    known: &StatusPidComm,
    alive: bool,
) -> (r: Result<bool, Error>)
    ensures
        match r {
            Ok(b) => delete_verdict(
                id@,
                container_there,
                force,
                text::opt_text(known.status),
                known.pid as int,
                alive,
            ) == Ok::<bool, Seq<char>>(b),
            Err(e) => delete_verdict(
                id@,
                container_there,
                force,
                text::opt_text(known.status),
                known.pid as int,
                alive,
            ) == Err::<bool, Seq<char>>(e@),
        },
{
    if !container_there {
        if force {
            return Ok(false);
        }
        return Err(absent_error(id));
    }
    let stopped = match &known.status {
        Some(st) => str_eq(st.as_str(), "stopped"),
        None => false,
    };
    if !force && !stopped && known.pid > 0 && alive {
        let mut s = owned("cannot delete container ");
        s.append(id);
        s.append(" in state ");
        match &known.status {
            Some(st) => s.append(st.as_str()),
            None => s.append("creating"),
        }
        s.append("; use --force");
        return Err(Error::new(s));
    }
    Ok(true)
}

/// A container that runs is deleted only by force, and force is never refused.
pub proof fn law_delete_needs_force(
    id: Seq<char>,
    there: bool,
    status: Option<Seq<char>>,
    pid: int,
    alive: bool,
)
    ensures
        delete_verdict(id, there, true, status, pid, alive) is Ok,
        there && counts_as_running(status, pid, alive) ==> delete_verdict(
            id,
            there,
            false,
            status,
            pid,
            alive,
        ) == Err::<bool, Seq<char>>(undeletable(id, status)),
        there && !counts_as_running(status, pid, alive) ==> delete_verdict(
            id,
            there,
            false,
            status,
            pid,
            alive,
        ) == Ok::<bool, Seq<char>>(true),
{
}

/// A container to delete.
pub struct DeleteRequest {
    pub id: String,
    pub force: bool,
    pub deadline: Deadline,
}

/// Asks for a deletion without a limit of time.
pub fn cmd_delete(id: &str, force: bool) -> (q: DeleteRequest)
    ensures
        q.id@ == id@,
        q.force == force,
        q.deadline.expires_at is None,
{
    cmd_delete_with_timeout(id, force, None, 0)
}

/// Asks for a deletion that is to be over in time.
pub fn cmd_delete_with_timeout(id: &str, force: bool, timeout_ms: Option<u64>, now: u64) -> (q:
    DeleteRequest)
    ensures
        q.id@ == id@,
        q.force == force,
        q.deadline.expires_at == (match timeout_ms {
            Some(ms) => Some(
                if now + ms > u64::MAX {
                    u64::MAX
                } else {
                    (now + ms) as u64
                },
            ),
            None => None,
        }),
{
    DeleteRequest { id: owned(id), force, deadline: Deadline::from_timeout_ms(timeout_ms, now) }
}

/// A step of deleting a container.
#[derive(Debug, Clone, Copy, PartialEq, Eq, Structural)]
pub enum DeleteOp {
    /// See that there is time left.
    CheckTime,
    /// Kill the init process.
    KillInit,
    /// Kill what else is in the cgroup.
    KillCgroup,
    /// Wait for the init process.
    AwaitInit,
    /// Wait until the init process is gone.
    AwaitGone,
    /// See that there still is time left.
    CheckTimeAgain,
    /// Run the hooks for a container that has stopped, while its state can still be read.
    Poststop,
    /// Unmount its layers.
    Unmount,
    /// Remove its state.
    RemoveState,
}

/// The steps of deleting a container, in order; `has_pid` says whether the pid of its init process
/// could be read.
pub open spec fn delete_ops(force: bool, has_pid: bool) -> Seq<DeleteOp> {
    seq![DeleteOp::CheckTime] + steps::when(force && has_pid, seq![DeleteOp::KillInit])
        + steps::when(force && has_pid, seq![DeleteOp::KillCgroup]) + steps::when(
        has_pid,
        seq![DeleteOp::AwaitInit],
    ) + steps::when(has_pid, seq![DeleteOp::AwaitGone]) + seq![DeleteOp::CheckTimeAgain]
        + seq![DeleteOp::Poststop] + seq![DeleteOp::Unmount] + seq![DeleteOp::RemoveState]
}

/// Lays out the steps of deleting a container.
pub fn delete_steps(force: bool, has_pid: bool) -> (v: Vec<DeleteOp>)
    ensures
        v@ == delete_ops(force, has_pid),
{
    let mut v: Vec<DeleteOp> = vec![DeleteOp::CheckTime];
    proof {
        assert(v@ =~= seq![DeleteOp::CheckTime]);
    }
    push_if(&mut v, force && has_pid, DeleteOp::KillInit);
    push_if(&mut v, force && has_pid, DeleteOp::KillCgroup);
    push_if(&mut v, has_pid, DeleteOp::AwaitInit);
    push_if(&mut v, has_pid, DeleteOp::AwaitGone);
    push_one(&mut v, DeleteOp::CheckTimeAgain);
    push_one(&mut v, DeleteOp::Poststop);
    push_one(&mut v, DeleteOp::Unmount);
    push_one(&mut v, DeleteOp::RemoveState);
    v
}

/// Whether a failure of the step ends the deletion.
pub open spec fn fails_delete(op: DeleteOp) -> bool {
    op != DeleteOp::KillInit && op != DeleteOp::KillCgroup && op != DeleteOp::Poststop
}

/// The message of a step that failed, where it is not that of the call.
pub open spec fn delete_fault(op: DeleteOp) -> Option<Seq<char>> {
    match op {
        DeleteOp::CheckTime => Some(deadline::timeout_message("delete"@)),
        DeleteOp::AwaitGone => Some(deadline::timeout_message("delete"@)),
        DeleteOp::CheckTimeAgain => Some(deadline::timeout_message("delete"@)),
        _ => None,
    }
}

/// Decides what follows a step that failed.
pub fn after_delete_failure(op: DeleteOp) -> (f: Failure)
    ensures
        match f {
            Failure::PassOver => !fails_delete(op),
            Failure::CallError => fails_delete(op) && delete_fault(op) is None,
            Failure::Error(e) => fails_delete(op) && delete_fault(op) == Some(e@) && e.kind
                == ErrorKind::TimedOut,
        },
{
    match op {
        DeleteOp::CheckTime => Failure::Error(timeout_error("delete")),
        DeleteOp::AwaitGone => Failure::Error(timeout_error("delete")),
        DeleteOp::CheckTimeAgain => Failure::Error(timeout_error("delete")),
        DeleteOp::KillInit => Failure::PassOver,
        DeleteOp::KillCgroup => Failure::PassOver,
        DeleteOp::Poststop => Failure::PassOver,
        _ => Failure::CallError,
    }
}

/// Whether a failure of the step is noted in the state of the container, which stays.
pub open spec fn noted_failure(op: DeleteOp) -> bool {
    op == DeleteOp::AwaitGone || op == DeleteOp::CheckTimeAgain || op == DeleteOp::Unmount
}

/// Whether a failure of the step is noted in the state of the container.
pub fn notes_failure(op: DeleteOp) -> (r: bool)
    ensures
        r == noted_failure(op),
{
    match op {
        DeleteOp::AwaitGone => true,
        DeleteOp::CheckTimeAgain => true,
        DeleteOp::Unmount => true,
        _ => false,
    }
}

/// The place of a step in the order of a deletion.
pub open spec fn delete_rank(op: DeleteOp) -> int {
    match op {
        DeleteOp::CheckTime => 0,
        DeleteOp::KillInit => 1,
        DeleteOp::KillCgroup => 2,
        DeleteOp::AwaitInit => 3,
        DeleteOp::AwaitGone => 4,
        DeleteOp::CheckTimeAgain => 5,
        DeleteOp::Poststop => 6,
        DeleteOp::Unmount => 7,
        DeleteOp::RemoveState => 8,
    }
}

/// Processes are killed before they are awaited; hooks run and layers are unmounted when the
/// process is gone, and while the state is still there; the state is removed last of all.
pub proof fn law_delete_order(force: bool, has_pid: bool)
    ensures
        forall|i: int, j: int|
            0 <= i < j < delete_ops(force, has_pid).len() ==> delete_rank(
                #[trigger] delete_ops(force, has_pid)[i],
            ) < delete_rank(#[trigger] delete_ops(force, has_pid)[j]),
        delete_ops(force, has_pid).last() == DeleteOp::RemoveState,
{
}

/// Nothing is killed without force.
pub proof fn law_delete_kills_only_by_force(has_pid: bool, i: int)
    requires
        0 <= i < delete_ops(false, has_pid).len(),
    ensures
        delete_ops(false, has_pid)[i] != DeleteOp::KillInit,
        delete_ops(false, has_pid)[i] != DeleteOp::KillCgroup,
{
}

/// What follows a wait.
#[derive(Debug, Clone, Copy, PartialEq, Eq, Structural)]
pub enum WaitNext {
    Over,
    /// Wait again, if there is time.
    Again,
    /// The deletion fails with the error of the call.
    Fail,
}

/// What follows a wait for the process `pid` that returned `rc`. Without a deadline there is one
/// wait, whatever comes of it.
pub open spec fn wait_verdict(bounded: bool, pid: int, rc: int, errno: i32) -> WaitNext {
    if !bounded || rc == pid || rc < 0 && errno == ECHILD {
        WaitNext::Over
    } else if rc >= 0 || errno == EINTR {
        WaitNext::Again
    } else {
        WaitNext::Fail
    }
}

/// Decides what follows a wait for the process `pid`.
pub fn wait_pid_bounded(bounded: bool, pid: i32, rc: i32, errno: i32) -> (w: WaitNext)
    ensures
        w == wait_verdict(bounded, pid as int, rc as int, errno),
{
    if !bounded || rc == pid {
        return WaitNext::Over;
    }
    if rc < 0 {
        if errno == ECHILD {
            return WaitNext::Over;
        }
        if errno != EINTR {
            return WaitNext::Fail;
        }
    }
    WaitNext::Again
}

/// How often it is looked whether a process is gone, at most.
pub const GONE_LOOKS: u32 = 200;

/// How long to wait before the next look.
pub const LOOK_PAUSE_MS: u64 = 5;

/// Whether to look again whether a process is gone, after so many looks.
pub fn look_again(looks: u32, there: bool) -> (r: bool)
    ensures
        r == (there && looks < GONE_LOOKS),
{
    there && looks < GONE_LOOKS
}

/// What is said of a container that has no state file: it is being made, or was when it ended.
pub open spec fn bare_state(id: Seq<char>, pid: int, alive: bool) -> JsonView {
    JsonView::Object(
        seq![
            ("annotations"@, JsonView::Object(Seq::empty())),
            ("bundle"@, JsonView::Str(""@)),
            ("id"@, JsonView::Str(id)),
            ("ociVersion"@, JsonView::Str("1.0.2"@)),
            ("pid"@, state::int_json(pid)),
            (
                "status"@,
                JsonView::Str(
                    if pid > 0 && alive {
                        "creating"@
                    } else {
                        "stopped"@
                    },
                ),
            ),
        ],
    )
}

/// The keys are in order.
proof fn lemma_bare_state(id: Seq<char>, pid: int, alive: bool)
    requires
        i32::MIN <= pid <= i32::MAX,
    ensures
        json::tame(bare_state(id, pid, alive), json::read_depth()),
{
    reveal_strlit("annotations");
    reveal_strlit("bundle");
    reveal_strlit("id");
    reveal_strlit("ociVersion");
    reveal_strlit("pid");
    reveal_strlit("status");
    order::lemma_first_difference("annotations"@, "bundle"@, 0);
    order::lemma_first_difference("bundle"@, "id"@, 0);
    order::lemma_first_difference("id"@, "ociVersion"@, 0);
    order::lemma_first_difference("ociVersion"@, "pid"@, 0);
    order::lemma_first_difference("pid"@, "status"@, 0);
    let m = bare_state(id, pid, alive)->Object_0;
    json::lemma_adjacent_keys(m);
    let d = (json::read_depth() - 1) as nat;
    assert forall|i: int| 0 <= i < m.len() implies json::tame((#[trigger] m[i]).1, d) by {
    }
}

/// Writes what is said of a container that has no state file.
fn write_bare_state(id: &str, pid: i32, alive: bool) -> (b: Vec<u8>)
    ensures
        b@ == json::rendered(bare_state(id@, pid as int, alive)) + seq![10u8],
        json::reads_as(b@.drop_last(), bare_state(id@, pid as int, alive)),
{
    let none = Json::Object(Vec::new());
    proof {
        assert(none@->Object_0 =~= Seq::empty());
    }
    let status = if pid > 0 && alive {
        owned("creating")
    } else {
        owned("stopped")
    };
    let doc = Json::Object(
        vec![
            named("annotations", none),
            named("bundle", Json::Str(owned(""))),
            named("id", Json::Str(owned(id))),
            named("ociVersion", Json::Str(owned("1.0.2"))),
            named("pid", int_to_json(pid as i64)),
            named("status", Json::Str(status)),
        ],
    );
    proof {
        assert(doc@->Object_0 =~= bare_state(id@, pid as int, alive)->Object_0);
        lemma_bare_state(id@, pid as int, alive);
    }
    render_line(&doc)
}

/// Whether the state of a container is to be corrected: its process is gone and it is not noted as
/// stopped.
pub open spec fn outdated(v: JsonView, alive: bool) -> bool {
    json::text_or(json::field(v, "status"@), "created"@) != "stopped"@ && state::pid_in(v) > 0
        && !alive
}

/// What is said of a container whose state file says `v`.
pub open spec fn reported(v: JsonView, alive: bool) -> JsonView {
    if outdated(v, alive) {
        json::with_member(v, "status"@, JsonView::Str("stopped"@))->Some_0
    } else {
        v
    }
}

/// Once a container was reported as stopped, it stays so, whether or not another process gets its
/// pid; and nothing but the status is ever corrected.
pub proof fn law_stopped_is_final(v: JsonView, alive: bool, later: bool, other: Seq<char>)
    requires
        other != "status"@,
    ensures
        state::status_in(v) == Some("stopped"@) ==> reported(v, alive) == v,
        outdated(v, alive) ==> state::status_in(reported(v, alive)) == Some("stopped"@),
        outdated(v, alive) ==> reported(reported(v, alive), later) == reported(v, alive),
        json::field(reported(v, alive), other) == json::field(v, other),
{
    if outdated(v, alive) {
        assert(v is Object);
        json::law_put_one_member(v->Object_0, "status"@, JsonView::Str("stopped"@), other);
    }
}

/// What is said of a container.
pub struct StateReport {
    /// What is printed.
    pub line: Vec<u8>,
    /// What the state file is to hold from now on.
    pub corrected: Option<Vec<u8>>,
}

/// What `cmd_state` says, for the bytes of a state file that is there. What it prints and writes is
/// read back, but for numbers that are fractions.
pub open spec fn state_report(v: JsonView, alive: bool, r: StateReport) -> bool {
    let d = reported(v, alive);
    &&& r.line@ == json::rendered(d) + seq![10u8]
    &&& json::whole(v) ==> json::reads_as(r.line@.drop_last(), d)
    &&& json::reads_like(r.line@.drop_last(), d)
    &&& match r.corrected {
        Some(b) => {
            &&& outdated(v, alive)
            &&& b@ == json::rendered(d)
            &&& json::whole(v) ==> json::reads_as(b@, d)
            &&& json::reads_like(b@, d)
        },
        None => !outdated(v, alive),
    }
}

/// Once `cmd_state` said that a container is stopped, and its state file holds what it is to hold
/// from then on, every later answer that can be given says so too, also where another process has
/// its pid by then; all but the status is in the file as it was. A fraction may be read back as
/// another one, or as too large to be read. Without one, the answer can be given and is the same.
pub proof fn law_stopped_stays(
    bytes: Seq<u8>,
    v: JsonView,
    alive: bool,
    r: StateReport,
    w: JsonView,
    later: bool,
    r2: StateReport,
    other: Seq<char>,
)
    requires
        json::reads_as(bytes, v),
        state_report(v, alive, r),
        state::status_in(reported(v, alive)) == Some("stopped"@),
        other != "status"@,
    ensures
        json::whole(v) ==> json::reads_as(kept_state(bytes, r), reported(v, alive)),
        json::reads_as(kept_state(bytes, r), w) ==> {
            &&& state::status_in(w) == Some("stopped"@)
            &&& reported(w, later) == w
            &&& json::opt_alike(json::field(v, other), json::field(w, other))
            &&& state_report(w, later, r2) ==> r2.corrected is None && r2.line@ == json::rendered(w)
                + seq![10u8]
            &&& json::whole(v) ==> w == reported(v, alive)
            &&& json::whole(v) && state_report(w, later, r2) ==> r2.line@ == r.line@
        },
{
    let d = reported(v, alive);
    law_stopped_is_final(v, alive, later, other);
    if json::reads_as(kept_state(bytes, r), w) {
        if r.corrected is None {
            json::lemma_alike_self(v);
        }
        assert(json::alike(d, w));
        json::lemma_alike_field(d, w, "status"@);
        json::lemma_alike_field(d, w, other);
        law_stopped_is_final(w, later, later, other);
    }
}

/// What the state file holds after `cmd_state` answered.
pub open spec fn kept_state(bytes: Seq<u8>, r: StateReport) -> Seq<u8> {
    match r.corrected {
        Some(b) => b@,
        None => bytes,
    }
}

/// The pid of the process by which it is decided whether a container runs; zero for none. It is
/// that of the state file, or, where there is none, that of the pid file.
pub fn state_pid(bytes: Option<&[u8]>, pid_text: Option<&str>) -> (pid: i32)
    ensures
        pid == (match bytes {
            Some(b) => match json::json_text(b@) {
                Ok(v) => state::pid_in(v) as int,
                Err(_) => 0,
            },
            None => state::noted_pid(
                match pid_text {
                    Some(t) => Some(t@),
                    None => None,
                },
            ),
        }),
{
    match bytes {
        Some(b) => match parse_json(b) {
            Ok(v) => get_i64_or(v.get("pid"), 0) as i32,
            Err(_) => 0,
        },
        None => match pid_text {
            Some(t) => match parse_i32(trim(t)) {
                Some(n) => n,
                None => 0,
            },
            None => 0,
        },
    }
}

/// What is said of the container `id`: `bytes` are those of its state file and `pid_text` is what
/// its pid file holds, where they are there; `alive` says whether the process of `state_pid` is.
pub fn cmd_state(
    id: &str,
    container_there: bool,
    bytes: Option<&[u8]>,
    pid_text: Option<&str>,
    alive: bool,
) -> (r: Result<StateReport, Error>)
    ensures
        if !container_there {
            r is Err && (r->Err_0)@ == absent(id@)
        } else {
            match bytes {
                None => {
                    let d = bare_state(
                        id@,
                        state::noted_pid(
                            match pid_text {
                                Some(t) => Some(t@),
                                None => None,
                            },
                        ),
                        alive,
                    );
                    &&& r is Ok
                    &&& (r->Ok_0).line@ == json::rendered(d) + seq![10u8]
                    &&& json::reads_as((r->Ok_0).line@.drop_last(), d)
                    &&& (r->Ok_0).corrected is None
                },
                Some(b) => match json::json_text(b@) {
                    Err(why) => r is Err && (r->Err_0)@ == why && (r->Err_0).kind
                        == json::fault_kind(b@),
                    Ok(v) => r is Ok && state_report(v, alive, r->Ok_0),
                },
            }
        },
{
    if !container_there {
        return Err(absent_error(id));
    }
    let b = match bytes {
        Some(b) => b,
        None => {
            let pid = state_pid(None, pid_text);
            return Ok(StateReport { line: write_bare_state(id, pid, alive), corrected: None });
        },
    };
    let v = match parse_json(b) {
        Ok(v) => v,
        Err(e) => {
            return Err(e);
        },
    };
    let ghost said = v@;
    proof {
        if json::whole(said) {
            json::lemma_whole_tame(said, json::read_depth());
            if said is Object {
                json::lemma_put_tame(said, "status"@, JsonView::Str("stopped"@));
            }
        }
        if said is Object {
            json::lemma_put_orderly(said, "status"@, JsonView::Str("stopped"@));
        }
    }
    let status = get_text_or(v.get("status"), "created");
    let pid: i32 = get_i64_or(v.get("pid"), 0) as i32;
    if !str_eq(status.as_str(), "stopped") && pid > 0 && !alive {
        proof {
            assert(said is Object);
        }
        match set_member(v, "status", Json::Str(owned("stopped"))) {
            Some(d) => {
                let corrected = json::render_json(&d);
                return Ok(StateReport { line: render_line(&d), corrected: Some(corrected) });
            },
            // A document that names a pid is an object.
            None => {
                return Err(absent_error(id));
            },
        }
    }
    Ok(StateReport { line: render_line(&v), corrected: None })
}

/// The process to signal and the signal, for the text of a pid file and the name or number of a
/// signal.
pub fn cmd_kill(pid_text: &str, signal: &str) -> (r: Result<(i32, i32), Error>)
    ensures
        match state::pid_fault(pid_text@) {
            Some(f) => r is Err && (r->Err_0)@ == f && (r->Err_0).kind == ErrorKind::InvalidData,
            None => match signal::signal_of(signal@) {
                Err(f) => r is Err && (r->Err_0)@ == f,
                Ok(sig) => r is Ok && text::i32_value(text::trimmed(pid_text@)) == Some(
                    (r->Ok_0).0 as int,
                ) && (r->Ok_0).1 == sig,
            },
        },
{
    let pid = match read_pid(pid_text) {
        Ok(pid) => pid,
        Err(e) => {
            return Err(e);
        },
    };
    match parse_signal(signal) {
        Ok(sig) => Ok((pid, sig)),
        Err(e) => Err(e),
    }
}

/// Whether a signal that could not be sent counts as a failure. A process that is gone needs none.
pub fn kill_failed(errno: i32) -> (r: bool)
    ensures
        r == (errno != ESRCH),
{
    errno != ESRCH
}

/// A container that is listed: its name, and the bytes of its state file, where it has one.
pub struct Listed {
    pub name: String,
    pub state: Option<Vec<u8>>,
}

/// The line of a container that is listed; none for one without a state that can be read.
pub open spec fn list_line(l: Listed) -> Seq<char> {
    match l.state {
        Some(b) => match json::json_text(b@) {
            Ok(v) => l.name@ + "\t"@ + text::dec_int(
                json::i64_or(json::field(v, "pid"@), 0) as int,
            ) + "\t"@ + json::text_or(json::field(v, "status"@), ""@) + "\t"@ + json::text_or(
                json::field(v, "bundle"@),
                ""@,
            ) + "\t\t\n"@,
            Err(_) => ""@,
        },
        None => ""@,
    }
}

/// The lines of the containers that are listed.
pub open spec fn list_lines(ls: Seq<Listed>) -> Seq<char>
    decreases ls.len(),
{
    if ls.len() == 0 {
        "ID\tPID\tSTATUS\tBUNDLE\tCREATED\tOWNER\n"@
    } else {
        list_lines(ls.drop_last()) + list_line(ls.last())
    }
}

/// The table of containers.
pub fn cmd_list(ls: &Vec<Listed>) -> (s: String)
    ensures
        s@ == list_lines(ls@),
{
    let mut s = owned("ID\tPID\tSTATUS\tBUNDLE\tCREATED\tOWNER\n");
    let mut i: usize = 0;
    proof {
        assert(ls@.take(0) =~= Seq::<Listed>::empty());
        reveal_strlit("");
    }
    while i < ls.len()
        invariant
            i <= ls@.len(),
            s@ == list_lines(ls@.take(i as int)),
            ""@.len() == 0,
        decreases ls@.len() - i,
    {
        let ghost was = s@;
        proof {
            assert(ls@.take(i + 1).drop_last() =~= ls@.take(i as int));
            assert(ls@.take(i + 1).last() == ls@[i as int]);
        }
        match &ls[i].state {
            Some(b) => match parse_json(b.as_slice()) {
                Ok(v) => {
                    s.append(ls[i].name.as_str());
                    s.append("\t");
                    let pid = dec_i64(get_i64_or(v.get("pid"), 0));
                    s.append(pid.as_str());
                    s.append("\t");
                    let status = get_text_or(v.get("status"), "");
                    s.append(status.as_str());
                    s.append("\t");
                    let bundle = get_text_or(v.get("bundle"), "");
                    s.append(bundle.as_str());
                    s.append("\t\t\n");
                },
                Err(_) => {},
            },
            None => {},
        }
        i += 1;
        proof {
            assert(s@ =~= was + list_line(ls@[i - 1]));
        }
    }
    proof {
        assert(ls@.take(ls@.len() as int) =~= ls@);
    }
    s
}

/// What freezing or thawing a container takes: a write to a file of its cgroup, and the status it
/// has then.
pub struct FreezeRequest {
    pub file: String,
    pub content: String,
    pub status: String,
}

/// The message where a container that is to be frozen has no cgroup.
pub open spec fn unfreezable(id: Seq<char>) -> Seq<char> {
    "container "@ + id + " has no cgroup (was it created without resources?)"@
}

/// What freezing or thawing a container takes.
fn set_freeze(id: &str, has_cgroup: bool, content: &str, status: &str) -> (r: Result<
    FreezeRequest,
    Error,
>)
    ensures
        match r {
            Ok(q) => {
                &&& has_cgroup
                &&& q.file@ == cgroup::cgroup_dir(id@) + "/cgroup.freeze"@
                &&& q.content@ == content@
                &&& q.status@ == status@
            },
            Err(e) => !has_cgroup && e@ == unfreezable(id@),
        },
{
    if !has_cgroup {
        return Err(
            Error::new(cat3("container ", id, " has no cgroup (was it created without resources?)")),
        );
    }
    Ok(
        FreezeRequest {
            file: cat3("/sys/fs/cgroup/rsrun-", id, "/cgroup.freeze"),
            content: owned(content),
            status: owned(status),
        },
    )
}

/// Whether a request freezes a container, or lets it go on.
pub open spec fn freezes(q: FreezeRequest, frozen: bool) -> bool {
    if frozen {
        q.content@ == "1"@ && q.status@ == "paused"@
    } else {
        q.content@ == "0"@ && q.status@ == "running"@
    }
}

/// What pausing a container takes; `has_cgroup` says whether it has a cgroup.
pub fn cmd_pause(id: &str, has_cgroup: bool) -> (r: Result<FreezeRequest, Error>)
    ensures
        match r {
            Ok(q) => {
                &&& has_cgroup
                &&& q.file@ == cgroup::cgroup_dir(id@) + "/cgroup.freeze"@
                &&& freezes(q, true)
            },
            Err(e) => !has_cgroup && e@ == unfreezable(id@),
        },
{
    set_freeze(id, has_cgroup, "1", "paused")
}

/// What it takes to let a paused container go on.
pub fn cmd_resume(id: &str, has_cgroup: bool) -> (r: Result<FreezeRequest, Error>)
    ensures
        match r {
            Ok(q) => {
                &&& has_cgroup
                &&& q.file@ == cgroup::cgroup_dir(id@) + "/cgroup.freeze"@
                &&& freezes(q, false)
            },
            Err(e) => !has_cgroup && e@ == unfreezable(id@),
        },
{
    set_freeze(id, has_cgroup, "0", "running")
}

/// A resume undoes a pause: the state file of a running container says what it said, and the cgroup
/// was last told to go on. A fraction in the file may be read back as another one, or as too large to
/// be read.
pub proof fn law_resume_undoes_pause(
    bytes: Seq<u8>,
    v: JsonView,
    pause: FreezeRequest,
    paused: Seq<u8>,
    resume: FreezeRequest,
    resumed: Seq<u8>,
)
    requires
        json::reads_as(bytes, v),
        state::status_in(v) == Some("running"@),
        freezes(pause, true),
        state::amends(
            bytes,
            seq![state::text_member("status"@, pause.status@)],
            Ok(Some(paused)),
        ),
        freezes(resume, false),
        state::amends(
            paused,
            seq![state::text_member("status"@, resume.status@)],
            Ok(Some(resumed)),
        ),
    ensures
        json::reads_like(resumed, v),
        json::whole(v) ==> json::reads_as(resumed, v),
        resume.content@ == "0"@,
{
    let on = JsonView::Str("running"@);
    let off = JsonView::Str("paused"@);
    let first = seq![state::text_member("status"@, pause.status@)];
    let second = seq![state::text_member("status"@, resume.status@)];
    assert(first.drop_last() =~= Seq::<(Seq<char>, JsonView)>::empty());
    assert(second.drop_last() =~= Seq::<(Seq<char>, JsonView)>::empty());
    assert(state::amended(v, first.drop_last()) == Some(v));
    json::law_put_back(v, "status"@, on, off);
    let d = json::with_member(v, "status"@, off)->Some_0;
    assert(state::amended(v, first) == Some(d));
    assert(state::all_plain(first));
    let w = json::json_text(paused)->Ok_0;
    assert(json::alike(d, w));
    assert(state::amended(w, second.drop_last()) == Some(w));
    assert(state::all_plain(second));
    json::law_put_back_around_fractions(v, "status"@, on, off, w);
    let e = json::with_member(w, "status"@, on)->Some_0;
    assert(state::amended(w, second) == Some(e));
    if json::json_text(resumed) is Ok {
        json::lemma_alike_chain(v, e, json::json_text(resumed)->Ok_0);
    }
    if json::whole(v) {
        assert(w == d);
        json::lemma_whole_tame(v, json::read_depth());
    }
}

/// A hook that fails before the program runs ends what was going on: the container is not made, or
/// its process ends. By the time of the last two kinds the container runs or is gone, and their
/// failures are passed over.
pub proof fn law_hook_failures(i: usize, cause: Cause)
    requires
        cause == Cause::HookFork || cause == Cause::HookTimeout || cause == Cause::HookPoll || cause
            == Cause::HookWait || cause == Cause::HookExit || cause == Cause::HookSignal,
    ensures
        create::recovery(CreateOp::CreateRuntimeHooks) == Recovery::TearDown,
        create::recovery(CreateOp::PrestartHooks) == Recovery::TearDown,
        child::death_code(ChildOp::CreateHook(i), cause) is Some,
        child::death_code(ChildOp::StartHook(i), cause) is Some,
        !fails_start(StartOp::Poststart),
        !fails_delete(DeleteOp::Poststop),
{
}

/// A container of which only the pid was noted when its making was cut short can be told and
/// cleaned up: it is reported as being made while its process is there and as stopped afterwards,
/// it is not deleted by accident, and force removes it.
pub proof fn law_cut_short_recovered(id: Seq<char>, pid: int, alive: bool)
    requires
        0 < pid <= i32::MAX,
    ensures
        json::text_at(json::field(bare_state(id, pid, alive), "status"@)) == Some(
            if alive {
                "creating"@
            } else {
                "stopped"@
            },
        ),
        delete_verdict(id, true, false, Some("creating"@), pid, alive) is Ok == !alive,
        delete_verdict(id, true, true, Some("creating"@), pid, alive) == Ok::<bool, Seq<char>>(
            true,
        ),
        delete_ops(true, true).contains(DeleteOp::KillInit),
        delete_ops(true, true).contains(DeleteOp::RemoveState),
{
    lemma_bare_state(id, pid, alive);
    json::lemma_member_at(bare_state(id, pid, alive)->Object_0, 5);
    reveal_strlit("creating");
    reveal_strlit("stopped");
    assert("creating"@.len() == 8 && "stopped"@.len() == 7);
    let s = delete_ops(true, true);
    assert(s[1] == DeleteOp::KillInit);
    assert(s[s.len() - 1] == DeleteOp::RemoveState);
}

/// Where a step stands in a start.
pub open spec fn start_rank(op: StartOp) -> int {
    match op {
        StartOp::FindContainer => 0,
        StartOp::ReadPid => 1,
        StartOp::CheckTime => 2,
        StartOp::CheckPipe => 3,
        StartOp::OpenPipe => 4,
        StartOp::Signal => 5,
        StartOp::CheckTimeAgain => 6,
        StartOp::WriteRunning => 7,
        StartOp::Poststart => 8,
    }
}

/// A start takes every step, each in its turn, and only a hook after the start may fail unheeded.
pub proof fn law_start_takes_every_step(op: StartOp)
    ensures
        start_ops().contains(op),
        start_ops().len() == 9,
        start_ops()[start_rank(op)] == op,
        fails_start(op) <==> op != StartOp::Poststart,
        start_fault(op, Seq::empty()) is Some <==> op == StartOp::FindContainer || op
            == StartOp::CheckTime || op == StartOp::CheckTimeAgain || op == StartOp::CheckPipe,
{
    assert(start_ops()[start_rank(op)] == op);
}

/// When a container can be deleted. One that is not there can only with force, and there is nothing
/// to do; one whose process is alive, unless it is marked stopped, only with force.
pub proof fn law_when_deleted(
    id: Seq<char>,
    there: bool,
    force: bool,
    status: Option<Seq<char>>,
    pid: int,
    alive: bool,
)
    ensures
        ({
            let v = delete_verdict(id, there, force, status, pid, alive);
            let busy = alive && pid > 0 && status != Some("stopped"@);
            &&& v is Err <==> !force && (!there || busy)
            &&& v is Ok ==> v->Ok_0 == there
        }),
{
}

/// Which steps a deletion takes: the kill only with force, what concerns the process only where there
/// is one, and the rest always.
pub proof fn law_delete_steps(force: bool, has_pid: bool, x: DeleteOp)
    ensures
        delete_ops(force, has_pid).contains(x) <==> match x {
            DeleteOp::KillInit => force && has_pid,
            DeleteOp::KillCgroup => force && has_pid,
            DeleteOp::AwaitInit => has_pid,
            DeleteOp::AwaitGone => has_pid,
            _ => true,
        },
{
    let none = Seq::<DeleteOp>::empty();
    let p0 = seq![DeleteOp::CheckTime];
    assert(none + p0 =~= p0);
    steps::lemma_step_has(none, true, DeleteOp::CheckTime, x);
    let p1 = p0 + steps::when(force && has_pid, seq![DeleteOp::KillInit]);
    steps::lemma_step_has(p0, force && has_pid, DeleteOp::KillInit, x);
    let p2 = p1 + steps::when(force && has_pid, seq![DeleteOp::KillCgroup]);
    steps::lemma_step_has(p1, force && has_pid, DeleteOp::KillCgroup, x);
    let p3 = p2 + steps::when(has_pid, seq![DeleteOp::AwaitInit]);
    steps::lemma_step_has(p2, has_pid, DeleteOp::AwaitInit, x);
    let p4 = p3 + steps::when(has_pid, seq![DeleteOp::AwaitGone]);
    steps::lemma_step_has(p3, has_pid, DeleteOp::AwaitGone, x);
    let p5 = p4 + seq![DeleteOp::CheckTimeAgain];
    steps::lemma_step_has(p4, true, DeleteOp::CheckTimeAgain, x);
    let p6 = p5 + seq![DeleteOp::Poststop];
    steps::lemma_step_has(p5, true, DeleteOp::Poststop, x);
    let p7 = p6 + seq![DeleteOp::Unmount];
    steps::lemma_step_has(p6, true, DeleteOp::Unmount, x);
    let p8 = p7 + seq![DeleteOp::RemoveState];
    steps::lemma_step_has(p7, true, DeleteOp::RemoveState, x);
    assert(delete_ops(force, has_pid) == p8);
}

/// What may fail of a deletion without ending it, and what is noted in the state.
pub proof fn law_delete_failures(op: DeleteOp)
    ensures
        !fails_delete(op) <==> op == DeleteOp::KillInit || op == DeleteOp::KillCgroup || op
            == DeleteOp::Poststop,
        noted_failure(op) <==> op == DeleteOp::AwaitGone || op == DeleteOp::CheckTimeAgain || op
            == DeleteOp::Unmount,
        delete_fault(op) is Some <==> op == DeleteOp::CheckTime || op == DeleteOp::AwaitGone || op
            == DeleteOp::CheckTimeAgain,
{
}

/// How a wait for a process goes on: it is over where it is not bounded, where the process was reaped,
/// or where there is no such child; it goes on while the process runs and after an interruption;
/// and it fails otherwise.
pub proof fn law_wait_goes_on(bounded: bool, pid: int, rc: int, errno: i32)
    requires
        pid > 0,
    ensures
        !bounded ==> wait_verdict(bounded, pid, rc, errno) == WaitNext::Over,
        rc == pid ==> wait_verdict(bounded, pid, rc, errno) == WaitNext::Over,
        rc < 0 && errno == 10 ==> wait_verdict(bounded, pid, rc, errno) == WaitNext::Over,
        bounded && rc == 0 ==> wait_verdict(bounded, pid, rc, errno) == WaitNext::Again,
        bounded && rc < 0 && errno == 4 ==> wait_verdict(bounded, pid, rc, errno) == WaitNext::Again,
        bounded && rc < 0 && errno != 4 && errno != 10 ==> wait_verdict(bounded, pid, rc, errno)
            == WaitNext::Fail,
{
}

/// What is told of a container that has no state yet, member by member.
pub proof fn law_bare_state_says(id: Seq<char>, pid: int, alive: bool)
    requires
        i32::MIN <= pid <= i32::MAX,
    ensures
        ({
            let d = bare_state(id, pid, alive);
            &&& json::field(d, "id"@) == Some(JsonView::Str(id))
            &&& json::i64_at(json::field(d, "pid"@)) == Some(pid as i64)
            &&& json::field(d, "status"@) == Some(
                JsonView::Str(
                    if alive && pid > 0 {
                        "creating"@
                    } else {
                        "stopped"@
                    },
                ),
            )
            &&& json::field(d, "ociVersion"@) == Some(JsonView::Str("1.0.2"@))
            &&& json::text_at(json::field(d, "bundle"@)) matches Some(t) && t.len() == 0
        }),
{
    reveal_strlit("");
    reveal_strlit("annotations");
    reveal_strlit("bundle");
    reveal_strlit("id");
    reveal_strlit("ociVersion");
    reveal_strlit("pid");
    reveal_strlit("status");
    order::lemma_first_difference("annotations"@, "bundle"@, 0);
    order::lemma_first_difference("bundle"@, "id"@, 0);
    order::lemma_first_difference("id"@, "ociVersion"@, 0);
    order::lemma_first_difference("ociVersion"@, "pid"@, 0);
    order::lemma_first_difference("pid"@, "status"@, 0);
    let m = bare_state(id, pid, alive)->Object_0;
    json::lemma_adjacent_keys(m);
    json::lemma_members_at(m);
    assert(m[1].0 == "bundle"@);
    assert(m[2].0 == "id"@);
    assert(m[3].0 == "ociVersion"@);
    assert(m[4].0 == "pid"@);
    assert(m[5].0 == "status"@);
}

/// What is told of a container whose process is gone: that it is stopped. Otherwise the state is told
/// as it is kept.
pub proof fn law_dead_is_told_stopped(v: JsonView, alive: bool)
    requires
        v is Object,
    ensures
        !alive && state::pid_in(v) > 0 ==> state::status_in(reported(v, alive)) == Some("stopped"@),
        alive || state::pid_in(v) <= 0 ==> reported(v, alive) == v,
{
    json::law_put_one_member(
        v->Object_0,
        "status"@,
        JsonView::Str("stopped"@),
        "status"@,
    );
    reveal_strlit("created");
    reveal_strlit("stopped");
    assert("created"@[0] == 'c' && "stopped"@[0] == 's');
}

/// Whether a container can be listed: its state can be read.
pub open spec fn readable(l: Listed) -> bool {
    l.state matches Some(b) && json::json_text(b@) is Ok
}

/// What a list says of a container that can be read: its id, its process, its status and its bundle,
/// and nothing of when it was made and by whom.
pub open spec fn list_words(l: Listed) -> Seq<Seq<char>> {
    let v = json::json_text(l.state->Some_0@)->Ok_0;
    let none = Seq::<char>::empty();
    let pid = match json::i64_at(json::field(v, "pid"@)) {
        Some(n) => n as int,
        None => 0,
    };
    let status = match json::field(v, "status"@) {
        Some(JsonView::Str(t)) => t,
        _ => none,
    };
    let bundle = match json::field(v, "bundle"@) {
        Some(JsonView::Str(t)) => t,
        _ => none,
    };
    seq![l.name@, text::dec_int(pid), status, bundle, none, none]
}

/// The words of a list, one for each column.
pub open spec fn list_head() -> Seq<Seq<char>> {
    seq!["ID"@, "PID"@, "STATUS"@, "BUNDLE"@, "CREATED"@, "OWNER"@]
}

/// A list has one line for its head and one for each container whose state can be read, in their
/// order; the columns are set apart by tabs.
pub proof fn law_list_read_back(ls: Seq<Listed>)
    requires
        forall|i: int|
            0 <= i < ls.len() && readable(ls[i]) ==> !text::has_char(
                text::joined_texts(list_words(#[trigger] ls[i]), "\t"@),
                '\n',
            ),
    ensures
        text::pieces(list_lines(ls), '\n') == seq![text::joined_texts(list_head(), "\t"@)]
            + ls.filter(|l: Listed| readable(l)).map_values(
            |l: Listed| text::joined_texts(list_words(l), "\t"@),
        ) + seq![Seq::<char>::empty()],
    decreases ls.len(),
{
    reveal(Seq::filter);
    reveal_strlit("\t");
    reveal_strlit("\n");
    reveal_strlit("");
    let pass = |l: Listed| readable(l);
    let f = |l: Listed| text::joined_texts(list_words(l), "\t"@);
    let none = Seq::<char>::empty();
    let head = text::joined_texts(list_head(), "\t"@);
    if ls.len() == 0 {
        lemma_six(list_head());
        reveal_strlit("ID");
        reveal_strlit("PID");
        reveal_strlit("STATUS");
        reveal_strlit("BUNDLE");
        reveal_strlit("CREATED");
        reveal_strlit("OWNER");
        reveal_strlit("ID\tPID\tSTATUS\tBUNDLE\tCREATED\tOWNER\n");
        assert(list_lines(ls) =~= none + head + "\n"@);
        assert(!text::has_char(head, '\n'));
        text::lemma_line_split(none, head);
        assert(none + head =~= head);
        assert(text::pieces(list_lines(ls), '\n') =~= seq![head] + Seq::<Seq<char>>::empty() + seq![
            none,
        ]);
        assert(ls.filter(pass).map_values(f) =~= Seq::<Seq<char>>::empty());
    } else {
        let h = ls.drop_last();
        let l = ls.last();
        assert forall|i: int| 0 <= i < h.len() && readable(h[i]) implies !text::has_char(
            text::joined_texts(list_words(#[trigger] h[i]), "\t"@),
            '\n',
        ) by {
            assert(h[i] == ls[i]);
        }
        law_list_read_back(h);
        let before = list_lines(h);
        let p = text::pieces(before, '\n');
        let k = h.filter(pass);
        if readable(l) {
            assert(l == ls[ls.len() - 1]);
            let line = f(l);
            lemma_six(list_words(l));
            reveal_strlit("\t\t\n");
            assert(list_lines(ls) =~= before + line + "\n"@);
            text::lemma_line_split(before, line);
            assert(p.last() + line =~= line);
            assert(k.push(l).map_values(f) =~= k.map_values(f).push(line));
            assert(p.update(p.len() - 1, line).push(none) =~= seq![head] + k.map_values(f).push(
                line,
            ) + seq![none]);
        } else {
            assert(list_lines(ls) =~= before);
        }
    }
}

/// Six words with something between them.
proof fn lemma_six(w: Seq<Seq<char>>)
    requires
        w.len() == 6,
    ensures
        text::joined_texts(w, "\t"@) == w[0] + "\t"@ + w[1] + "\t"@ + w[2] + "\t"@ + w[3] + "\t"@
            + w[4] + "\t"@ + w[5],
{
    reveal_with_fuel(text::joined_texts, 6);
    let a = w.drop_last();
    let b = a.drop_last();
    let c = b.drop_last();
    let d = c.drop_last();
    let e = d.drop_last();
    assert(e.len() == 1 && e[0] == w[0]);
    assert(text::joined_texts(e, "\t"@) == w[0]);
    assert(text::joined_texts(d, "\t"@) == w[0] + "\t"@ + w[1]);
    assert(text::joined_texts(c, "\t"@) == w[0] + "\t"@ + w[1] + "\t"@ + w[2]);
    assert(text::joined_texts(b, "\t"@) == w[0] + "\t"@ + w[1] + "\t"@ + w[2] + "\t"@ + w[3]);
    assert(text::joined_texts(a, "\t"@) == w[0] + "\t"@ + w[1] + "\t"@ + w[2] + "\t"@ + w[3] + "\t"@
        + w[4]);
}

/// What freezing a container writes and notes, and what thawing it does.
pub proof fn law_freeze_told(q: FreezeRequest, r: FreezeRequest)
    requires
        freezes(q, true),
        freezes(r, false),
    ensures
        q.content@ == "1"@,
        r.content@ == "0"@,
        q.status@ == "paused"@,
        r.status@ == "running"@,
{
}

} // verus!
