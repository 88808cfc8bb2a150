//! Branching container state: snapshots, restores, forks, checkpoints and resets of layered roots.

use vstd::prelude::*;
use vstd::string::*;

use crate::error::Error;
use crate::hooks;
use crate::hooks::strings_to_json;
use crate::json;
use crate::json::{named, render_line, Json, JsonView};
use crate::markers;
use crate::order;
use crate::snapshot;
use crate::snapshot::validate_state_name;
use crate::state;
use crate::state::amend;
use crate::text;
use crate::text::{cat3, owned};

verus! {

/// What is done with the state of a container.
#[derive(Debug, Clone, Copy, PartialEq, Eq, Structural)]
pub enum RolloutKind {
    /// Keep the changes of a container.
    Snapshot,
    /// Make a container from a snapshot.
    Restore,
    /// Make a container like another.
    Fork,
    /// Keep the changes of a container as a layer.
    Checkpoint,
    /// Make a container on top of a checkpoint.
    ForkCheckpoint,
    /// Undo the changes of a container.
    Reset,
}

/// One step of it.
#[derive(Debug, Clone, Copy, PartialEq, Eq, Structural)]
pub enum RolloutOp {
    /// See that the container is there.
    FindContainer,
    /// See that nothing writes to the layer.
    CheckStopped,
    /// Read where the layers are.
    ReadLayers,
    /// Read which bundle it is; none counts as an empty name.
    ReadBundle,
    /// Read what was kept.
    ReadMeta,
    /// See that the new name is free.
    FindFree,
    /// See that the layer is not too large.
    Measure,
    /// Make the directory to keep it in.
    MakeStore,
    /// Make the state directory.
    MakeState,
    /// Copy the layer.
    CopyLayer,
    /// Keep it from being written.
    MakeReadonly,
    /// Unmount the layers.
    Unmount,
    /// Remove the changes, if there are any.
    RemoveUpper,
    /// Remove what the kernel prepared.
    RemoveWork,
    /// Make the directory of the changes.
    MakeUpper,
    /// Make the directory for the kernel.
    MakeWork,
    /// Make the directory to mount on.
    MakeMerged,
    /// See that the layers may be mounted.
    Validate,
    /// Mount the layers.
    Mount,
    /// Note where the layers are.
    WriteLayers,
    /// Note that the container is stopped.
    WriteStopped,
    /// Note the reset in the state.
    NoteReset,
    /// Note what was kept.
    WriteMeta,
}

/// The steps, in order.
pub open spec fn rollout_ops(kind: RolloutKind) -> Seq<RolloutOp> {
    match kind {
        RolloutKind::Snapshot => seq![
            RolloutOp::CheckStopped,
            RolloutOp::ReadLayers,
            RolloutOp::ReadBundle,
            RolloutOp::FindFree,
            RolloutOp::Measure,
            RolloutOp::MakeStore,
            RolloutOp::CopyLayer,
            RolloutOp::WriteMeta,
        ],
        RolloutKind::Restore => seq![
            RolloutOp::ReadMeta,
            RolloutOp::FindFree,
            RolloutOp::MakeState,
            RolloutOp::Measure,
            RolloutOp::CopyLayer,
            RolloutOp::MakeWork,
            RolloutOp::MakeMerged,
            RolloutOp::Validate,
            RolloutOp::Mount,
            RolloutOp::WriteLayers,
            RolloutOp::WriteStopped,
        ],
        RolloutKind::Fork => seq![
            RolloutOp::CheckStopped,
            RolloutOp::ReadLayers,
            RolloutOp::ReadBundle,
            RolloutOp::FindFree,
            RolloutOp::MakeState,
            RolloutOp::Measure,
            RolloutOp::CopyLayer,
            RolloutOp::MakeWork,
            RolloutOp::MakeMerged,
            RolloutOp::Validate,
            RolloutOp::Mount,
            RolloutOp::WriteLayers,
            RolloutOp::WriteStopped,
        ],
        RolloutKind::Checkpoint => seq![
            RolloutOp::CheckStopped,
            RolloutOp::ReadLayers,
            RolloutOp::ReadBundle,
            RolloutOp::FindFree,
            RolloutOp::Measure,
            RolloutOp::MakeStore,
            RolloutOp::CopyLayer,
            RolloutOp::MakeReadonly,
            RolloutOp::WriteMeta,
        ],
        RolloutKind::ForkCheckpoint => seq![
            RolloutOp::ReadMeta,
            RolloutOp::FindFree,
            RolloutOp::MakeState,
            RolloutOp::MakeUpper,
            RolloutOp::MakeWork,
            RolloutOp::MakeMerged,
            RolloutOp::Validate,
            RolloutOp::Mount,
            RolloutOp::WriteLayers,
            RolloutOp::WriteStopped,
        ],
        RolloutKind::Reset => seq![
            RolloutOp::FindContainer,
            RolloutOp::CheckStopped,
            RolloutOp::ReadLayers,
            RolloutOp::Unmount,
            RolloutOp::RemoveUpper,
            RolloutOp::RemoveWork,
            RolloutOp::MakeUpper,
            RolloutOp::MakeWork,
            RolloutOp::MakeMerged,
            RolloutOp::Mount,
            RolloutOp::WriteLayers,
            RolloutOp::NoteReset,
        ],
    }
}

/// Lays out the steps.
pub fn rollout_steps(kind: RolloutKind) -> (v: Vec<RolloutOp>)
    ensures
        v@ == rollout_ops(kind),
{
    let v = match kind {
        RolloutKind::Snapshot => vec![
            RolloutOp::CheckStopped,
            RolloutOp::ReadLayers,
            RolloutOp::ReadBundle,
            RolloutOp::FindFree,
            RolloutOp::Measure,
            RolloutOp::MakeStore,
            RolloutOp::CopyLayer,
            RolloutOp::WriteMeta,
        ],
        RolloutKind::Restore => vec![
            RolloutOp::ReadMeta,
            RolloutOp::FindFree,
            RolloutOp::MakeState,
            RolloutOp::Measure,
            RolloutOp::CopyLayer,
            RolloutOp::MakeWork,
            RolloutOp::MakeMerged,
            RolloutOp::Validate,
            RolloutOp::Mount,
            RolloutOp::WriteLayers,
            RolloutOp::WriteStopped,
        ],
        RolloutKind::Fork => vec![
            RolloutOp::CheckStopped,
            RolloutOp::ReadLayers,
            RolloutOp::ReadBundle,
            RolloutOp::FindFree,
            RolloutOp::MakeState,
            RolloutOp::Measure,
            RolloutOp::CopyLayer,
            RolloutOp::MakeWork,
            RolloutOp::MakeMerged,
            RolloutOp::Validate,
            RolloutOp::Mount,
            RolloutOp::WriteLayers,
            RolloutOp::WriteStopped,
        ],
        RolloutKind::Checkpoint => vec![
            RolloutOp::CheckStopped,
            RolloutOp::ReadLayers,
            RolloutOp::ReadBundle,
            RolloutOp::FindFree,
            RolloutOp::Measure,
            RolloutOp::MakeStore,
            RolloutOp::CopyLayer,
            RolloutOp::MakeReadonly,
            RolloutOp::WriteMeta,
        ],
        RolloutKind::ForkCheckpoint => vec![
            RolloutOp::ReadMeta,
            RolloutOp::FindFree,
            RolloutOp::MakeState,
            RolloutOp::MakeUpper,
            RolloutOp::MakeWork,
            RolloutOp::MakeMerged,
            RolloutOp::Validate,
            RolloutOp::Mount,
            RolloutOp::WriteLayers,
            RolloutOp::WriteStopped,
        ],
        RolloutKind::Reset => vec![
            RolloutOp::FindContainer,
            RolloutOp::CheckStopped,
            RolloutOp::ReadLayers,
            RolloutOp::Unmount,
            RolloutOp::RemoveUpper,
            RolloutOp::RemoveWork,
            RolloutOp::MakeUpper,
            RolloutOp::MakeWork,
            RolloutOp::MakeMerged,
            RolloutOp::Mount,
            RolloutOp::WriteLayers,
            RolloutOp::NoteReset,
        ],
    };
    proof {
        assert(v@ =~= rollout_ops(kind));
    }
    v
}

/// What is taken back where a step fails.
#[derive(Debug, Clone, Copy, PartialEq, Eq, Structural)]
pub enum Undo {
    Nothing,
    /// Remove what was kept.
    RemoveStore,
    /// Unmount the layers and remove the new container.
    TearDown,
}

/// What is taken back where a step of making a container fails.
pub open spec fn branch_undo(op: RolloutOp) -> Undo {
    match op {
        RolloutOp::Measure => Undo::TearDown,
        RolloutOp::CopyLayer => Undo::TearDown,
        RolloutOp::MakeUpper => Undo::TearDown,
        RolloutOp::MakeWork => Undo::TearDown,
        RolloutOp::MakeMerged => Undo::TearDown,
        RolloutOp::Validate => Undo::TearDown,
        RolloutOp::Mount => Undo::TearDown,
        RolloutOp::WriteLayers => Undo::TearDown,
        RolloutOp::WriteStopped => Undo::TearDown,
        _ => Undo::Nothing,
    }
}

/// What is taken back where a step fails.
pub open spec fn undo_of(kind: RolloutKind, op: RolloutOp) -> Undo {
    match (kind, op) {
        (RolloutKind::Snapshot, RolloutOp::CopyLayer) => Undo::RemoveStore,
        (RolloutKind::Checkpoint, RolloutOp::CopyLayer) => Undo::RemoveStore,
        (RolloutKind::Checkpoint, RolloutOp::MakeReadonly) => Undo::RemoveStore,
        (RolloutKind::Restore, op) => branch_undo(op),
        (RolloutKind::Fork, op) => branch_undo(op),
        (RolloutKind::ForkCheckpoint, op) => branch_undo(op),
        _ => Undo::Nothing,
    }
}

/// What is taken back where a step of making a container fails.
fn undo_branch(op: RolloutOp) -> (u: Undo)
    ensures
        u == branch_undo(op),
{
    match op {
        RolloutOp::Measure => Undo::TearDown,
        RolloutOp::CopyLayer => Undo::TearDown,
        RolloutOp::MakeUpper => Undo::TearDown,
        RolloutOp::MakeWork => Undo::TearDown,
        RolloutOp::MakeMerged => Undo::TearDown,
        RolloutOp::Validate => Undo::TearDown,
        RolloutOp::Mount => Undo::TearDown,
        RolloutOp::WriteLayers => Undo::TearDown,
        RolloutOp::WriteStopped => Undo::TearDown,
        _ => Undo::Nothing,
    }
}

/// Decides what is taken back where a step fails.
pub fn undo(kind: RolloutKind, op: RolloutOp) -> (u: Undo)
    ensures
        u == undo_of(kind, op),
{
    match (kind, op) {
        (RolloutKind::Snapshot, RolloutOp::CopyLayer) => Undo::RemoveStore,
        (RolloutKind::Checkpoint, RolloutOp::CopyLayer) => Undo::RemoveStore,
        (RolloutKind::Checkpoint, RolloutOp::MakeReadonly) => Undo::RemoveStore,
        (RolloutKind::Restore, op) => undo_branch(op),
        (RolloutKind::Fork, op) => undo_branch(op),
        (RolloutKind::ForkCheckpoint, op) => undo_branch(op),
        _ => Undo::Nothing,
    }
}

/// Whether a failure of the step ends it; others are passed over.
pub open spec fn rollout_fails(op: RolloutOp) -> bool {
    op != RolloutOp::ReadBundle && op != RolloutOp::NoteReset
}

/// Whether a failure of the step ends it.
pub fn fails(op: RolloutOp) -> (r: bool)
    ensures
        r == rollout_fails(op),
{
    match op {
        RolloutOp::ReadBundle => false,
        RolloutOp::NoteReset => false,
        _ => true,
    }
}

/// Once the state directory of a new container is there, a step that fails takes it away again.
pub proof fn law_no_half_made_branch(kind: RolloutKind, i: int, k: int)
    requires
        0 <= i < k < rollout_ops(kind).len(),
        rollout_ops(kind)[i] == RolloutOp::MakeState,
    ensures
        undo_of(kind, rollout_ops(kind)[k]) == Undo::TearDown,
{
}

/// A name that is taken is refused before anything is made, and what has the name stays as it is.
pub proof fn law_taken_name_untouched(kind: RolloutKind)
    ensures
        undo_of(kind, RolloutOp::FindFree) == Undo::Nothing,
        forall|i: int, k: int|
            0 <= i <= k < rollout_ops(kind).len() && #[trigger] rollout_ops(kind)[k]
                == RolloutOp::FindFree ==> #[trigger] rollout_ops(kind)[i] != RolloutOp::MakeState
                && rollout_ops(kind)[i] != RolloutOp::MakeStore,
{
}

/// Layers are validated before they are mounted.
pub proof fn law_validated_before_mounted(kind: RolloutKind, k: int)
    requires
        kind != RolloutKind::Reset,
        0 <= k < rollout_ops(kind).len(),
        rollout_ops(kind)[k] == RolloutOp::Mount,
    ensures
        k > 0,
        rollout_ops(kind)[k - 1] == RolloutOp::Validate,
{
}

/// The changes are removed only where nothing writes to them, and after they are unmounted.
pub proof fn law_reset_order(k: int)
    requires
        0 <= k < rollout_ops(RolloutKind::Reset).len(),
        rollout_ops(RolloutKind::Reset)[k] == RolloutOp::RemoveUpper,
    ensures
        rollout_ops(RolloutKind::Reset).take(k).contains(RolloutOp::CheckStopped),
        rollout_ops(RolloutKind::Reset).take(k).contains(RolloutOp::Unmount),
{
    let s = rollout_ops(RolloutKind::Reset).take(k);
    assert(s[1] == RolloutOp::CheckStopped);
    assert(s[3] == RolloutOp::Unmount);
}

/// A layer is copied only after it was measured, so that none is copied that is over the limits.
pub proof fn law_measured_before_copied(kind: RolloutKind, k: int)
    requires
        0 <= k < rollout_ops(kind).len(),
        rollout_ops(kind)[k] == RolloutOp::CopyLayer,
    ensures
        rollout_ops(kind).take(k).contains(RolloutOp::Measure),
{
    let s = rollout_ops(kind).take(k);
    match kind {
        RolloutKind::Snapshot => assert(s[4] == RolloutOp::Measure),
        RolloutKind::Restore => assert(s[3] == RolloutOp::Measure),
        RolloutKind::Fork => assert(s[5] == RolloutOp::Measure),
        RolloutKind::Checkpoint => assert(s[4] == RolloutOp::Measure),
        _ => {},
    }
}

/// A checkpoint is described, and so can be built on, only when its layer is whole and sealed.
pub proof fn law_checkpoint_sealed(k: int)
    requires
        0 <= k < rollout_ops(RolloutKind::Checkpoint).len(),
        rollout_ops(RolloutKind::Checkpoint)[k] == RolloutOp::WriteMeta,
    ensures
        rollout_ops(RolloutKind::Checkpoint).take(k).contains(RolloutOp::CopyLayer),
        rollout_ops(RolloutKind::Checkpoint).take(k).contains(RolloutOp::MakeReadonly),
{
    let s = rollout_ops(RolloutKind::Checkpoint).take(k);
    assert(s[6] == RolloutOp::CopyLayer);
    assert(s[7] == RolloutOp::MakeReadonly);
}

/// The first name that is wrong.
pub open spec fn names_fault(a: Option<Seq<char>>, b: Option<Seq<char>>) -> Option<Seq<char>> {
    match a {
        Some(f) => Some(f),
        None => b,
    }
}

/// The steps of a snapshot, unless its name is bad.
pub fn cmd_snapshot(snapshot_id: &str) -> (r: Result<Vec<RolloutOp>, Error>)
    ensures
        match r {
            Ok(v) => snapshot::name_fault(snapshot_id@, "snapshot id"@) is None && v@ == rollout_ops(
                RolloutKind::Snapshot,
            ),
            Err(e) => snapshot::name_fault(snapshot_id@, "snapshot id"@) == Some(e@),
        },
{
    match validate_state_name(snapshot_id, "snapshot id") {
        Ok(()) => Ok(rollout_steps(RolloutKind::Snapshot)),
        Err(e) => Err(e),
    }
}

/// The steps of restoring a snapshot, unless a name is bad.
pub fn cmd_restore(snapshot_id: &str, new_id: &str) -> (r: Result<Vec<RolloutOp>, Error>)
    ensures
        ({
            let f = names_fault(
                snapshot::name_fault(snapshot_id@, "snapshot id"@),
                snapshot::name_fault(new_id@, "container id"@),
            );
            match r {
                Ok(v) => f is None && v@ == rollout_ops(RolloutKind::Restore),
                Err(e) => f == Some(e@),
            }
        }),
{
    match validate_state_name(snapshot_id, "snapshot id") {
        Ok(()) => match validate_state_name(new_id, "container id") {
            Ok(()) => Ok(rollout_steps(RolloutKind::Restore)),
            Err(e) => Err(e),
        },
        Err(e) => Err(e),
    }
}

/// The steps of a fork, unless its name is bad.
pub fn cmd_fork(new_id: &str) -> (r: Result<Vec<RolloutOp>, Error>)
    ensures
        match r {
            Ok(v) => snapshot::name_fault(new_id@, "container id"@) is None && v@ == rollout_ops(
                RolloutKind::Fork,
            ),
            Err(e) => snapshot::name_fault(new_id@, "container id"@) == Some(e@),
        },
{
    match validate_state_name(new_id, "container id") {
        Ok(()) => Ok(rollout_steps(RolloutKind::Fork)),
        Err(e) => Err(e),
    }
}

/// The steps of a checkpoint, unless its name is bad.
pub fn cmd_checkpoint(checkpoint_id: &str) -> (r: Result<Vec<RolloutOp>, Error>)
    ensures
        match r {
            Ok(v) => snapshot::name_fault(checkpoint_id@, "checkpoint id"@) is None && v@ == rollout_ops(
                RolloutKind::Checkpoint,
            ),
            Err(e) => snapshot::name_fault(checkpoint_id@, "checkpoint id"@) == Some(e@),
        },
{
    match validate_state_name(checkpoint_id, "checkpoint id") {
        Ok(()) => Ok(rollout_steps(RolloutKind::Checkpoint)),
        Err(e) => Err(e),
    }
}

/// The steps of a fork of a checkpoint, unless a name is bad.
pub fn cmd_fork_checkpoint(checkpoint_id: &str, new_id: &str) -> (r: Result<Vec<RolloutOp>, Error>)
    ensures
        ({
            let f = names_fault(
                snapshot::name_fault(checkpoint_id@, "checkpoint id"@),
                snapshot::name_fault(new_id@, "container id"@),
            );
            match r {
                Ok(v) => f is None && v@ == rollout_ops(RolloutKind::ForkCheckpoint),
                Err(e) => f == Some(e@),
            }
        }),
{
    match validate_state_name(checkpoint_id, "checkpoint id") {
        Ok(()) => match validate_state_name(new_id, "container id") {
            Ok(()) => Ok(rollout_steps(RolloutKind::ForkCheckpoint)),
            Err(e) => Err(e),
        },
        Err(e) => Err(e),
    }
}

/// The steps of a reset.
pub fn cmd_reset() -> (v: Vec<RolloutOp>)
    ensures
        v@ == rollout_ops(RolloutKind::Reset),
{
    rollout_steps(RolloutKind::Reset)
}

/// What the new name is a name of.
pub open spec fn made_thing(kind: RolloutKind) -> Seq<char> {
    match kind {
        RolloutKind::Snapshot => "snapshot "@,
        RolloutKind::Checkpoint => "checkpoint "@,
        _ => "container "@,
    }
}

/// The error for a name that is taken.
pub fn taken(kind: RolloutKind, id: &str) -> (e: Error)
    ensures
        e@ == made_thing(kind) + id@ + " already exists"@,
{
    let thing = match kind {
        RolloutKind::Snapshot => "snapshot ",
        RolloutKind::Checkpoint => "checkpoint ",
        _ => "container ",
    };
    Error::new(cat3(thing, id, " already exists"))
}

/// The number of resets after one more; it stops at the largest.
pub open spec fn next_count(n: u64) -> u64 {
    if n < u64::MAX {
        (n + 1) as u64
    } else {
        n
    }
}

/// The number of resets after one more.
pub fn next_reset_count(n: u64) -> (m: u64)
    ensures
        m == next_count(n),
{
    n.saturating_add(1)
}

/// A marker from before a reset is told from one that counts: changes since it are not listed.
pub proof fn law_reset_outdates_markers(
    id: Seq<char>,
    name: Seq<char>,
    n: u64,
    ms: Seq<markers::MarkView>,
    since: Seq<char>,
)
    requires
        n < u64::MAX,
    ensures
        markers::marked(markers::marker_json(id, name, n, ms), since, next_count(n)) is Err,
        markers::marked(markers::marker_json(id, name, n, ms), since, n) == Ok::<
            Seq<markers::MarkView>,
            Seq<char>,
        >(ms),
{
    markers::law_marker_round_trip(id, name, n, ms);
}

/// The bytes of a state file after a reset.
pub fn note_reset(bytes: &[u8], count: u64) -> (r: Result<Option<Vec<u8>>, Error>)
    ensures
        state::amends(
            bytes@,
            seq![
                state::text_member("status"@, "stopped"@),
                ("rootfsResetCount"@, JsonView::UInt(count)),
            ],
            state::outcome(r),
        ),
        r is Err ==> (r->Err_0).kind == json::fault_kind(bytes@),
{
    let m = vec![
        named("status", Json::Str(owned("stopped"))),
        named("rootfsResetCount", Json::UInt(count)),
    ];
    proof {
        assert(json::member_views(m@) =~= seq![
            state::text_member("status"@, "stopped"@),
            ("rootfsResetCount"@, JsonView::UInt(count)),
        ]);
    }
    amend(bytes, m)
}

/// The report on a reset.
pub open spec fn reset_doc(
    id: Seq<char>,
    count: u64,
    upperdir: Seq<char>,
    workdir: Seq<char>,
    merged: Seq<char>,
) -> JsonView {
    JsonView::Object(
        seq![
            ("backend"@, JsonView::Str("overlayfs"@)),
            ("id"@, JsonView::Str(id)),
            ("merged"@, JsonView::Str(merged)),
            ("reset"@, JsonView::Bool(true)),
            ("resetCount"@, JsonView::UInt(count)),
            ("upperdir"@, JsonView::Str(upperdir)),
            ("workdir"@, JsonView::Str(workdir)),
        ],
    )
}

/// The keys are in order.
proof fn lemma_reset_doc(
    id: Seq<char>,
    count: u64,
    upperdir: Seq<char>,
    workdir: Seq<char>,
    merged: Seq<char>,
)
    ensures
        json::tame(reset_doc(id, count, upperdir, workdir, merged), json::read_depth()),
{
    reveal_strlit("backend");
    reveal_strlit("id");
    reveal_strlit("merged");
    reveal_strlit("reset");
    reveal_strlit("resetCount");
    reveal_strlit("upperdir");
    reveal_strlit("workdir");
    order::lemma_first_difference("backend"@, "id"@, 0);
    order::lemma_first_difference("id"@, "merged"@, 0);
    order::lemma_first_difference("merged"@, "reset"@, 0);
    order::lemma_prefix_before("reset"@, "resetCount"@);
    order::lemma_first_difference("resetCount"@, "upperdir"@, 0);
    order::lemma_first_difference("upperdir"@, "workdir"@, 0);
    let m = reset_doc(id, count, upperdir, workdir, merged)->Object_0;
    json::lemma_adjacent_keys(m);
    let d = (json::read_depth() - 1) as nat;
    assert forall|i: int| 0 <= i < m.len() implies json::tame((#[trigger] m[i]).1, d) by {
    }
}

/// The report on a reset.
pub fn reset_report(id: &str, count: u64, upperdir: &str, workdir: &str, merged: &str) -> (b: Vec<u8>)
    ensures
        b@ == json::rendered(reset_doc(id@, count, upperdir@, workdir@, merged@)) + seq![10u8],
        json::reads_as(b@.drop_last(), reset_doc(id@, count, upperdir@, workdir@, merged@)),
{
    let doc = Json::Object(
        vec![
            named("backend", Json::Str(owned("overlayfs"))),
            named("id", Json::Str(owned(id))),
            named("merged", Json::Str(owned(merged))),
            named("reset", Json::Bool(true)),
            named("resetCount", Json::UInt(count)),
            named("upperdir", Json::Str(owned(upperdir))),
            named("workdir", Json::Str(owned(workdir))),
        ],
    );
    proof {
        assert(doc@->Object_0 =~= reset_doc(id@, count, upperdir@, workdir@, merged@)->Object_0);
        lemma_reset_doc(id@, count, upperdir@, workdir@, merged@);
    }
    render_line(&doc)
}

/// The report on a restored snapshot.
pub open spec fn restore_doc(id: Seq<char>, snapshot: Seq<char>, merged: Seq<char>) -> JsonView {
    JsonView::Object(
        seq![
            ("backend"@, JsonView::Str("overlayfs"@)),
            ("id"@, JsonView::Str(id)),
            ("merged"@, JsonView::Str(merged)),
            ("restored"@, JsonView::Bool(true)),
            ("snapshot"@, JsonView::Str(snapshot)),
        ],
    )
}

/// The keys are in order.
proof fn lemma_restore_doc(id: Seq<char>, snapshot: Seq<char>, merged: Seq<char>)
    ensures
        json::tame(restore_doc(id, snapshot, merged), json::read_depth()),
{
    reveal_strlit("backend");
    reveal_strlit("id");
    reveal_strlit("merged");
    reveal_strlit("restored");
    reveal_strlit("snapshot");
    order::lemma_first_difference("backend"@, "id"@, 0);
    order::lemma_first_difference("id"@, "merged"@, 0);
    order::lemma_first_difference("merged"@, "restored"@, 0);
    order::lemma_first_difference("restored"@, "snapshot"@, 0);
    let m = restore_doc(id, snapshot, merged)->Object_0;
    json::lemma_adjacent_keys(m);
    let d = (json::read_depth() - 1) as nat;
    assert forall|i: int| 0 <= i < m.len() implies json::tame((#[trigger] m[i]).1, d) by {
    }
}

/// The report on a restored snapshot.
pub fn restore_report(id: &str, snapshot: &str, merged: &str) -> (b: Vec<u8>)
    ensures
        b@ == json::rendered(restore_doc(id@, snapshot@, merged@)) + seq![10u8],
        json::reads_as(b@.drop_last(), restore_doc(id@, snapshot@, merged@)),
{
    let doc = Json::Object(
        vec![
            named("backend", Json::Str(owned("overlayfs"))),
            named("id", Json::Str(owned(id))),
            named("merged", Json::Str(owned(merged))),
            named("restored", Json::Bool(true)),
            named("snapshot", Json::Str(owned(snapshot))),
        ],
    );
    proof {
        assert(doc@->Object_0 =~= restore_doc(id@, snapshot@, merged@)->Object_0);
        lemma_restore_doc(id@, snapshot@, merged@);
    }
    render_line(&doc)
}

/// The report on a fork.
pub open spec fn fork_doc(id: Seq<char>, source: Seq<char>, merged: Seq<char>) -> JsonView {
    JsonView::Object(
        seq![
            ("backend"@, JsonView::Str("overlayfs"@)),
            ("forked"@, JsonView::Bool(true)),
            ("id"@, JsonView::Str(id)),
            ("merged"@, JsonView::Str(merged)),
            ("source"@, JsonView::Str(source)),
        ],
    )
}

/// The keys are in order.
proof fn lemma_fork_doc(id: Seq<char>, source: Seq<char>, merged: Seq<char>)
    ensures
        json::tame(fork_doc(id, source, merged), json::read_depth()),
{
    reveal_strlit("backend");
    reveal_strlit("forked");
    reveal_strlit("id");
    reveal_strlit("merged");
    reveal_strlit("source");
    order::lemma_first_difference("backend"@, "forked"@, 0);
    order::lemma_first_difference("forked"@, "id"@, 0);
    order::lemma_first_difference("id"@, "merged"@, 0);
    order::lemma_first_difference("merged"@, "source"@, 0);
    let m = fork_doc(id, source, merged)->Object_0;
    json::lemma_adjacent_keys(m);
    let d = (json::read_depth() - 1) as nat;
    assert forall|i: int| 0 <= i < m.len() implies json::tame((#[trigger] m[i]).1, d) by {
    }
}

/// The report on a fork.
pub fn fork_report(id: &str, source: &str, merged: &str) -> (b: Vec<u8>)
    ensures
        b@ == json::rendered(fork_doc(id@, source@, merged@)) + seq![10u8],
        json::reads_as(b@.drop_last(), fork_doc(id@, source@, merged@)),
{
    let doc = Json::Object(
        vec![
            named("backend", Json::Str(owned("overlayfs"))),
            named("forked", Json::Bool(true)),
            named("id", Json::Str(owned(id))),
            named("merged", Json::Str(owned(merged))),
            named("source", Json::Str(owned(source))),
        ],
    );
    proof {
        assert(doc@->Object_0 =~= fork_doc(id@, source@, merged@)->Object_0);
        lemma_fork_doc(id@, source@, merged@);
    }
    render_line(&doc)
}

/// The report on a checkpoint.
pub open spec fn checkpoint_doc(
    id: Seq<char>,
    source: Seq<char>,
    layer: Seq<char>,
    lowerdirs: Seq<Seq<char>>,
    entries: u64,
    bytes: u64,
) -> JsonView {
    JsonView::Object(
        seq![
            ("backend"@, JsonView::Str("overlayfs"@)),
            ("bytes"@, JsonView::UInt(bytes)),
            ("checkpointed"@, JsonView::Bool(true)),
            ("entries"@, JsonView::UInt(entries)),
            ("id"@, JsonView::Str(id)),
            ("layer"@, JsonView::Str(layer)),
            ("lowerdirs"@, hooks::strings_json(lowerdirs)),
            ("source"@, JsonView::Str(source)),
        ],
    )
}

/// The keys are in order.
proof fn lemma_checkpoint_doc(
    id: Seq<char>,
    source: Seq<char>,
    layer: Seq<char>,
    lowerdirs: Seq<Seq<char>>,
    entries: u64,
    bytes: u64,
)
    ensures
        json::tame(checkpoint_doc(id, source, layer, lowerdirs, entries, bytes), json::read_depth()),
{
    reveal_strlit("backend");
    reveal_strlit("bytes");
    reveal_strlit("checkpointed");
    reveal_strlit("entries");
    reveal_strlit("id");
    reveal_strlit("layer");
    reveal_strlit("lowerdirs");
    reveal_strlit("source");
    order::lemma_first_difference("backend"@, "bytes"@, 1);
    order::lemma_first_difference("bytes"@, "checkpointed"@, 0);
    order::lemma_first_difference("checkpointed"@, "entries"@, 0);
    order::lemma_first_difference("entries"@, "id"@, 0);
    order::lemma_first_difference("id"@, "layer"@, 0);
    order::lemma_first_difference("layer"@, "lowerdirs"@, 1);
    order::lemma_first_difference("lowerdirs"@, "source"@, 0);
    let m = checkpoint_doc(id, source, layer, lowerdirs, entries, bytes)->Object_0;
    json::lemma_adjacent_keys(m);
    let d = (json::read_depth() - 1) as nat;
    hooks::lemma_strings_tame(lowerdirs, d);
    assert forall|i: int| 0 <= i < m.len() implies json::tame((#[trigger] m[i]).1, d) by {
    }
}

/// The report on a checkpoint.
pub fn checkpoint_report(
    id: &str,
    source: &str,
    layer: &str,
    lowerdirs: &Vec<String>,
    entries: u64,
    bytes: u64,
) -> (b: Vec<u8>)
    ensures
        b@ == json::rendered(
            checkpoint_doc(id@, source@, layer@, text::texts(lowerdirs@), entries, bytes),
        ) + seq![10u8],
        json::reads_as(
            b@.drop_last(),
            checkpoint_doc(id@, source@, layer@, text::texts(lowerdirs@), entries, bytes),
        ),
{
    let doc = Json::Object(
        vec![
            named("backend", Json::Str(owned("overlayfs"))),
            named("bytes", Json::UInt(bytes)),
            named("checkpointed", Json::Bool(true)),
            named("entries", Json::UInt(entries)),
            named("id", Json::Str(owned(id))),
            named("layer", Json::Str(owned(layer))),
            named("lowerdirs", strings_to_json(lowerdirs)),
            named("source", Json::Str(owned(source))),
        ],
    );
    proof {
        assert(
            doc@->Object_0 =~= checkpoint_doc(
                id@,
                source@,
                layer@,
                text::texts(lowerdirs@),
                entries,
                bytes,
            )->Object_0
        );
        lemma_checkpoint_doc(id@, source@, layer@, text::texts(lowerdirs@), entries, bytes);
    }
    render_line(&doc)
}

/// The report on a fork of a checkpoint.
pub open spec fn fork_checkpoint_doc(
    id: Seq<char>,
    checkpoint: Seq<char>,
    merged: Seq<char>,
    upperdir: Seq<char>,
    lowerdirs: Seq<Seq<char>>,
) -> JsonView {
    JsonView::Object(
        seq![
            ("backend"@, JsonView::Str("overlayfs"@)),
            ("checkpoint"@, JsonView::Str(checkpoint)),
            ("forked"@, JsonView::Bool(true)),
            ("id"@, JsonView::Str(id)),
            ("lowerdirs"@, hooks::strings_json(lowerdirs)),
            ("merged"@, JsonView::Str(merged)),
            ("upperdir"@, JsonView::Str(upperdir)),
        ],
    )
}

/// The keys are in order.
proof fn lemma_fork_checkpoint_doc(
    id: Seq<char>,
    checkpoint: Seq<char>,
    merged: Seq<char>,
    upperdir: Seq<char>,
    lowerdirs: Seq<Seq<char>>,
)
    ensures
        json::tame(fork_checkpoint_doc(id, checkpoint, merged, upperdir, lowerdirs), json::read_depth()),
{
    reveal_strlit("backend");
    reveal_strlit("checkpoint");
    reveal_strlit("forked");
    reveal_strlit("id");
    reveal_strlit("lowerdirs");
    reveal_strlit("merged");
    reveal_strlit("upperdir");
    order::lemma_first_difference("backend"@, "checkpoint"@, 0);
    order::lemma_first_difference("checkpoint"@, "forked"@, 0);
    order::lemma_first_difference("forked"@, "id"@, 0);
    order::lemma_first_difference("id"@, "lowerdirs"@, 0);
    order::lemma_first_difference("lowerdirs"@, "merged"@, 0);
    order::lemma_first_difference("merged"@, "upperdir"@, 0);
    let m = fork_checkpoint_doc(id, checkpoint, merged, upperdir, lowerdirs)->Object_0;
    json::lemma_adjacent_keys(m);
    let d = (json::read_depth() - 1) as nat;
    hooks::lemma_strings_tame(lowerdirs, d);
    assert forall|i: int| 0 <= i < m.len() implies json::tame((#[trigger] m[i]).1, d) by {
    }
}

/// The report on a fork of a checkpoint.
pub fn fork_checkpoint_report(
    id: &str,
    checkpoint: &str,
    merged: &str,
    upperdir: &str,
    lowerdirs: &Vec<String>,
) -> (b: Vec<u8>)
    ensures
        b@ == json::rendered(
            fork_checkpoint_doc(id@, checkpoint@, merged@, upperdir@, text::texts(lowerdirs@)),
        ) + seq![10u8],
        json::reads_as(
            b@.drop_last(),
            fork_checkpoint_doc(id@, checkpoint@, merged@, upperdir@, text::texts(lowerdirs@)),
        ),
{
    let doc = Json::Object(
        vec![
            named("backend", Json::Str(owned("overlayfs"))),
            named("checkpoint", Json::Str(owned(checkpoint))),
            named("forked", Json::Bool(true)),
            named("id", Json::Str(owned(id))),
            named("lowerdirs", strings_to_json(lowerdirs)),
            named("merged", Json::Str(owned(merged))),
            named("upperdir", Json::Str(owned(upperdir))),
        ],
    );
    proof {
        assert(
            doc@->Object_0 =~= fork_checkpoint_doc(
                id@,
                checkpoint@,
                merged@,
                upperdir@,
                text::texts(lowerdirs@),
            )->Object_0
        );
        lemma_fork_checkpoint_doc(id@, checkpoint@, merged@, upperdir@, text::texts(lowerdirs@));
    }
    render_line(&doc)
}

/// Where a step stands among the others, whatever is rolled out.
pub open spec fn rollout_rank(op: RolloutOp) -> int {
    match op {
        RolloutOp::FindContainer => 0,
        RolloutOp::CheckStopped => 1,
        RolloutOp::ReadMeta => 2,
        RolloutOp::ReadLayers => 3,
        RolloutOp::ReadBundle => 4,
        RolloutOp::Unmount => 5,
        RolloutOp::RemoveUpper => 6,
        RolloutOp::RemoveWork => 7,
        RolloutOp::FindFree => 8,
        RolloutOp::MakeState => 9,
        RolloutOp::Measure => 10,
        RolloutOp::MakeStore => 11,
        RolloutOp::CopyLayer => 12,
        RolloutOp::MakeReadonly => 13,
        RolloutOp::MakeUpper => 14,
        RolloutOp::MakeWork => 15,
        RolloutOp::MakeMerged => 16,
        RolloutOp::Validate => 17,
        RolloutOp::Mount => 18,
        RolloutOp::WriteLayers => 19,
        RolloutOp::WriteMeta => 20,
        RolloutOp::WriteStopped => 21,
        RolloutOp::NoteReset => 22,
    }
}

/// Whether a new container comes out of a rollout.
pub open spec fn makes_container(kind: RolloutKind) -> bool {
    kind == RolloutKind::Restore || kind == RolloutKind::Fork || kind == RolloutKind::ForkCheckpoint
}

/// Whether a layer is put into the store.
pub open spec fn keeps_layer(kind: RolloutKind) -> bool {
    kind == RolloutKind::Snapshot || kind == RolloutKind::Checkpoint
}

/// Whether the layers of a container are read.
pub open spec fn reads_container(kind: RolloutKind) -> bool {
    keeps_layer(kind) || kind == RolloutKind::Fork
}

/// Which steps a rollout takes: a container whose layers are read or reset must be still; a name
/// that is to be taken must be free; a copy is measured first; a new container is mounted and noted
/// as stopped; what is kept is noted, and sealed where it is a checkpoint. Every step comes once,
/// in its turn.
pub proof fn law_rollout_steps(kind: RolloutKind, op: RolloutOp, i: int, j: int)
    ensures
        rollout_ops(kind).contains(op) <==> match op {
            RolloutOp::FindContainer => kind == RolloutKind::Reset,
            RolloutOp::CheckStopped => reads_container(kind) || kind == RolloutKind::Reset,
            RolloutOp::ReadMeta => kind == RolloutKind::Restore || kind
                == RolloutKind::ForkCheckpoint,
            RolloutOp::ReadLayers => reads_container(kind) || kind == RolloutKind::Reset,
            RolloutOp::ReadBundle => reads_container(kind),
            RolloutOp::Unmount => kind == RolloutKind::Reset,
            RolloutOp::RemoveUpper => kind == RolloutKind::Reset,
            RolloutOp::RemoveWork => kind == RolloutKind::Reset,
            RolloutOp::FindFree => kind != RolloutKind::Reset,
            RolloutOp::MakeState => makes_container(kind),
            RolloutOp::Measure => kind != RolloutKind::Reset && kind != RolloutKind::ForkCheckpoint,
            RolloutOp::MakeStore => keeps_layer(kind),
            RolloutOp::CopyLayer => kind != RolloutKind::Reset && kind
                != RolloutKind::ForkCheckpoint,
            RolloutOp::MakeReadonly => kind == RolloutKind::Checkpoint,
            RolloutOp::MakeUpper => kind == RolloutKind::Reset || kind
                == RolloutKind::ForkCheckpoint,
            RolloutOp::MakeWork => !keeps_layer(kind),
            RolloutOp::MakeMerged => !keeps_layer(kind),
            RolloutOp::Validate => makes_container(kind),
            RolloutOp::Mount => !keeps_layer(kind),
            RolloutOp::WriteLayers => !keeps_layer(kind),
            RolloutOp::WriteMeta => keeps_layer(kind),
            RolloutOp::WriteStopped => makes_container(kind),
            RolloutOp::NoteReset => kind == RolloutKind::Reset,
        },
        0 <= i < j < rollout_ops(kind).len() ==> rollout_rank(rollout_ops(kind)[i]) < rollout_rank(
            rollout_ops(kind)[j],
        ),
{
    let ops = rollout_ops(kind);
    match kind {
        RolloutKind::Snapshot => {
            assert(ops[0] == RolloutOp::CheckStopped);
            assert(ops[1] == RolloutOp::ReadLayers);
            assert(ops[2] == RolloutOp::ReadBundle);
            assert(ops[3] == RolloutOp::FindFree);
            assert(ops[4] == RolloutOp::Measure);
            assert(ops[5] == RolloutOp::MakeStore);
            assert(ops[6] == RolloutOp::CopyLayer);
            assert(ops[7] == RolloutOp::WriteMeta);
        },
        RolloutKind::Restore => {
            assert(ops[0] == RolloutOp::ReadMeta);
            assert(ops[1] == RolloutOp::FindFree);
            assert(ops[2] == RolloutOp::MakeState);
            assert(ops[3] == RolloutOp::Measure);
            assert(ops[4] == RolloutOp::CopyLayer);
            assert(ops[5] == RolloutOp::MakeWork);
            assert(ops[6] == RolloutOp::MakeMerged);
            assert(ops[7] == RolloutOp::Validate);
            assert(ops[8] == RolloutOp::Mount);
            assert(ops[9] == RolloutOp::WriteLayers);
            assert(ops[10] == RolloutOp::WriteStopped);
        },
        RolloutKind::Fork => {
            assert(ops[0] == RolloutOp::CheckStopped);
            assert(ops[1] == RolloutOp::ReadLayers);
            assert(ops[2] == RolloutOp::ReadBundle);
            assert(ops[3] == RolloutOp::FindFree);
            assert(ops[4] == RolloutOp::MakeState);
            assert(ops[5] == RolloutOp::Measure);
            assert(ops[6] == RolloutOp::CopyLayer);
            assert(ops[7] == RolloutOp::MakeWork);
            assert(ops[8] == RolloutOp::MakeMerged);
            assert(ops[9] == RolloutOp::Validate);
            assert(ops[10] == RolloutOp::Mount);
            assert(ops[11] == RolloutOp::WriteLayers);
            assert(ops[12] == RolloutOp::WriteStopped);
        },
        RolloutKind::Checkpoint => {
            assert(ops[0] == RolloutOp::CheckStopped);
            assert(ops[1] == RolloutOp::ReadLayers);
            assert(ops[2] == RolloutOp::ReadBundle);
            assert(ops[3] == RolloutOp::FindFree);
            assert(ops[4] == RolloutOp::Measure);
            assert(ops[5] == RolloutOp::MakeStore);
            assert(ops[6] == RolloutOp::CopyLayer);
            assert(ops[7] == RolloutOp::MakeReadonly);
            assert(ops[8] == RolloutOp::WriteMeta);
        },
        RolloutKind::ForkCheckpoint => {
            assert(ops[0] == RolloutOp::ReadMeta);
            assert(ops[1] == RolloutOp::FindFree);
            assert(ops[2] == RolloutOp::MakeState);
            assert(ops[3] == RolloutOp::MakeUpper);
            assert(ops[4] == RolloutOp::MakeWork);
            assert(ops[5] == RolloutOp::MakeMerged);
            assert(ops[6] == RolloutOp::Validate);
            assert(ops[7] == RolloutOp::Mount);
            assert(ops[8] == RolloutOp::WriteLayers);
            assert(ops[9] == RolloutOp::WriteStopped);
        },
        RolloutKind::Reset => {
            assert(ops[0] == RolloutOp::FindContainer);
            assert(ops[1] == RolloutOp::CheckStopped);
            assert(ops[2] == RolloutOp::ReadLayers);
            assert(ops[3] == RolloutOp::Unmount);
            assert(ops[4] == RolloutOp::RemoveUpper);
            assert(ops[5] == RolloutOp::RemoveWork);
            assert(ops[6] == RolloutOp::MakeUpper);
            assert(ops[7] == RolloutOp::MakeWork);
            assert(ops[8] == RolloutOp::MakeMerged);
            assert(ops[9] == RolloutOp::Mount);
            assert(ops[10] == RolloutOp::WriteLayers);
            assert(ops[11] == RolloutOp::NoteReset);
        },
    }
}

/// What a failure takes back: what was put into the store, or the container that was being made;
/// and only a missing bundle and a note that cannot be written are passed over.
pub proof fn law_rollout_failures(kind: RolloutKind, op: RolloutOp)
    requires
        rollout_ops(kind).contains(op),
    ensures
        undo_of(kind, op) == Undo::RemoveStore <==> keeps_layer(kind) && (op == RolloutOp::CopyLayer
            || op == RolloutOp::MakeReadonly),
        undo_of(kind, op) == Undo::TearDown <==> makes_container(kind) && rollout_rank(op) > 9,
        rollout_fails(op) <==> op != RolloutOp::ReadBundle && op != RolloutOp::NoteReset,
{
    law_rollout_steps(kind, op, 0, 0);
}

/// Each reset counts one more, until no more can be counted.
pub proof fn law_resets_counted(n: u64)
    ensures
        n < u64::MAX ==> next_count(n) == n + 1,
        n == u64::MAX ==> next_count(n) == n,
{
}

/// What is complained of with a name that is taken names what it is.
pub proof fn law_taken_things(kind: RolloutKind)
    ensures
        kind == RolloutKind::Snapshot ==> made_thing(kind) == "snapshot "@,
        kind == RolloutKind::Checkpoint ==> made_thing(kind) == "checkpoint "@,
        kind != RolloutKind::Snapshot && kind != RolloutKind::Checkpoint ==> made_thing(kind)
            == "container "@,
{
}

/// What is reported of a reset, read back, each thing under its own name.
pub proof fn law_reset_reported(
    id: Seq<char>,
    count: u64,
    upperdir: Seq<char>,
    workdir: Seq<char>,
    merged: Seq<char>,
)
    ensures
        ({
            let d = reset_doc(id, count, upperdir, workdir, merged);
            &&& json::field(d, "backend"@) == Some(JsonView::Str("overlayfs"@))
            &&& json::field(d, "id"@) == Some(JsonView::Str(id))
            &&& json::field(d, "merged"@) == Some(JsonView::Str(merged))
            &&& json::field(d, "reset"@) == Some(JsonView::Bool(true))
            &&& json::field(d, "resetCount"@) == Some(JsonView::UInt(count))
            &&& json::field(d, "upperdir"@) == Some(JsonView::Str(upperdir))
            &&& json::field(d, "workdir"@) == Some(JsonView::Str(workdir))
        }),
{
    lemma_reset_doc(id, count, upperdir, workdir, merged);
    let m = reset_doc(id, count, upperdir, workdir, merged)->Object_0;
    json::lemma_members_at(m);
    assert(m[0].0 == "backend"@);
    assert(m[1].0 == "id"@);
    assert(m[2].0 == "merged"@);
    assert(m[3].0 == "reset"@);
    assert(m[4].0 == "resetCount"@);
    assert(m[5].0 == "upperdir"@);
    assert(m[6].0 == "workdir"@);
}

/// What is reported of a restored snapshot, read back.
pub proof fn law_restore_reported(
    id: Seq<char>,
    snapshot: Seq<char>,
    merged: Seq<char>,
)
    ensures
        ({
            let d = restore_doc(id, snapshot, merged);
            &&& json::field(d, "backend"@) == Some(JsonView::Str("overlayfs"@))
            &&& json::field(d, "id"@) == Some(JsonView::Str(id))
            &&& json::field(d, "merged"@) == Some(JsonView::Str(merged))
            &&& json::field(d, "restored"@) == Some(JsonView::Bool(true))
            &&& json::field(d, "snapshot"@) == Some(JsonView::Str(snapshot))
        }),
{
    lemma_restore_doc(id, snapshot, merged);
    let m = restore_doc(id, snapshot, merged)->Object_0;
    json::lemma_members_at(m);
    assert(m[0].0 == "backend"@);
    assert(m[1].0 == "id"@);
    assert(m[2].0 == "merged"@);
    assert(m[3].0 == "restored"@);
    assert(m[4].0 == "snapshot"@);
}

/// What is reported of a fork, read back.
pub proof fn law_fork_reported(
    id: Seq<char>,
    source: Seq<char>,
    merged: Seq<char>,
)
    ensures
        ({
            let d = fork_doc(id, source, merged);
            &&& json::field(d, "backend"@) == Some(JsonView::Str("overlayfs"@))
            &&& json::field(d, "forked"@) == Some(JsonView::Bool(true))
            &&& json::field(d, "id"@) == Some(JsonView::Str(id))
            &&& json::field(d, "merged"@) == Some(JsonView::Str(merged))
            &&& json::field(d, "source"@) == Some(JsonView::Str(source))
        }),
{
    lemma_fork_doc(id, source, merged);
    let m = fork_doc(id, source, merged)->Object_0;
    json::lemma_members_at(m);
    assert(m[0].0 == "backend"@);
    assert(m[1].0 == "forked"@);
    assert(m[2].0 == "id"@);
    assert(m[3].0 == "merged"@);
    assert(m[4].0 == "source"@);
}

/// What is reported of a checkpoint, read back.
pub proof fn law_checkpoint_reported(
    id: Seq<char>,
    source: Seq<char>,
    layer: Seq<char>,
    lowerdirs: Seq<Seq<char>>,
    entries: u64,
    bytes: u64,
)
    ensures
        ({
            let d = checkpoint_doc(id, source, layer, lowerdirs, entries, bytes);
            &&& json::field(d, "backend"@) == Some(JsonView::Str("overlayfs"@))
            &&& json::field(d, "bytes"@) == Some(JsonView::UInt(bytes))
            &&& json::field(d, "checkpointed"@) == Some(JsonView::Bool(true))
            &&& json::field(d, "entries"@) == Some(JsonView::UInt(entries))
            &&& json::field(d, "id"@) == Some(JsonView::Str(id))
            &&& json::field(d, "layer"@) == Some(JsonView::Str(layer))
            &&& json::lists_texts(json::field(d, "lowerdirs"@), lowerdirs)
            &&& json::field(d, "source"@) == Some(JsonView::Str(source))
        }),
{
    lemma_checkpoint_doc(id, source, layer, lowerdirs, entries, bytes);
    let m = checkpoint_doc(id, source, layer, lowerdirs, entries, bytes)->Object_0;
    json::lemma_members_at(m);
    assert(m[0].0 == "backend"@);
    assert(m[1].0 == "bytes"@);
    assert(m[2].0 == "checkpointed"@);
    assert(m[3].0 == "entries"@);
    assert(m[4].0 == "id"@);
    assert(m[5].0 == "layer"@);
    assert(m[6].0 == "lowerdirs"@);
    assert(m[7].0 == "source"@);
}

/// What is reported of a container made out of a checkpoint, read back.
pub proof fn law_fork_checkpoint_reported(
    id: Seq<char>,
    checkpoint: Seq<char>,
    merged: Seq<char>,
    upperdir: Seq<char>,
    lowerdirs: Seq<Seq<char>>,
)
    ensures
        ({
            let d = fork_checkpoint_doc(id, checkpoint, merged, upperdir, lowerdirs);
            &&& json::field(d, "backend"@) == Some(JsonView::Str("overlayfs"@))
            &&& json::field(d, "checkpoint"@) == Some(JsonView::Str(checkpoint))
            &&& json::field(d, "forked"@) == Some(JsonView::Bool(true))
            &&& json::field(d, "id"@) == Some(JsonView::Str(id))
            &&& json::lists_texts(json::field(d, "lowerdirs"@), lowerdirs)
            &&& json::field(d, "merged"@) == Some(JsonView::Str(merged))
            &&& json::field(d, "upperdir"@) == Some(JsonView::Str(upperdir))
        }),
{
    lemma_fork_checkpoint_doc(id, checkpoint, merged, upperdir, lowerdirs);
    let m = fork_checkpoint_doc(id, checkpoint, merged, upperdir, lowerdirs)->Object_0;
    json::lemma_members_at(m);
    assert(m[0].0 == "backend"@);
    assert(m[1].0 == "checkpoint"@);
    assert(m[2].0 == "forked"@);
    assert(m[3].0 == "id"@);
    assert(m[4].0 == "lowerdirs"@);
    assert(m[5].0 == "merged"@);
    assert(m[6].0 == "upperdir"@);
}

} // verus!
