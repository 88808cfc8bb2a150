//! Making a container: what the runtime does, in which order, and what it takes back where a step
//! fails.

use vstd::prelude::*;
use vstd::string::*;
use vstd::utf8::*;

use crate::bytes::copy_bytes;
use crate::child;
use crate::clone;
use crate::error::Error;
use crate::hooks;
use crate::hooks::save_hooks;
use crate::json;
use crate::path;
use crate::path::{file_name_of, join};
use crate::plan;
use crate::plan::{CompiledPlan, CreateOpts, ExtPlan, MountOp};
use crate::spec::{NamespaceEntry, NamespaceKind, Spec};
use crate::state;
use crate::state::{write_state, ContainerPaths};
use crate::steps;
use crate::steps::{push_if, push_one};
use crate::text;
use crate::text::{cat2, cat3, clone_opt, dec_i64, owned};

verus! {

/// A request to make a container.
pub struct CreateRequest {
    pub id: String,
    /// The bundle directory.
    pub bundle: String,
    pub pid_file: Option<String>,
    pub ext: ExtPlan,
    pub console_socket: Option<String>,
    pub opts: CreateOpts,
    pub timeout_ms: Option<u64>,
}

/// Asks for a container with what its bundle says and no more.
pub fn cmd_create(id: &str, bundle: &str, pid_file: &Option<String>) -> (q: CreateRequest)
    ensures
        q.id@ == id@,
        q.bundle@ == bundle@,
        text::opt_text(q.pid_file) == text::opt_text(*pid_file),
        q.ext.nothing(),
        q.console_socket is None,
        q.opts.preserve_fds == 0,
        !q.opts.no_pivot,
        q.timeout_ms is None,
{
    cmd_create_with_ext(id, bundle, pid_file, ExtPlan::default())
}

/// Asks for a container with limits, filters and hooks.
pub fn cmd_create_with_ext(id: &str, bundle: &str, pid_file: &Option<String>, ext: ExtPlan) -> (q:
    CreateRequest)
    ensures
        q.id@ == id@,
        q.bundle@ == bundle@,
        text::opt_text(q.pid_file) == text::opt_text(*pid_file),
        q.ext == ext,
        q.console_socket is None,
        q.opts.preserve_fds == 0,
        !q.opts.no_pivot,
        q.timeout_ms is None,
{
    cmd_create_full(id, bundle, pid_file, ext, &None, CreateOpts::default())
}

/// Asks for a container, with a socket on which an engine waits for its terminal and with options.
pub fn cmd_create_full(
    id: &str,
    bundle: &str,
    pid_file: &Option<String>,
    ext: ExtPlan,
    console_socket: &Option<String>,
    opts: CreateOpts,
) -> (q: CreateRequest)
    ensures
        q.id@ == id@,
        q.bundle@ == bundle@,
        text::opt_text(q.pid_file) == text::opt_text(*pid_file),
        q.ext == ext,
        text::opt_text(q.console_socket) == text::opt_text(*console_socket),
        q.opts == opts,
        q.timeout_ms is None,
{
    cmd_create_full_with_timeout(id, bundle, pid_file, ext, console_socket, opts, None)
}

/// Asks for a container within a time.
pub fn cmd_create_full_with_timeout(
    id: &str,
    bundle: &str,
    pid_file: &Option<String>,
    ext: ExtPlan,
    console_socket: &Option<String>,
    opts: CreateOpts,
    timeout_ms: Option<u64>,
) -> (q: CreateRequest)
    ensures
        q.id@ == id@,
        q.bundle@ == bundle@,
        text::opt_text(q.pid_file) == text::opt_text(*pid_file),
        q.ext == ext,
        text::opt_text(q.console_socket) == text::opt_text(*console_socket),
        q.opts == opts,
        q.timeout_ms == timeout_ms,
{
    CreateRequest {
        id: owned(id),
        bundle: owned(bundle),
        pid_file: clone_opt(pid_file),
        ext,
        console_socket: clone_opt(console_socket),
        opts,
        timeout_ms,
    }
}

/// The compiled bundle with what the request adds: its limits, filters and hooks, its console
/// socket, and whether the root is changed without `pivot_root`.
pub fn with_request(p: CompiledPlan, q: CreateRequest) -> (r: CompiledPlan)
    ensures
        r == (CompiledPlan {
            ext: q.ext,
            console_socket: q.console_socket,
            no_pivot: q.opts.no_pivot,
            ..p
        }),
{
    let mut r = p;
    r.ext = q.ext;
    r.console_socket = q.console_socket;
    r.no_pivot = q.opts.no_pivot;
    r
}

/// One thing the runtime does to make a container. A number is a place in the list it is about.
#[derive(Debug, Clone, Copy, PartialEq, Eq, Structural)]
pub enum CreateOp {
    /// See that there is time left.
    CheckDeadline,
    /// Open a namespace that is to be joined.
    OpenNamespace(usize),
    /// Hold its type against the declared one.
    CheckNamespace(usize),
    /// See that no container has the id.
    FindFree,
    /// Make the state directory.
    MakeState,
    /// Make the fifo on which the container waits for `start`.
    MakeFifo,
    /// Keep others from it.
    ModeFifo,
    /// Mount the layered root filesystem.
    MountOverlay,
    /// Note where its layers are.
    WriteOverlayState,
    /// Compile the bundle.
    CompilePlan,
    /// See that the path of the root filesystem can be handed to the kernel.
    CheckRootPath,
    /// Open the fifo for the container.
    OpenFifo,
    /// Open the file for its last words.
    OpenErrors,
    /// Make the pipe that tells it of the id maps.
    OpenSyncPipe,
    /// Make the cgroup.
    MakeCgroup,
    /// Write a limit.
    WriteKnob(usize),
    /// Put the device filter in force.
    AttachDevices,
    /// Run the createRuntime hooks.
    CreateRuntimeHooks,
    /// Run the prestart hooks.
    PrestartHooks,
    /// See that there is still time left.
    CheckDeadlineAgain,
    /// Make a terminal.
    OpenTerminal,
    /// Make the pipe for the pid of the process behind the process.
    OpenRelayPipe,
    /// Make the namespaces of the mounts with mapped ids.
    SpawnIdmapHelpers,
    /// Let descriptors through to the container.
    PreserveFds,
    /// Make the process.
    Clone,
    /// Hand the terminal to the engine.
    SendTerminal,
    /// Give up the right to change groups.
    DenySetgroups,
    /// Map the users.
    WriteUidMap,
    /// Map the groups.
    WriteGidMap,
    /// Tell the process of it.
    SignalMaps,
    /// Read the pid of the process behind the process.
    ReadInitPid,
    /// Note the pid.
    WriteInitPid,
    /// Write the pid where the engine wants it.
    WritePidFile,
    /// Note that the container is being made.
    WriteCreating,
    /// Put the process into the cgroup.
    JoinCgroup,
    /// Set how readily it is killed for memory.
    WriteOom,
    /// Set its scheduling class.
    ApplyScheduler,
    /// Keep the hooks that run later.
    WriteHooks,
    /// Note that the container is made.
    WriteCreated,
}

/// What follows a step that failed.
#[derive(Debug, Clone, Copy, PartialEq, Eq, Structural)]
pub enum Recovery {
    /// The next step; the failure does not count.
    PassOver,
    /// The request fails, and what is there stays.
    Leave,
    /// The request fails; the layered root is unmounted and the state removed.
    TearDown,
    /// The request fails; the process is killed and reaped first.
    KillAndTearDown,
}

/// What follows a step that failed. Once the process is there, every failure that counts kills it.
pub open spec fn recovery(op: CreateOp) -> Recovery {
    match op {
        CreateOp::CheckDeadline => Recovery::Leave,
        CreateOp::OpenNamespace(_) => Recovery::Leave,
        CreateOp::CheckNamespace(_) => Recovery::Leave,
        CreateOp::FindFree => Recovery::Leave,
        CreateOp::MakeState => Recovery::Leave,
        CreateOp::MakeFifo => Recovery::Leave,
        CreateOp::ModeFifo => Recovery::Leave,
        CreateOp::MountOverlay => Recovery::TearDown,
        CreateOp::WriteOverlayState => Recovery::TearDown,
        CreateOp::CompilePlan => Recovery::TearDown,
        CreateOp::CheckRootPath => Recovery::TearDown,
        CreateOp::OpenFifo => Recovery::Leave,
        CreateOp::OpenErrors => Recovery::Leave,
        CreateOp::OpenSyncPipe => Recovery::Leave,
        CreateOp::MakeCgroup => Recovery::TearDown,
        CreateOp::WriteKnob(_) => Recovery::PassOver,
        CreateOp::AttachDevices => Recovery::TearDown,
        CreateOp::CreateRuntimeHooks => Recovery::TearDown,
        CreateOp::PrestartHooks => Recovery::TearDown,
        CreateOp::CheckDeadlineAgain => Recovery::Leave,
        CreateOp::OpenTerminal => Recovery::Leave,
        CreateOp::OpenRelayPipe => Recovery::Leave,
        CreateOp::SpawnIdmapHelpers => Recovery::Leave,
        CreateOp::PreserveFds => Recovery::PassOver,
        CreateOp::Clone => Recovery::Leave,
        CreateOp::SendTerminal => Recovery::KillAndTearDown,
        CreateOp::DenySetgroups => Recovery::PassOver,
        CreateOp::WriteUidMap => Recovery::KillAndTearDown,
        CreateOp::WriteGidMap => Recovery::KillAndTearDown,
        CreateOp::SignalMaps => Recovery::KillAndTearDown,
        CreateOp::ReadInitPid => Recovery::KillAndTearDown,
        CreateOp::WriteInitPid => Recovery::KillAndTearDown,
        CreateOp::WritePidFile => Recovery::KillAndTearDown,
        CreateOp::WriteCreating => Recovery::KillAndTearDown,
        CreateOp::JoinCgroup => Recovery::PassOver,
        CreateOp::WriteOom => Recovery::PassOver,
        CreateOp::ApplyScheduler => Recovery::KillAndTearDown,
        CreateOp::WriteHooks => Recovery::KillAndTearDown,
        CreateOp::WriteCreated => Recovery::KillAndTearDown,
    }
}

/// Decides what follows a step that failed.
pub fn recover(op: CreateOp) -> (r: Recovery)
    ensures
        r == recovery(op),
{
    match op {
        CreateOp::CheckDeadline => Recovery::Leave,
        CreateOp::OpenNamespace(_) => Recovery::Leave,
        CreateOp::CheckNamespace(_) => Recovery::Leave,
        CreateOp::FindFree => Recovery::Leave,
        CreateOp::MakeState => Recovery::Leave,
        CreateOp::MakeFifo => Recovery::Leave,
        CreateOp::ModeFifo => Recovery::Leave,
        CreateOp::MountOverlay => Recovery::TearDown,
        CreateOp::WriteOverlayState => Recovery::TearDown,
        CreateOp::CompilePlan => Recovery::TearDown,
        CreateOp::CheckRootPath => Recovery::TearDown,
        CreateOp::OpenFifo => Recovery::Leave,
        CreateOp::OpenErrors => Recovery::Leave,
        CreateOp::OpenSyncPipe => Recovery::Leave,
        CreateOp::MakeCgroup => Recovery::TearDown,
        CreateOp::WriteKnob(_) => Recovery::PassOver,
        CreateOp::AttachDevices => Recovery::TearDown,
        CreateOp::CreateRuntimeHooks => Recovery::TearDown,
        CreateOp::PrestartHooks => Recovery::TearDown,
        CreateOp::CheckDeadlineAgain => Recovery::Leave,
        CreateOp::OpenTerminal => Recovery::Leave,
        CreateOp::OpenRelayPipe => Recovery::Leave,
        CreateOp::SpawnIdmapHelpers => Recovery::Leave,
        CreateOp::PreserveFds => Recovery::PassOver,
        CreateOp::Clone => Recovery::Leave,
        CreateOp::SendTerminal => Recovery::KillAndTearDown,
        CreateOp::DenySetgroups => Recovery::PassOver,
        CreateOp::WriteUidMap => Recovery::KillAndTearDown,
        CreateOp::WriteGidMap => Recovery::KillAndTearDown,
        CreateOp::SignalMaps => Recovery::KillAndTearDown,
        CreateOp::ReadInitPid => Recovery::KillAndTearDown,
        CreateOp::WriteInitPid => Recovery::KillAndTearDown,
        CreateOp::WritePidFile => Recovery::KillAndTearDown,
        CreateOp::WriteCreating => Recovery::KillAndTearDown,
        CreateOp::JoinCgroup => Recovery::PassOver,
        CreateOp::WriteOom => Recovery::PassOver,
        CreateOp::ApplyScheduler => Recovery::KillAndTearDown,
        CreateOp::WriteHooks => Recovery::KillAndTearDown,
        CreateOp::WriteCreated => Recovery::KillAndTearDown,
    }
}

/// The steps that hold the namespaces to be joined against their declared types.
pub open spec fn namespace_checks(v: Seq<NamespaceEntry>) -> Seq<CreateOp>
    decreases v.len(),
{
    if v.len() == 0 {
        Seq::empty()
    } else {
        let head = namespace_checks(v.drop_last());
        let i = (v.len() - 1) as usize;
        if v.last().path is Some {
            head + seq![CreateOp::OpenNamespace(i), CreateOp::CheckNamespace(i)]
        } else {
            head
        }
    }
}

/// What is done before the bundle is compiled: everything that can be wrong with the request is
/// looked at before anything is made.
pub open spec fn first_ops(s: Spec) -> Seq<CreateOp> {
    seq![CreateOp::CheckDeadline] + namespace_checks(s.namespaces@) + seq![CreateOp::FindFree]
        + seq![CreateOp::MakeState] + seq![CreateOp::MakeFifo] + seq![CreateOp::ModeFifo]
        + steps::when(s.rootfs_backend is Some, seq![CreateOp::MountOverlay])
        + steps::when(s.rootfs_backend is Some, seq![CreateOp::WriteOverlayState])
        + seq![CreateOp::CompilePlan] + seq![CreateOp::CheckRootPath]
}

/// Adds the steps that hold the namespaces against their types.
fn push_namespace_checks(v: &mut Vec<CreateOp>, ns: &Vec<NamespaceEntry>)
    ensures
        final(v)@ == old(v)@ + namespace_checks(ns@),
{
    let ghost was = v@;
    let mut i: usize = 0;
    proof {
        assert(ns@.subrange(0, 0) =~= Seq::<NamespaceEntry>::empty());
        assert(v@ =~= was + namespace_checks(ns@.subrange(0, 0)));
    }
    while i < ns.len()
        invariant
            i <= ns.len(),
            v@ == was + namespace_checks(ns@.subrange(0, i as int)),
        decreases ns.len() - i,
    {
        let ghost before = v@;
        proof {
            let part = ns@.subrange(0, i + 1);
            assert(part.drop_last() =~= ns@.subrange(0, i as int));
            assert(part.last() == ns@[i as int]);
        }
        if ns[i].path.is_some() {
            v.push(CreateOp::OpenNamespace(i));
            v.push(CreateOp::CheckNamespace(i));
            proof {
                assert(v@ =~= was + (namespace_checks(ns@.subrange(0, i as int)) + seq![
                    CreateOp::OpenNamespace(i),
                    CreateOp::CheckNamespace(i),
                ]));
            }
        }
        i += 1;
    }
    proof {
        assert(ns@.subrange(0, ns@.len() as int) =~= ns@);
    }
}

/// Lays out what is done before the bundle is compiled.
pub fn create_first(s: &Spec) -> (v: Vec<CreateOp>)
    ensures
        v@ == first_ops(*s),
{
    let overlay = s.rootfs_backend.is_some();
    let mut v: Vec<CreateOp> = Vec::new();
    push_one(&mut v, CreateOp::CheckDeadline);
    proof {
        assert(v@ =~= seq![CreateOp::CheckDeadline]);
    }
    push_namespace_checks(&mut v, &s.namespaces);
    push_one(&mut v, CreateOp::FindFree);
    push_one(&mut v, CreateOp::MakeState);
    push_one(&mut v, CreateOp::MakeFifo);
    push_one(&mut v, CreateOp::ModeFifo);
    push_if(&mut v, overlay, CreateOp::MountOverlay);
    push_if(&mut v, overlay, CreateOp::WriteOverlayState);
    push_one(&mut v, CreateOp::CompilePlan);
    push_one(&mut v, CreateOp::CheckRootPath);
    v
}

/// Whether the container gets a terminal.
pub open spec fn makes_terminal(p: CompiledPlan) -> bool {
    p.terminal && p.console_socket is Some
}

/// A step for each of the first `n` limits.
pub open spec fn knobs(n: nat) -> Seq<CreateOp> {
    Seq::new(n, |i: int| CreateOp::WriteKnob(i as usize))
}

/// A step for each limit of the cgroup.
pub open spec fn knob_steps(p: CompiledPlan) -> Seq<CreateOp> {
    steps::when(p.ext.cgroup_v2_path is Some, knobs(p.ext.cgroup_v2_writes@.len()))
}

/// What is done to make the process. The hooks run before it is there.
pub open spec fn before_clone_ops(p: CompiledPlan, opts: CreateOpts) -> Seq<CreateOp> {
    seq![CreateOp::OpenFifo] + seq![CreateOp::OpenErrors]
        + steps::when(p.wants_userns, seq![CreateOp::OpenSyncPipe])
        + steps::when(p.ext.cgroup_v2_path is Some, seq![CreateOp::MakeCgroup]) + knob_steps(p)
        + steps::when(
            p.ext.cgroup_v2_path is Some && p.ext.device_cgroup_bpf@.len() > 0,
            seq![CreateOp::AttachDevices],
        )
        + seq![CreateOp::CreateRuntimeHooks] + seq![CreateOp::PrestartHooks]
        + seq![CreateOp::CheckDeadlineAgain]
        + steps::when(makes_terminal(p), seq![CreateOp::OpenTerminal])
        + steps::when(child::joins_pid(p), seq![CreateOp::OpenRelayPipe])
        + seq![CreateOp::SpawnIdmapHelpers]
        + steps::when(opts.preserve_fds > 0, seq![CreateOp::PreserveFds]) + seq![CreateOp::Clone]
}

/// Adds a step for each limit.
fn push_knobs(v: &mut Vec<CreateOp>, b: bool, n: usize)
    ensures
        final(v)@ == old(v)@ + steps::when(b, knobs(n as nat)),
{
    let ghost was = v@;
    let mut i: usize = 0;
    let m: usize = if b {
        n
    } else {
        0
    };
    proof {
        assert(v@ =~= was + knobs(0));
    }
    while i < m
        invariant
            i <= m,
            v@ == was + knobs(i as nat),
        decreases m - i,
    {
        v.push(CreateOp::WriteKnob(i));
        i += 1;
        proof {
            assert(v@ =~= was + knobs(i as nat));
        }
    }
    proof {
        assert(v@ =~= was + steps::when(b, knobs(n as nat)));
    }
}

/// Whether a pid namespace is joined.
fn joins_pid_namespace(p: &CompiledPlan) -> (r: bool)
    ensures
        r == child::joins_pid(*p),
{
    let mut i: usize = 0;
    while i < p.join_namespaces.len()
        invariant
            i <= p.join_namespaces@.len(),
            forall|k: int| 0 <= k < i ==> (#[trigger] p.join_namespaces@[k]).0
                != NamespaceKind::Pid,
        decreases p.join_namespaces@.len() - i,
    {
        if p.join_namespaces[i].0 == NamespaceKind::Pid {
            return true;
        }
        i += 1;
    }
    false
}

/// Lays out what is done to make the process.
pub fn create_before_clone(p: &CompiledPlan, opts: &CreateOpts) -> (v: Vec<CreateOp>)
    ensures
        v@ == before_clone_ops(*p, *opts),
{
    let cgroup = p.ext.cgroup_v2_path.is_some();
    let tty = p.terminal && p.console_socket.is_some();
    let joins = joins_pid_namespace(p);
    let mut v: Vec<CreateOp> = Vec::new();
    push_one(&mut v, CreateOp::OpenFifo);
    proof {
        assert(v@ =~= seq![CreateOp::OpenFifo]);
    }
    push_one(&mut v, CreateOp::OpenErrors);
    push_if(&mut v, p.wants_userns, CreateOp::OpenSyncPipe);
    push_if(&mut v, cgroup, CreateOp::MakeCgroup);
    push_knobs(&mut v, cgroup, p.ext.cgroup_v2_writes.len());
    push_if(&mut v, cgroup && p.ext.device_cgroup_bpf.len() > 0, CreateOp::AttachDevices);
    push_one(&mut v, CreateOp::CreateRuntimeHooks);
    push_one(&mut v, CreateOp::PrestartHooks);
    push_one(&mut v, CreateOp::CheckDeadlineAgain);
    push_if(&mut v, tty, CreateOp::OpenTerminal);
    push_if(&mut v, joins, CreateOp::OpenRelayPipe);
    push_one(&mut v, CreateOp::SpawnIdmapHelpers);
    push_if(&mut v, opts.preserve_fds > 0, CreateOp::PreserveFds);
    push_one(&mut v, CreateOp::Clone);
    v
}

/// What the process is given once it is there: the terminal goes to the engine, and the id maps are
/// written.
pub open spec fn hand_over(p: CompiledPlan) -> Seq<CreateOp> {
    steps::when(makes_terminal(p), seq![CreateOp::SendTerminal])
        + steps::when(p.wants_userns, seq![CreateOp::DenySetgroups])
        + steps::when(p.wants_userns, seq![CreateOp::WriteUidMap])
        + steps::when(p.wants_userns, seq![CreateOp::WriteGidMap])
        + steps::when(p.wants_userns, seq![CreateOp::SignalMaps])
}

/// The steps before the pid of the container's first process is known. Where no pid namespace is
/// joined it is known at once.
pub open spec fn before_pid(p: CompiledPlan) -> Seq<CreateOp> {
    steps::when(child::joins_pid(p), hand_over(p) + seq![CreateOp::ReadInitPid])
}

/// The steps that make the process findable for `delete`.
pub open spec fn note_ops(pid_file: bool) -> Seq<CreateOp> {
    seq![CreateOp::WriteInitPid] + steps::when(pid_file, seq![CreateOp::WritePidFile]) + seq![
        CreateOp::WriteCreating,
    ]
}

/// The steps after that.
pub open spec fn after_pid(p: CompiledPlan, in_cgroup: bool) -> Seq<CreateOp> {
    steps::when(!child::joins_pid(p), hand_over(p))
        + steps::when(p.ext.cgroup_v2_path is Some && !in_cgroup, seq![CreateOp::JoinCgroup])
        + steps::when(p.oom_score_adj is Some, seq![CreateOp::WriteOom])
        + steps::when(p.scheduler is Some, seq![CreateOp::ApplyScheduler])
        + steps::when(!p.ext.hooks.none(), seq![CreateOp::WriteHooks])
        + seq![CreateOp::WriteCreated]
}

/// What is done once the process is there; `in_cgroup` says whether it was made in the cgroup.
pub open spec fn after_clone_ops(p: CompiledPlan, in_cgroup: bool, pid_file: bool) -> Seq<CreateOp> {
    before_pid(p) + note_ops(pid_file) + after_pid(p, in_cgroup)
}

/// Adds the steps that hand the process its terminal and maps.
fn push_hand_over(v: &mut Vec<CreateOp>, b: bool, p: &CompiledPlan)
    ensures
        final(v)@ == old(v)@ + steps::when(b, hand_over(*p)),
{
    let ghost was = v@;
    if b {
        let tty = p.terminal && p.console_socket.is_some();
        let mut w: Vec<CreateOp> = Vec::new();
        push_if(&mut w, tty, CreateOp::SendTerminal);
        proof {
            assert(w@ =~= steps::when(tty, seq![CreateOp::SendTerminal]));
        }
        push_if(&mut w, p.wants_userns, CreateOp::DenySetgroups);
        push_if(&mut w, p.wants_userns, CreateOp::WriteUidMap);
        push_if(&mut w, p.wants_userns, CreateOp::WriteGidMap);
        push_if(&mut w, p.wants_userns, CreateOp::SignalMaps);
        v.append(&mut w);
    } else {
        proof {
            assert(v@ =~= was + steps::when(b, hand_over(*p)));
        }
    }
}

/// Lays out what is done once the process is there.
pub fn create_after_clone(p: &CompiledPlan, in_cgroup: bool, pid_file: bool) -> (v: Vec<CreateOp>)
    ensures
        v@ == after_clone_ops(*p, in_cgroup, pid_file),
{
    let joins = joins_pid_namespace(p);
    let mut v: Vec<CreateOp> = Vec::new();
    push_hand_over(&mut v, joins, p);
    push_if(&mut v, joins, CreateOp::ReadInitPid);
    proof {
        assert(v@ =~= before_pid(*p));
    }
    push_one(&mut v, CreateOp::WriteInitPid);
    push_if(&mut v, pid_file, CreateOp::WritePidFile);
    push_one(&mut v, CreateOp::WriteCreating);
    proof {
        steps::lemma_assoc(
            before_pid(*p),
            seq![CreateOp::WriteInitPid],
            steps::when(pid_file, seq![CreateOp::WritePidFile]),
        );
        steps::lemma_assoc(
            before_pid(*p),
            seq![CreateOp::WriteInitPid] + steps::when(pid_file, seq![CreateOp::WritePidFile]),
            seq![CreateOp::WriteCreating],
        );
    }
    let mut w: Vec<CreateOp> = Vec::new();
    push_hand_over(&mut w, !joins, p);
    proof {
        assert(w@ =~= steps::when(!joins, hand_over(*p)));
    }
    push_if(&mut w, p.ext.cgroup_v2_path.is_some() && !in_cgroup, CreateOp::JoinCgroup);
    push_if(&mut w, p.oom_score_adj.is_some(), CreateOp::WriteOom);
    push_if(&mut w, p.scheduler.is_some(), CreateOp::ApplyScheduler);
    push_if(&mut w, !p.ext.hooks.is_empty(), CreateOp::WriteHooks);
    push_one(&mut w, CreateOp::WriteCreated);
    v.append(&mut w);
    v
}

/// What a bundle does not ask for costs nothing: one without a user namespace, limits, a terminal,
/// a pid namespace to join or descriptors to pass on is made with these steps alone.
pub proof fn law_nothing_extra(p: CompiledPlan, opts: CreateOpts)
    requires
        !p.wants_userns,
        p.ext.cgroup_v2_path is None,
        !p.terminal,
        !child::joins_pid(p),
        opts.preserve_fds == 0,
        p.oom_score_adj is None,
        p.scheduler is None,
        p.ext.hooks.none(),
    ensures
        before_clone_ops(p, opts) == seq![
            CreateOp::OpenFifo,
            CreateOp::OpenErrors,
            CreateOp::CreateRuntimeHooks,
            CreateOp::PrestartHooks,
            CreateOp::CheckDeadlineAgain,
            CreateOp::SpawnIdmapHelpers,
            CreateOp::Clone,
        ],
        after_clone_ops(p, false, false) == seq![
            CreateOp::WriteInitPid,
            CreateOp::WriteCreating,
            CreateOp::WriteCreated,
        ],
{
    assert(before_clone_ops(p, opts) =~= seq![
        CreateOp::OpenFifo,
        CreateOp::OpenErrors,
        CreateOp::CreateRuntimeHooks,
        CreateOp::PrestartHooks,
        CreateOp::CheckDeadlineAgain,
        CreateOp::SpawnIdmapHelpers,
        CreateOp::Clone,
    ]);
    assert(after_clone_ops(p, false, false) =~= seq![
        CreateOp::WriteInitPid,
        CreateOp::WriteCreating,
        CreateOp::WriteCreated,
    ]);
}

/// The place of a step in the order of making a container, up to the process.
pub open spec fn create_rank(op: CreateOp) -> int {
    match op {
        CreateOp::CheckDeadline => 0,
        CreateOp::OpenNamespace(_) => 1,
        CreateOp::CheckNamespace(_) => 1,
        CreateOp::FindFree => 3,
        CreateOp::MakeState => 4,
        CreateOp::MakeFifo => 5,
        CreateOp::ModeFifo => 6,
        CreateOp::MountOverlay => 7,
        CreateOp::WriteOverlayState => 8,
        CreateOp::CompilePlan => 9,
        CreateOp::CheckRootPath => 10,
        CreateOp::OpenFifo => 11,
        CreateOp::OpenErrors => 12,
        CreateOp::OpenSyncPipe => 13,
        CreateOp::MakeCgroup => 14,
        CreateOp::WriteKnob(_) => 15,
        CreateOp::AttachDevices => 16,
        CreateOp::CreateRuntimeHooks => 17,
        CreateOp::PrestartHooks => 18,
        CreateOp::CheckDeadlineAgain => 19,
        CreateOp::OpenTerminal => 20,
        CreateOp::OpenRelayPipe => 21,
        CreateOp::SpawnIdmapHelpers => 22,
        CreateOp::PreserveFds => 23,
        CreateOp::Clone => 24,
        _ => 25,
    }
}

/// The rank as a function.
pub open spec fn create_ranks() -> spec_fn(CreateOp) -> int {
    |op: CreateOp| create_rank(op)
}

/// The checks of namespaces all have one rank.
proof fn lemma_namespace_checks(v: Seq<NamespaceEntry>)
    ensures
        steps::rising(namespace_checks(v), create_ranks(), 1, 1),
    decreases v.len(),
{
    if v.len() == 0 {
        steps::lemma_level(namespace_checks(v), create_ranks(), 1);
    } else {
        lemma_namespace_checks(v.drop_last());
        let i = (v.len() - 1) as usize;
        let pair = seq![CreateOp::OpenNamespace(i), CreateOp::CheckNamespace(i)];
        steps::lemma_level(pair, create_ranks(), 1);
        steps::lemma_rising(namespace_checks(v.drop_last()), pair, create_ranks(), 1, 1, 1, 1);
    }
}

/// The first steps are in order.
proof fn lemma_first_order(s: Spec)
    ensures
        steps::rising(first_ops(s), create_ranks(), 0, 10),
{
    let r = create_ranks();
    let s0 = seq![CreateOp::CheckDeadline];
    steps::lemma_one(CreateOp::CheckDeadline, r, 0);
    lemma_namespace_checks(s.namespaces@);
    let t0 = s0 + namespace_checks(s.namespaces@);
    steps::lemma_rising(s0, namespace_checks(s.namespaces@), r, 0, 0, 1, 1);
    let x0 = seq![CreateOp::FindFree];
    steps::lemma_one(CreateOp::FindFree, r, 3);
    steps::lemma_rising(t0, x0, r, 0, 1, 3, 3);
    let t1 = t0 + x0;
    let x1 = seq![CreateOp::MakeState];
    steps::lemma_one(CreateOp::MakeState, r, 4);
    steps::lemma_rising(t1, x1, r, 0, 3, 4, 4);
    let t2 = t1 + x1;
    let x2 = seq![CreateOp::MakeFifo];
    steps::lemma_one(CreateOp::MakeFifo, r, 5);
    steps::lemma_rising(t2, x2, r, 0, 4, 5, 5);
    let t3 = t2 + x2;
    let x3 = seq![CreateOp::ModeFifo];
    steps::lemma_one(CreateOp::ModeFifo, r, 6);
    steps::lemma_rising(t3, x3, r, 0, 5, 6, 6);
    let t4 = t3 + x3;
    let x4 = steps::when(s.rootfs_backend is Some, seq![CreateOp::MountOverlay]);
    steps::lemma_when(s.rootfs_backend is Some, CreateOp::MountOverlay, r, 7);
    steps::lemma_rising(t4, x4, r, 0, 6, 7, 7);
    let t5 = t4 + x4;
    let x5 = steps::when(s.rootfs_backend is Some, seq![CreateOp::WriteOverlayState]);
    steps::lemma_when(s.rootfs_backend is Some, CreateOp::WriteOverlayState, r, 8);
    steps::lemma_rising(t5, x5, r, 0, 7, 8, 8);
    let t6 = t5 + x5;
    let x6 = seq![CreateOp::CompilePlan];
    steps::lemma_one(CreateOp::CompilePlan, r, 9);
    steps::lemma_rising(t6, x6, r, 0, 8, 9, 9);
    let t7 = t6 + x6;
    let x7 = seq![CreateOp::CheckRootPath];
    steps::lemma_one(CreateOp::CheckRootPath, r, 10);
    steps::lemma_rising(t7, x7, r, 0, 9, 10, 10);
    let t8 = t7 + x7;
}

/// The steps to the process are in order.
proof fn lemma_before_clone_order(p: CompiledPlan, opts: CreateOpts)
    ensures
        steps::rising(before_clone_ops(p, opts), create_ranks(), 11, 24),
        before_clone_ops(p, opts).last() == CreateOp::Clone,
        before_clone_ops(p, opts).len() > 0,
{
    let r = create_ranks();
    let x0 = seq![CreateOp::OpenFifo];
    steps::lemma_one(CreateOp::OpenFifo, r, 11);
    let t0 = x0;
    let x1 = seq![CreateOp::OpenErrors];
    steps::lemma_one(CreateOp::OpenErrors, r, 12);
    steps::lemma_rising(t0, x1, r, 11, 11, 12, 12);
    let t1 = t0 + x1;
    let x2 = steps::when(p.wants_userns, seq![CreateOp::OpenSyncPipe]);
    steps::lemma_when(p.wants_userns, CreateOp::OpenSyncPipe, r, 13);
    steps::lemma_rising(t1, x2, r, 11, 12, 13, 13);
    let t2 = t1 + x2;
    let x3 = steps::when(p.ext.cgroup_v2_path is Some, seq![CreateOp::MakeCgroup]);
    steps::lemma_when(p.ext.cgroup_v2_path is Some, CreateOp::MakeCgroup, r, 14);
    steps::lemma_rising(t2, x3, r, 11, 13, 14, 14);
    let t3 = t2 + x3;
    let x4 = knob_steps(p);
    steps::lemma_level(x4, r, 15);
    steps::lemma_rising(t3, x4, r, 11, 14, 15, 15);
    let t4 = t3 + x4;
    let x5 = steps::when(
        p.ext.cgroup_v2_path is Some && p.ext.device_cgroup_bpf@.len() > 0,
        seq![CreateOp::AttachDevices],
    );
    steps::lemma_when(
        p.ext.cgroup_v2_path is Some && p.ext.device_cgroup_bpf@.len() > 0,
        CreateOp::AttachDevices,
        r,
        16,
    );
    steps::lemma_rising(t4, x5, r, 11, 15, 16, 16);
    let t5 = t4 + x5;
    let x6 = seq![CreateOp::CreateRuntimeHooks];
    steps::lemma_one(CreateOp::CreateRuntimeHooks, r, 17);
    steps::lemma_rising(t5, x6, r, 11, 16, 17, 17);
    let t6 = t5 + x6;
    let x7 = seq![CreateOp::PrestartHooks];
    steps::lemma_one(CreateOp::PrestartHooks, r, 18);
    steps::lemma_rising(t6, x7, r, 11, 17, 18, 18);
    let t7 = t6 + x7;
    let x8 = seq![CreateOp::CheckDeadlineAgain];
    steps::lemma_one(CreateOp::CheckDeadlineAgain, r, 19);
    steps::lemma_rising(t7, x8, r, 11, 18, 19, 19);
    let t8 = t7 + x8;
    let x9 = steps::when(makes_terminal(p), seq![CreateOp::OpenTerminal]);
    steps::lemma_when(makes_terminal(p), CreateOp::OpenTerminal, r, 20);
    steps::lemma_rising(t8, x9, r, 11, 19, 20, 20);
    let t9 = t8 + x9;
    let x10 = steps::when(child::joins_pid(p), seq![CreateOp::OpenRelayPipe]);
    steps::lemma_when(child::joins_pid(p), CreateOp::OpenRelayPipe, r, 21);
    steps::lemma_rising(t9, x10, r, 11, 20, 21, 21);
    let t10 = t9 + x10;
    let x11 = seq![CreateOp::SpawnIdmapHelpers];
    steps::lemma_one(CreateOp::SpawnIdmapHelpers, r, 22);
    steps::lemma_rising(t10, x11, r, 11, 21, 22, 22);
    let t11 = t10 + x11;
    let x12 = steps::when(opts.preserve_fds > 0, seq![CreateOp::PreserveFds]);
    steps::lemma_when(opts.preserve_fds > 0, CreateOp::PreserveFds, r, 23);
    steps::lemma_rising(t11, x12, r, 11, 22, 23, 23);
    let t12 = t11 + x12;
    let x13 = seq![CreateOp::Clone];
    steps::lemma_one(CreateOp::Clone, r, 24);
    steps::lemma_rising(t12, x13, r, 11, 23, 24, 24);
    let t13 = t12 + x13;
}

/// A container is made in one order: everything that can be wrong with the request is looked at
/// before the state directory is made, the limits and the device filter are in force and the hooks
/// have run before the process is there, and the process comes last.
pub proof fn law_create_order(s: Spec, p: CompiledPlan, opts: CreateOpts)
    ensures
        steps::rising(first_ops(s) + before_clone_ops(p, opts), create_ranks(), 0, 24),
        before_clone_ops(p, opts).len() > 0,
        before_clone_ops(p, opts).last() == CreateOp::Clone,
{
    lemma_first_order(s);
    lemma_before_clone_order(p, opts);
    steps::lemma_rising(
        first_ops(s),
        before_clone_ops(p, opts),
        create_ranks(),
        0,
        10,
        11,
        24,
    );
}

/// Zero for a step whose failure leaves no process behind.
pub open spec fn orphans() -> spec_fn(CreateOp) -> int {
    |op: CreateOp|
        if recovery(op) == Recovery::PassOver || recovery(op) == Recovery::KillAndTearDown {
            0
        } else {
            1
        }
}

/// What the process is given leaves none behind.
proof fn lemma_hand_over_safe(p: CompiledPlan)
    ensures
        steps::rising(hand_over(p), orphans(), 0, 0),
{
    let s = hand_over(p);
    assert forall|i: int| 0 <= i < s.len() implies orphans()(#[trigger] s[i]) == 0 by {
    }
    steps::lemma_level(s, orphans(), 0);
}

/// Neither do the steps before the pid is known.
proof fn lemma_before_pid_safe(p: CompiledPlan)
    ensures
        steps::rising(before_pid(p), orphans(), 0, 0),
{
    lemma_hand_over_safe(p);
    let b = seq![CreateOp::ReadInitPid];
    steps::lemma_one(CreateOp::ReadInitPid, orphans(), 0);
    steps::lemma_rising(hand_over(p), b, orphans(), 0, 0, 0, 0);
    if !child::joins_pid(p) {
        steps::lemma_level(before_pid(p), orphans(), 0);
    }
}

/// Nor the notes.
proof fn lemma_notes_safe(pid_file: bool)
    ensures
        steps::rising(note_ops(pid_file), orphans(), 0, 0),
{
    let n = note_ops(pid_file);
    assert forall|i: int| 0 <= i < n.len() implies orphans()(#[trigger] n[i]) == 0 by {
    }
    steps::lemma_level(n, orphans(), 0);
}

/// Nor the steps after them.
proof fn lemma_after_pid_safe(p: CompiledPlan, in_cgroup: bool)
    ensures
        steps::rising(after_pid(p, in_cgroup), orphans(), 0, 0),
{
    let r = orphans();
    lemma_hand_over_safe(p);
    let c0 = steps::when(!child::joins_pid(p), hand_over(p));
    let c1 = steps::when(p.ext.cgroup_v2_path is Some && !in_cgroup, seq![CreateOp::JoinCgroup]);
    let c2 = steps::when(p.oom_score_adj is Some, seq![CreateOp::WriteOom]);
    let c3 = steps::when(p.scheduler is Some, seq![CreateOp::ApplyScheduler]);
    let c4 = steps::when(!p.ext.hooks.none(), seq![CreateOp::WriteHooks]);
    let c5 = seq![CreateOp::WriteCreated];
    if child::joins_pid(p) {
        steps::lemma_level(c0, r, 0);
    }
    steps::lemma_when(p.ext.cgroup_v2_path is Some && !in_cgroup, CreateOp::JoinCgroup, r, 0);
    steps::lemma_when(p.oom_score_adj is Some, CreateOp::WriteOom, r, 0);
    steps::lemma_when(p.scheduler is Some, CreateOp::ApplyScheduler, r, 0);
    steps::lemma_when(!p.ext.hooks.none(), CreateOp::WriteHooks, r, 0);
    steps::lemma_one(CreateOp::WriteCreated, r, 0);
    steps::lemma_rising(c0, c1, r, 0, 0, 0, 0);
    let d1 = c0 + c1;
    steps::lemma_rising(d1, c2, r, 0, 0, 0, 0);
    let d2 = d1 + c2;
    steps::lemma_rising(d2, c3, r, 0, 0, 0, 0);
    let d3 = d2 + c3;
    steps::lemma_rising(d3, c4, r, 0, 0, 0, 0);
    let d4 = d3 + c4;
    steps::lemma_rising(d4, c5, r, 0, 0, 0, 0);
}

/// Steps of rank zero leave no process behind.
proof fn lemma_no_orphans(s: Seq<CreateOp>)
    requires
        steps::rising(s, orphans(), 0, 0),
    ensures
        forall|i: int|
            0 <= i < s.len() ==> recovery(#[trigger] s[i]) == Recovery::PassOver || recovery(s[i])
                == Recovery::KillAndTearDown,
{
    reveal(steps::rising);
    assert forall|i: int| 0 <= i < s.len() implies recovery(#[trigger] s[i]) == Recovery::PassOver
        || recovery(s[i]) == Recovery::KillAndTearDown by {
        assert(orphans()(s[i]) == 0);
    }
}

/// Once the process is there, no step that fails leaves it behind: the failure does not count, or the
/// process is killed and reaped and the state removed.
pub proof fn law_no_orphan(p: CompiledPlan, in_cgroup: bool, pid_file: bool)
    ensures
        forall|i: int|
            0 <= i < after_clone_ops(p, in_cgroup, pid_file).len() ==> recovery(
                #[trigger] after_clone_ops(p, in_cgroup, pid_file)[i],
            ) == Recovery::PassOver || recovery(after_clone_ops(p, in_cgroup, pid_file)[i])
                == Recovery::KillAndTearDown,
{
    let r = orphans();
    let a = before_pid(p);
    let n = note_ops(pid_file);
    let c = after_pid(p, in_cgroup);
    lemma_before_pid_safe(p);
    lemma_notes_safe(pid_file);
    lemma_after_pid_safe(p, in_cgroup);
    steps::lemma_rising(a, n, r, 0, 0, 0, 0);
    steps::lemma_rising(a + n, c, r, 0, 0, 0, 0);
    let s = after_clone_ops(p, in_cgroup, pid_file);
    assert(s == a + n + c);
    lemma_no_orphans(s);
}

/// The pid is noted, and with it that the container is being made, as soon as it is known; the last
/// thing noted is that the container is made.
pub proof fn law_pid_noted_first(p: CompiledPlan, in_cgroup: bool, pid_file: bool)
    ensures
        !child::joins_pid(p) ==> before_pid(p).len() == 0,
        child::joins_pid(p) ==> before_pid(p).len() > 0 && before_pid(p).last()
            == CreateOp::ReadInitPid,
        after_clone_ops(p, in_cgroup, pid_file)[before_pid(p).len() as int]
            == CreateOp::WriteInitPid,
        after_clone_ops(p, in_cgroup, pid_file).last() == CreateOp::WriteCreated,
{
    let a = before_pid(p);
    let n = note_ops(pid_file);
    let b = after_pid(p, in_cgroup);
    assert(n[0] == CreateOp::WriteInitPid);
    assert((a + n)[a.len() as int] == n[0]);
    assert(b.last() == CreateOp::WriteCreated);
}

/// Before the state directory is there, nothing is taken back; and a failed request for an id that is
/// taken leaves the other container alone.
pub proof fn law_refusal_touches_nothing(op: CreateOp)
    ensures
        create_rank(op) <= 3 ==> recovery(op) == Recovery::Leave,
{
}

/// What is known of a container while it is made.
pub struct CreateFacts {
    pub id: String,
    pub bundle: String,
    pub paths: ContainerPaths,
    pub pid_file: Option<String>,
    pub comm_hint: Option<String>,
    /// The pid of the process that was made.
    pub pid: i32,
    /// The pid of the container's first process; another one where a pid namespace is joined.
    pub init_pid: i32,
}

/// A file below the directory of a process.
pub open spec fn proc_file(pid: int, name: Seq<char>) -> Seq<char> {
    "/proc/"@ + text::dec_int(pid) + "/"@ + name
}

/// A file below the directory of a process.
pub fn proc_path(pid: i32, name: &str) -> (s: String)
    ensures
        s@ == proc_file(pid as int, name@),
{
    let mut s = owned("/proc/");
    let n = dec_i64(pid as i64);
    s.append(n.as_str());
    s.append("/");
    s.append(name);
    s
}

/// The state of the container, as it is noted.
pub open spec fn state_note(f: CreateFacts, status: Seq<char>) -> Seq<u8> {
    json::object_text(
        state::state_members(f.id@, f.init_pid, f.bundle@, status, text::opt_text(f.comm_hint)),
    )
}

/// The file a step writes, and what it writes there.
pub open spec fn write_of(p: CompiledPlan, f: CreateFacts, op: CreateOp) -> Option<
    (Seq<char>, Seq<u8>),
> {
    let pid_text = encode_utf8(text::dec_int(f.init_pid as int));
    match op {
        CreateOp::WriteKnob(i) => match p.ext.cgroup_v2_path {
            Some(dir) => if i < p.ext.cgroup_v2_writes@.len() {
                let w = p.ext.cgroup_v2_writes@[i as int];
                Some((path::joined(dir@, w.0@), w.1@))
            } else {
                None
            },
            None => None,
        },
        CreateOp::DenySetgroups => Some(
            (proc_file(f.pid as int, "setgroups"@), encode_utf8("deny"@)),
        ),
        CreateOp::WriteUidMap => Some((proc_file(f.pid as int, "uid_map"@), p.uid_map_data@)),
        CreateOp::WriteGidMap => Some((proc_file(f.pid as int, "gid_map"@), p.gid_map_data@)),
        CreateOp::WriteInitPid => Some((path::joined(f.paths.root@, "init.pid"@), pid_text)),
        CreateOp::WritePidFile => match f.pid_file {
            Some(file) => Some((file@, pid_text)),
            None => None,
        },
        CreateOp::WriteCreating => Some(
            (path::joined(f.paths.root@, "state.json"@), state_note(f, "creating"@)),
        ),
        CreateOp::JoinCgroup => match p.ext.cgroup_v2_path {
            Some(dir) => Some((path::joined(dir@, "cgroup.procs"@), pid_text)),
            None => None,
        },
        CreateOp::WriteOom => match p.oom_score_adj {
            Some(adj) => Some(
                (
                    proc_file(f.init_pid as int, "oom_score_adj"@),
                    encode_utf8(text::dec_int(adj as int)),
                ),
            ),
            None => None,
        },
        CreateOp::WriteHooks => Some(
            (
                path::joined(f.paths.root@, "hooks.json"@),
                json::rendered(hooks::hooks_json(p.ext.hooks@)),
            ),
        ),
        CreateOp::WriteCreated => Some(
            (path::joined(f.paths.root@, "state.json"@), state_note(f, "created"@)),
        ),
        _ => None,
    }
}

/// The bytes of a number.
fn number_bytes(n: i32) -> (b: Vec<u8>)
    ensures
        b@ == encode_utf8(text::dec_int(n as int)),
{
    let s = dec_i64(n as i64);
    s.as_str().as_bytes_vec()
}

/// The state of the container, as it is noted.
fn state_bytes(f: &CreateFacts, status: &str) -> (b: Vec<u8>)
    ensures
        b@ == state_note(*f, status@),
{
    let hint: Option<&str> = match &f.comm_hint {
        Some(c) => Some(c.as_str()),
        None => None,
    };
    write_state(f.id.as_str(), f.init_pid, f.bundle.as_str(), status, hint)
}

/// The file a step writes, and what it writes there; none for a step that writes no file.
pub fn create_write(p: &CompiledPlan, f: &CreateFacts, op: CreateOp) -> (w: Option<
    (String, Vec<u8>),
>)
    ensures
        match w {
            Some(w) => write_of(*p, *f, op) == Some((w.0@, w.1@)),
            None => write_of(*p, *f, op) is None,
        },
{
    match op {
        CreateOp::WriteKnob(i) => match &p.ext.cgroup_v2_path {
            Some(dir) => if i < p.ext.cgroup_v2_writes.len() {
                let w = &p.ext.cgroup_v2_writes[i];
                Some((join(dir.as_str(), w.0.as_str()), copy_bytes(&w.1)))
            } else {
                None
            },
            None => None,
        },
        CreateOp::DenySetgroups => Some((proc_path(f.pid, "setgroups"), "deny".as_bytes_vec())),
        CreateOp::WriteUidMap => Some((proc_path(f.pid, "uid_map"), copy_bytes(&p.uid_map_data))),
        CreateOp::WriteGidMap => Some((proc_path(f.pid, "gid_map"), copy_bytes(&p.gid_map_data))),
        CreateOp::WriteInitPid => Some((f.paths.pid_file(), number_bytes(f.init_pid))),
        CreateOp::WritePidFile => match &f.pid_file {
            Some(file) => Some((file.clone(), number_bytes(f.init_pid))),
            None => None,
        },
        CreateOp::WriteCreating => Some((f.paths.state_file(), state_bytes(f, "creating"))),
        CreateOp::JoinCgroup => match &p.ext.cgroup_v2_path {
            Some(dir) => Some((join(dir.as_str(), "cgroup.procs"), number_bytes(f.init_pid))),
            None => None,
        },
        CreateOp::WriteOom => match p.oom_score_adj {
            Some(adj) => Some((proc_path(f.init_pid, "oom_score_adj"), number_bytes(adj))),
            None => None,
        },
        CreateOp::WriteHooks => Some(
            (join(f.paths.root.as_str(), "hooks.json"), save_hooks(&p.ext.hooks)),
        ),
        CreateOp::WriteCreated => Some((f.paths.state_file(), state_bytes(f, "created"))),
        _ => None,
    }
}

/// The name by which the container's process is known: the last name in the path of its program.
pub fn comm_hint(args: &Vec<String>) -> (r: Option<String>)
    ensures
        text::opt_text(r) == (if args@.len() == 0 {
            None
        } else {
            path::file_name(args@[0]@)
        }),
{
    if args.len() == 0 {
        None
    } else {
        file_name_of(args[0].as_str())
    }
}

/// The name of a kind of namespace.
pub open spec fn kind_text(kind: NamespaceKind) -> Seq<char> {
    match kind {
        NamespaceKind::Pid => "Pid"@,
        NamespaceKind::Network => "Network"@,
        NamespaceKind::Mount => "Mount"@,
        NamespaceKind::Ipc => "Ipc"@,
        NamespaceKind::Uts => "Uts"@,
        NamespaceKind::Cgroup => "Cgroup"@,
        NamespaceKind::User => "User"@,
    }
}

/// The name of a kind of namespace.
pub fn kind_name(kind: NamespaceKind) -> (s: &'static str)
    ensures
        s@ == kind_text(kind),
{
    match kind {
        NamespaceKind::Pid => "Pid",
        NamespaceKind::Network => "Network",
        NamespaceKind::Mount => "Mount",
        NamespaceKind::Ipc => "Ipc",
        NamespaceKind::Uts => "Uts",
        NamespaceKind::Cgroup => "Cgroup",
        NamespaceKind::User => "User",
    }
}

/// The error of the library's own for a step that failed with `why`; where there is none, the error
/// is that of the call.
pub open spec fn create_fault(op: CreateOp, s: Spec, id: Seq<char>, why: Seq<char>) -> Option<
    Seq<char>,
> {
    match op {
        CreateOp::CheckNamespace(i) => if i < s.namespaces@.len() {
            match s.namespaces@[i as int].path {
                Some(p) => Some(
                    "namespace path "@ + p@ + " does not match declared type "@ + kind_text(
                        s.namespaces@[i as int].kind,
                    ),
                ),
                None => None,
            }
        } else {
            None
        },
        CreateOp::FindFree => Some("container "@ + id + " already exists"@),
        CreateOp::WriteUidMap => Some("write uid_map: "@ + why),
        CreateOp::WriteGidMap => Some("write gid_map: "@ + why),
        CreateOp::ReadInitPid => Some(
            "PID-ns join: failed to read init pid from intermediate"@,
        ),
        _ => None,
    }
}

/// The error of the library's own for a step that failed with `why`, if there is one.
pub fn create_error(op: CreateOp, s: &Spec, id: &str, why: &str) -> (e: Option<Error>)
    ensures
        match e {
            Some(e) => create_fault(op, *s, id@, why@) == Some(e@),
            None => create_fault(op, *s, id@, why@) is None,
        },
{
    match op {
        CreateOp::CheckNamespace(i) => if i < s.namespaces.len() {
            match &s.namespaces[i].path {
                Some(p) => {
                    let mut t = owned("namespace path ");
                    t.append(p.as_str());
                    t.append(" does not match declared type ");
                    t.append(kind_name(s.namespaces[i].kind));
                    Some(Error::new(t))
                },
                None => None,
            }
        } else {
            None
        },
        CreateOp::FindFree => Some(Error::new(cat3("container ", id, " already exists"))),
        CreateOp::WriteUidMap => Some(Error::new(cat2("write uid_map: ", why))),
        CreateOp::WriteGidMap => Some(Error::new(cat2("write gid_map: ", why))),
        CreateOp::ReadInitPid => Some(
            Error::new(owned("PID-ns join: failed to read init pid from intermediate")),
        ),
        _ => None,
    }
}

/// The last descriptor that is let through when `n` are to be kept behind the standard streams. A
/// number beyond the range of descriptors keeps none.
pub fn last_preserved(n: u32) -> (last: i32)
    requires
        n != 0x7fff_fffe && n != 0x7fff_ffff,
    ensures
        last == (if n < 0x8000_0000 {
            n + 2
        } else {
            n + 2 - 0x1_0000_0000
        }),
{
    if n < 0x8000_0000 {
        (n + 2) as i32
    } else {
        (n as i64 + 2 - 0x1_0000_0000i64) as i32
    }
}

/// What comes after a read of the pid of the process behind the process.
#[derive(Debug, Clone, Copy, PartialEq, Eq, Structural)]
pub enum RelayNext {
    /// So many of its bytes are there; read on.
    More(usize),
    /// It is there.
    Whole,
    /// It will not come.
    Lost,
}

/// Decides what comes after a read that returned `n`, where `got` of the four bytes were there.
pub fn after_relay_read(got: usize, n: i64) -> (r: RelayNext)
    requires
        got < 4,
        n <= 4 - got,
    ensures
        r == (if n <= 0 {
            RelayNext::Lost
        } else if got + n < 4 {
            RelayNext::More((got + n) as usize)
        } else {
            RelayNext::Whole
        }),
{
    if n <= 0 {
        RelayNext::Lost
    } else if got + (n as usize) < 4 {
        RelayNext::More(got + n as usize)
    } else {
        RelayNext::Whole
    }
}

/// One thing the helper does that makes the namespace of a mount with mapped ids.
#[derive(Debug, Clone, Copy, PartialEq, Eq, Structural)]
pub enum HelperOp {
    /// Enter a user namespace of its own.
    Unshare,
    /// Give up the right to change groups.
    DenySetgroups,
    /// Map the users.
    WriteUidMap,
    /// Map the groups.
    WriteGidMap,
    /// Tell the runtime, and wait.
    Signal,
}

/// The exit code with which a failure ends the helper; a failure without one is passed over.
pub open spec fn helper_code(op: HelperOp) -> Option<i32> {
    match op {
        HelperOp::Unshare => Some(1i32),
        HelperOp::WriteUidMap => Some(2i32),
        HelperOp::WriteGidMap => Some(3i32),
        _ => None,
    }
}

/// The exit code with which a failure ends the helper, if it does.
pub fn helper_failure(op: HelperOp) -> (c: Option<i32>)
    ensures
        c == helper_code(op),
{
    match op {
        HelperOp::Unshare => Some(1i32),
        HelperOp::WriteUidMap => Some(2i32),
        HelperOp::WriteGidMap => Some(3i32),
        _ => None,
    }
}

/// What the helper of a mount does; nothing where the mount has no mapped ids.
pub open spec fn helper_ops(m: plan::MountOpView) -> Seq<HelperOp> {
    if m.idmap_uid.len() == 0 && m.idmap_gid.len() == 0 {
        Seq::empty()
    } else {
        seq![HelperOp::Unshare] + seq![HelperOp::DenySetgroups] + steps::when(
            m.idmap_uid.len() > 0,
            seq![HelperOp::WriteUidMap],
        ) + steps::when(m.idmap_gid.len() > 0, seq![HelperOp::WriteGidMap]) + seq![HelperOp::Signal]
    }
}

/// Lays out what the helper of a mount does; nothing where none is needed.
pub fn spawn_idmap_helpers(m: &MountOp) -> (v: Vec<HelperOp>)
    ensures
        v@ == helper_ops(m@),
{
    let mut v: Vec<HelperOp> = Vec::new();
    if m.idmap_uid.len() == 0 && m.idmap_gid.len() == 0 {
        return v;
    }
    push_one(&mut v, HelperOp::Unshare);
    proof {
        assert(v@ =~= seq![HelperOp::Unshare]);
    }
    push_one(&mut v, HelperOp::DenySetgroups);
    push_if(&mut v, m.idmap_uid.len() > 0, HelperOp::WriteUidMap);
    push_if(&mut v, m.idmap_gid.len() > 0, HelperOp::WriteGidMap);
    push_one(&mut v, HelperOp::Signal);
    v
}

/// The kernel's `struct sched_attr`.
#[derive(Debug, Clone, Copy, PartialEq, Eq, Structural)]
pub struct SchedAttr {
    pub size: u32,
    pub sched_policy: u32,
    pub sched_flags: u64,
    pub sched_nice: i32,
    pub sched_priority: u32,
    pub sched_runtime: u64,
    pub sched_deadline: u64,
    pub sched_period: u64,
}

/// The scheduling class of a process, as the kernel takes it.
pub fn apply_scheduler(s: &crate::spec::SchedulerSpec) -> (a: SchedAttr)
    ensures
        a == (SchedAttr {
            size: 48,
            sched_policy: s.policy,
            sched_flags: s.flags,
            sched_nice: s.nice,
            sched_priority: s.priority,
            sched_runtime: s.runtime,
            sched_deadline: s.deadline,
            sched_period: s.period,
        }),
{
    SchedAttr {
        size: 48,
        sched_policy: s.policy,
        sched_flags: s.flags,
        sched_nice: s.nice,
        sched_priority: s.priority,
        sched_runtime: s.runtime,
        sched_deadline: s.deadline,
        sched_period: s.period,
    }
}

/// Which steps come first in a creation: the namespaces to be joined are checked, each that has a
/// path, and the layers are mounted where there are any.
pub proof fn law_first_steps(s: Spec, x: CreateOp)
    requires
        s.namespaces@.len() <= usize::MAX,
    ensures
        first_ops(s).contains(x) <==> match x {
            CreateOp::CheckDeadline => true,
            CreateOp::OpenNamespace(i) => i < s.namespaces@.len()
                && s.namespaces@[i as int].path is Some,
            CreateOp::CheckNamespace(i) => i < s.namespaces@.len()
                && s.namespaces@[i as int].path is Some,
            CreateOp::FindFree => true,
            CreateOp::MakeState => true,
            CreateOp::MakeFifo => true,
            CreateOp::ModeFifo => true,
            CreateOp::MountOverlay => s.rootfs_backend is Some,
            CreateOp::WriteOverlayState => s.rootfs_backend is Some,
            CreateOp::CompilePlan => true,
            CreateOp::CheckRootPath => true,
            _ => false,
        },
{
    lemma_namespaces_checked(s.namespaces@, x);
    let none = Seq::<CreateOp>::empty();
    let p0 = seq![CreateOp::CheckDeadline];
    assert(none + p0 =~= p0);
    steps::lemma_step_has(none, true, CreateOp::CheckDeadline, x);
    let p1 = p0 + namespace_checks(s.namespaces@);
    steps::lemma_sum_has(p0, namespace_checks(s.namespaces@), x);
    let p2 = p1 + seq![CreateOp::FindFree];
    steps::lemma_step_has(p1, true, CreateOp::FindFree, x);
    let p3 = p2 + seq![CreateOp::MakeState];
    steps::lemma_step_has(p2, true, CreateOp::MakeState, x);
    let p4 = p3 + seq![CreateOp::MakeFifo];
    steps::lemma_step_has(p3, true, CreateOp::MakeFifo, x);
    let p5 = p4 + seq![CreateOp::ModeFifo];
    steps::lemma_step_has(p4, true, CreateOp::ModeFifo, x);
    let p6 = p5 + steps::when(s.rootfs_backend is Some, seq![CreateOp::MountOverlay]);
    steps::lemma_step_has(p5, s.rootfs_backend is Some, CreateOp::MountOverlay, x);
    let p7 = p6 + steps::when(s.rootfs_backend is Some, seq![CreateOp::WriteOverlayState]);
    steps::lemma_step_has(p6, s.rootfs_backend is Some, CreateOp::WriteOverlayState, x);
    let p8 = p7 + seq![CreateOp::CompilePlan];
    steps::lemma_step_has(p7, true, CreateOp::CompilePlan, x);
    let p9 = p8 + seq![CreateOp::CheckRootPath];
    steps::lemma_step_has(p8, true, CreateOp::CheckRootPath, x);
    assert(first_ops(s) == p9);
}

/// Each namespace with a path is opened and checked.
proof fn lemma_namespaces_checked(v: Seq<NamespaceEntry>, x: CreateOp)
    requires
        v.len() <= usize::MAX,
    ensures
        namespace_checks(v).contains(x) <==> match x {
            CreateOp::OpenNamespace(i) => i < v.len() && v[i as int].path is Some,
            CreateOp::CheckNamespace(i) => i < v.len() && v[i as int].path is Some,
            _ => false,
        },
    decreases v.len(),
{
    if v.len() > 0 {
        let h = v.drop_last();
        let i = (v.len() - 1) as usize;
        lemma_namespaces_checked(h, x);
        let two = seq![CreateOp::OpenNamespace(i), CreateOp::CheckNamespace(i)];
        steps::lemma_sum_has(namespace_checks(h), two, x);
        assert(two.contains(x) <==> x == CreateOp::OpenNamespace(i) || x
            == CreateOp::CheckNamespace(i)) by {
            assert(two[0] == CreateOp::OpenNamespace(i) && two[1] == CreateOp::CheckNamespace(i));
        }
        assert(forall|k: int| 0 <= k < h.len() ==> h[k] == v[k]);
    }
}

/// Which steps come before the process is made: what concerns a cgroup only where there is one, every
/// limit of it, and each of the others only where it is needed.
pub proof fn law_steps_before_clone(p: CompiledPlan, opts: CreateOpts, x: CreateOp)
    requires
        p.ext.cgroup_v2_writes@.len() <= usize::MAX,
    ensures
        before_clone_ops(p, opts).contains(x) <==> match x {
            CreateOp::OpenFifo => true,
            CreateOp::OpenErrors => true,
            CreateOp::OpenSyncPipe => p.wants_userns,
            CreateOp::MakeCgroup => p.ext.cgroup_v2_path is Some,
            CreateOp::WriteKnob(i) => p.ext.cgroup_v2_path is Some && i
                < p.ext.cgroup_v2_writes@.len(),
            CreateOp::AttachDevices => p.ext.cgroup_v2_path is Some
                && p.ext.device_cgroup_bpf@.len() > 0,
            CreateOp::CreateRuntimeHooks => true,
            CreateOp::PrestartHooks => true,
            CreateOp::CheckDeadlineAgain => true,
            CreateOp::OpenTerminal => p.terminal && p.console_socket is Some,
            CreateOp::OpenRelayPipe => child::joins_pid(p),
            CreateOp::SpawnIdmapHelpers => true,
            CreateOp::PreserveFds => opts.preserve_fds > 0,
            CreateOp::Clone => true,
            _ => false,
        },
{
    let n = p.ext.cgroup_v2_writes@.len();
    let k = knobs(n);
    assert(k.contains(x) <==> (x matches CreateOp::WriteKnob(i) && i < n)) by {
        if k.contains(x) {
            let i = choose|i: int| 0 <= i < k.len() && k[i] == x;
            assert(k[i] == CreateOp::WriteKnob(i as usize));
        }
        match x {
            CreateOp::WriteKnob(i) => {
                if i < n {
                    assert(k[i as int] == x);
                }
            },
            _ => {},
        }
    }
    let none = Seq::<CreateOp>::empty();
    let p0 = seq![CreateOp::OpenFifo];
    assert(none + p0 =~= p0);
    steps::lemma_step_has(none, true, CreateOp::OpenFifo, x);
    let p1 = p0 + seq![CreateOp::OpenErrors];
    steps::lemma_step_has(p0, true, CreateOp::OpenErrors, x);
    let p2 = p1 + steps::when(p.wants_userns, seq![CreateOp::OpenSyncPipe]);
    steps::lemma_step_has(p1, p.wants_userns, CreateOp::OpenSyncPipe, x);
    let p3 = p2 + steps::when(p.ext.cgroup_v2_path is Some, seq![CreateOp::MakeCgroup]);
    steps::lemma_step_has(p2, p.ext.cgroup_v2_path is Some, CreateOp::MakeCgroup, x);
    let p4 = p3 + knob_steps(p);
    steps::lemma_sum_has(p3, knob_steps(p), x);
    let p5 = p4 + steps::when(p.ext.cgroup_v2_path is Some && p.ext.device_cgroup_bpf@.len() > 0, seq![CreateOp::AttachDevices]);
    steps::lemma_step_has(p4, p.ext.cgroup_v2_path is Some && p.ext.device_cgroup_bpf@.len() > 0, CreateOp::AttachDevices, x);
    let p6 = p5 + seq![CreateOp::CreateRuntimeHooks];
    steps::lemma_step_has(p5, true, CreateOp::CreateRuntimeHooks, x);
    let p7 = p6 + seq![CreateOp::PrestartHooks];
    steps::lemma_step_has(p6, true, CreateOp::PrestartHooks, x);
    let p8 = p7 + seq![CreateOp::CheckDeadlineAgain];
    steps::lemma_step_has(p7, true, CreateOp::CheckDeadlineAgain, x);
    let p9 = p8 + steps::when(makes_terminal(p), seq![CreateOp::OpenTerminal]);
    steps::lemma_step_has(p8, makes_terminal(p), CreateOp::OpenTerminal, x);
    let p10 = p9 + steps::when(child::joins_pid(p), seq![CreateOp::OpenRelayPipe]);
    steps::lemma_step_has(p9, child::joins_pid(p), CreateOp::OpenRelayPipe, x);
    let p11 = p10 + seq![CreateOp::SpawnIdmapHelpers];
    steps::lemma_step_has(p10, true, CreateOp::SpawnIdmapHelpers, x);
    let p12 = p11 + steps::when(opts.preserve_fds > 0, seq![CreateOp::PreserveFds]);
    steps::lemma_step_has(p11, opts.preserve_fds > 0, CreateOp::PreserveFds, x);
    let p13 = p12 + seq![CreateOp::Clone];
    steps::lemma_step_has(p12, true, CreateOp::Clone, x);
    assert(before_clone_ops(p, opts) == p13);
}

/// Which steps hand the process over: its terminal, and the maps of ids with a user namespace.
proof fn lemma_handed_over(p: CompiledPlan, x: CreateOp)
    ensures
        hand_over(p).contains(x) <==> match x {
            CreateOp::SendTerminal => p.terminal && p.console_socket is Some,
            CreateOp::DenySetgroups => p.wants_userns,
            CreateOp::WriteUidMap => p.wants_userns,
            CreateOp::WriteGidMap => p.wants_userns,
            CreateOp::SignalMaps => p.wants_userns,
            _ => false,
        },
{
    let none = Seq::<CreateOp>::empty();
    let p0 = steps::when(makes_terminal(p), seq![CreateOp::SendTerminal]);
    assert(none + p0 =~= p0);
    steps::lemma_step_has(none, makes_terminal(p), CreateOp::SendTerminal, x);
    let p1 = p0 + steps::when(p.wants_userns, seq![CreateOp::DenySetgroups]);
    steps::lemma_step_has(p0, p.wants_userns, CreateOp::DenySetgroups, x);
    let p2 = p1 + steps::when(p.wants_userns, seq![CreateOp::WriteUidMap]);
    steps::lemma_step_has(p1, p.wants_userns, CreateOp::WriteUidMap, x);
    let p3 = p2 + steps::when(p.wants_userns, seq![CreateOp::WriteGidMap]);
    steps::lemma_step_has(p2, p.wants_userns, CreateOp::WriteGidMap, x);
    let p4 = p3 + steps::when(p.wants_userns, seq![CreateOp::SignalMaps]);
    steps::lemma_step_has(p3, p.wants_userns, CreateOp::SignalMaps, x);
    assert(hand_over(p) == p4);
}

/// Which steps come after the process is made: its pid is noted, and read first where it joins a
/// namespace; it is handed its terminal and maps, put into its cgroup unless it was made there,
/// and what else is asked for is set; then it counts as created.
pub proof fn law_steps_after_clone(p: CompiledPlan, in_cgroup: bool, pid_file: bool, x: CreateOp)
    ensures
        after_clone_ops(p, in_cgroup, pid_file).contains(x) <==> match x {
            CreateOp::SendTerminal => p.terminal && p.console_socket is Some,
            CreateOp::DenySetgroups => p.wants_userns,
            CreateOp::WriteUidMap => p.wants_userns,
            CreateOp::WriteGidMap => p.wants_userns,
            CreateOp::SignalMaps => p.wants_userns,
            CreateOp::ReadInitPid => child::joins_pid(p),
            CreateOp::WriteInitPid => true,
            CreateOp::WritePidFile => pid_file,
            CreateOp::WriteCreating => true,
            CreateOp::JoinCgroup => p.ext.cgroup_v2_path is Some && !in_cgroup,
            CreateOp::WriteOom => p.oom_score_adj is Some,
            CreateOp::ApplyScheduler => p.scheduler is Some,
            CreateOp::WriteHooks => !p.ext.hooks.none(),
            CreateOp::WriteCreated => true,
            _ => false,
        },
{
    lemma_handed_over(p, x);
    steps::lemma_step_has(hand_over(p), true, CreateOp::ReadInitPid, x);
    let noted = note_ops(pid_file);
    lemma_note_has(pid_file, x);
    lemma_after_pid(p, in_cgroup, x);
    steps::lemma_sum_has(before_pid(p) + noted, after_pid(p, in_cgroup), x);
    steps::lemma_sum_has(before_pid(p), noted, x);
    assert(!Seq::<CreateOp>::empty().contains(x));
}

proof fn lemma_note_has(pid_file: bool, x: CreateOp)
    ensures
        note_ops(pid_file).contains(x) <==> x == CreateOp::WriteInitPid || (pid_file && x
            == CreateOp::WritePidFile) || x == CreateOp::WriteCreating,
{
    let none = Seq::<CreateOp>::empty();
    let p0 = seq![CreateOp::WriteInitPid];
    assert(none + p0 =~= p0);
    steps::lemma_step_has(none, true, CreateOp::WriteInitPid, x);
    let p1 = p0 + steps::when(pid_file, seq![CreateOp::WritePidFile]);
    steps::lemma_step_has(p0, pid_file, CreateOp::WritePidFile, x);
    let p2 = p1 + seq![CreateOp::WriteCreating];
    steps::lemma_step_has(p1, true, CreateOp::WriteCreating, x);
    assert(note_ops(pid_file) == p2);
}

proof fn lemma_after_pid(p: CompiledPlan, in_cgroup: bool, x: CreateOp)
    ensures
        after_pid(p, in_cgroup).contains(x) <==> (!child::joins_pid(p) && hand_over(p).contains(x))
            || (p.ext.cgroup_v2_path is Some && !in_cgroup && x == CreateOp::JoinCgroup) || (
        p.oom_score_adj is Some && x == CreateOp::WriteOom) || (p.scheduler is Some && x
            == CreateOp::ApplyScheduler) || (!p.ext.hooks.none() && x == CreateOp::WriteHooks) || x
            == CreateOp::WriteCreated,
{
    assert(!Seq::<CreateOp>::empty().contains(x));
    let none = Seq::<CreateOp>::empty();
    let p0 = steps::when(!child::joins_pid(p), hand_over(p));
    assert(none + p0 =~= p0);
    let p1 = p0 + steps::when(p.ext.cgroup_v2_path is Some && !in_cgroup, seq![CreateOp::JoinCgroup]);
    steps::lemma_step_has(p0, p.ext.cgroup_v2_path is Some && !in_cgroup, CreateOp::JoinCgroup, x);
    let p2 = p1 + steps::when(p.oom_score_adj is Some, seq![CreateOp::WriteOom]);
    steps::lemma_step_has(p1, p.oom_score_adj is Some, CreateOp::WriteOom, x);
    let p3 = p2 + steps::when(p.scheduler is Some, seq![CreateOp::ApplyScheduler]);
    steps::lemma_step_has(p2, p.scheduler is Some, CreateOp::ApplyScheduler, x);
    let p4 = p3 + steps::when(!p.ext.hooks.none(), seq![CreateOp::WriteHooks]);
    steps::lemma_step_has(p3, !p.ext.hooks.none(), CreateOp::WriteHooks, x);
    let p5 = p4 + seq![CreateOp::WriteCreated];
    steps::lemma_step_has(p4, true, CreateOp::WriteCreated, x);
    assert(after_pid(p, in_cgroup) == p5);
}

/// What each step writes, and where: the maps of ids for the process that was made, its pid into its
/// files, and its state.
pub proof fn law_create_writes(p: CompiledPlan, f: CreateFacts, i: usize)
    ensures
        ({
            let proc = "/proc/"@ + text::dec_int(f.pid as int) + "/"@;
            let init = "/proc/"@ + text::dec_int(f.init_pid as int) + "/"@;
            let number = encode_utf8(text::dec_int(f.init_pid as int));
            let root = f.paths.root@;
            &&& write_of(p, f, CreateOp::DenySetgroups) == Some(
                (proc + "setgroups"@, encode_utf8("deny"@)),
            )
            &&& write_of(p, f, CreateOp::WriteUidMap) == Some((proc + "uid_map"@, p.uid_map_data@))
            &&& write_of(p, f, CreateOp::WriteGidMap) == Some((proc + "gid_map"@, p.gid_map_data@))
            &&& write_of(p, f, CreateOp::WriteInitPid) == Some(
                (path::joined(root, "init.pid"@), number),
            )
            &&& f.pid_file matches Some(file) ==> write_of(p, f, CreateOp::WritePidFile) == Some(
                (file@, number),
            )
            &&& write_of(p, f, CreateOp::WriteCreating) == Some(
                (
                    path::joined(root, "state.json"@),
                    state::state_text(
                        f.id@,
                        f.init_pid,
                        f.bundle@,
                        "creating"@,
                        text::opt_text(f.comm_hint),
                    ),
                ),
            )
            &&& write_of(p, f, CreateOp::WriteCreated) == Some(
                (
                    path::joined(root, "state.json"@),
                    state::state_text(
                        f.id@,
                        f.init_pid,
                        f.bundle@,
                        "created"@,
                        text::opt_text(f.comm_hint),
                    ),
                ),
            )
            &&& p.ext.cgroup_v2_path matches Some(dir) ==> write_of(p, f, CreateOp::JoinCgroup)
                == Some((path::joined(dir@, "cgroup.procs"@), number))
            &&& p.ext.cgroup_v2_path matches Some(dir) ==> (i < p.ext.cgroup_v2_writes@.len()
                ==> write_of(p, f, CreateOp::WriteKnob(i)) == Some(
                (
                    path::joined(dir@, p.ext.cgroup_v2_writes@[i as int].0@),
                    p.ext.cgroup_v2_writes@[i as int].1@,
                ),
            ))
            &&& p.oom_score_adj matches Some(n) ==> write_of(p, f, CreateOp::WriteOom) == Some(
                (init + "oom_score_adj"@, encode_utf8(text::dec_int(n as int))),
            )
            &&& write_of(p, f, CreateOp::WriteHooks) == Some(
                (
                    path::joined(root, "hooks.json"@),
                    json::rendered(hooks::hooks_json(p.ext.hooks@)),
                ),
            )
        }),
{
}

/// What a helper for the ids of a mount does: nothing where the mount has no maps, and else only what
/// its maps need.
pub proof fn law_helper_steps(m: plan::MountOpView, x: HelperOp)
    ensures
        m.idmap_uid.len() == 0 && m.idmap_gid.len() == 0 ==> helper_ops(m).len() == 0,
        m.idmap_uid.len() > 0 || m.idmap_gid.len() > 0 ==> (helper_ops(m).contains(x) <==> match x {
            HelperOp::WriteUidMap => m.idmap_uid.len() > 0,
            HelperOp::WriteGidMap => m.idmap_gid.len() > 0,
            _ => true,
        }) && helper_ops(m)[0] == HelperOp::Unshare && helper_ops(m).last() == HelperOp::Signal,
{
    if m.idmap_uid.len() > 0 || m.idmap_gid.len() > 0 {
        let none = Seq::<HelperOp>::empty();
        let p0 = seq![HelperOp::Unshare];
        assert(none + p0 =~= p0);
        steps::lemma_step_has(none, true, HelperOp::Unshare, x);
        let p1 = p0 + seq![HelperOp::DenySetgroups];
        steps::lemma_step_has(p0, true, HelperOp::DenySetgroups, x);
        let p2 = p1 + steps::when(m.idmap_uid.len() > 0, seq![HelperOp::WriteUidMap]);
        steps::lemma_step_has(p1, m.idmap_uid.len() > 0, HelperOp::WriteUidMap, x);
        let p3 = p2 + steps::when(m.idmap_gid.len() > 0, seq![HelperOp::WriteGidMap]);
        steps::lemma_step_has(p2, m.idmap_gid.len() > 0, HelperOp::WriteGidMap, x);
        let p4 = p3 + seq![HelperOp::Signal];
        steps::lemma_step_has(p3, true, HelperOp::Signal, x);
        assert(helper_ops(m) == p4);
    }
}

/// Where a step after the process was made stands among the others: it is handed over before its pid
/// is read where it joins a namespace of pids, and after it is noted where it does not.
pub open spec fn after_clone_turn(joins: bool, op: CreateOp) -> int {
    let hand: int = if joins {
        0
    } else {
        10
    };
    match op {
        CreateOp::SendTerminal => hand,
        CreateOp::DenySetgroups => hand + 1,
        CreateOp::WriteUidMap => hand + 2,
        CreateOp::WriteGidMap => hand + 3,
        CreateOp::SignalMaps => hand + 4,
        CreateOp::ReadInitPid => 5,
        CreateOp::WriteInitPid => 6,
        CreateOp::WritePidFile => 7,
        CreateOp::WriteCreating => 8,
        CreateOp::JoinCgroup => 15,
        CreateOp::WriteOom => 16,
        CreateOp::ApplyScheduler => 17,
        CreateOp::WriteHooks => 18,
        CreateOp::WriteCreated => 19,
        _ => 20,
    }
}

/// The turns, as a function.
pub open spec fn after_clone_turns(joins: bool) -> spec_fn(CreateOp) -> int {
    |op: CreateOp| after_clone_turn(joins, op)
}

/// After the process was made the steps are taken in turn: the right to change groups is given up
/// before the maps are written, the maps are there before the process goes on, and the state says
/// that it is created last.
pub proof fn law_after_clone_in_turn(
    p: CompiledPlan,
    in_cgroup: bool,
    pid_file: bool,
    i: int,
    j: int,
)
    requires
        0 <= i < j < after_clone_ops(p, in_cgroup, pid_file).len(),
    ensures
        ({
            let ops = after_clone_ops(p, in_cgroup, pid_file);
            after_clone_turn(child::joins_pid(p), ops[i]) <= after_clone_turn(
                child::joins_pid(p),
                ops[j],
            )
        }),
{
    let r = after_clone_turns(child::joins_pid(p));
    lemma_hand_in_turn(p);
    steps::lemma_one(CreateOp::WriteInitPid, r, 6);
    let n0 = seq![CreateOp::WriteInitPid];
    steps::lemma_when(pid_file, CreateOp::WritePidFile, r, 7);
    let n1 = n0 + steps::when(pid_file, seq![CreateOp::WritePidFile]);
    steps::lemma_rising(n0, steps::when(pid_file, seq![CreateOp::WritePidFile]), r, 6, 6, 7, 7);
    steps::lemma_one(CreateOp::WriteCreating, r, 8);
    let n2 = n1 + seq![CreateOp::WriteCreating];
    steps::lemma_rising(n1, seq![CreateOp::WriteCreating], r, 6, 7, 8, 8);
    assert(note_ops(pid_file) == n2);
    lemma_after_in_turn(p, in_cgroup);
    let b = before_pid(p);
    if child::joins_pid(p) {
        steps::lemma_one(CreateOp::ReadInitPid, r, 5);
        steps::lemma_rising(hand_over(p), seq![CreateOp::ReadInitPid], r, 0, 4, 5, 5);
    }
    assert(steps::rising(b, r, 0, 5)) by {
        reveal(steps::rising);
    }
    steps::lemma_rising(b, note_ops(pid_file), r, 0, 5, 6, 8);
    steps::lemma_rising(b + note_ops(pid_file), after_pid(p, in_cgroup), r, 0, 8, 9, 19);
    let ops = after_clone_ops(p, in_cgroup, pid_file);
    reveal(steps::rising);
    assert(r(ops[i]) <= r(ops[j]));
}

proof fn lemma_hand_in_turn(p: CompiledPlan)
    ensures
        child::joins_pid(p) ==> steps::rising(
            hand_over(p),
            after_clone_turns(child::joins_pid(p)),
            0,
            4,
        ),
        !child::joins_pid(p) ==> steps::rising(
            hand_over(p),
            after_clone_turns(child::joins_pid(p)),
            10,
            14,
        ),
{
    let r = after_clone_turns(child::joins_pid(p));
    if child::joins_pid(p) {
        steps::lemma_when(makes_terminal(p), CreateOp::SendTerminal, r, 0);
        let q0 = steps::when(makes_terminal(p), seq![CreateOp::SendTerminal]);
        steps::lemma_when(p.wants_userns, CreateOp::DenySetgroups, r, 1);
        let q1 = q0 + steps::when(p.wants_userns, seq![CreateOp::DenySetgroups]);
        steps::lemma_rising(q0, steps::when(p.wants_userns, seq![CreateOp::DenySetgroups]), r, 0, 0, 1, 1);
        steps::lemma_when(p.wants_userns, CreateOp::WriteUidMap, r, 2);
        let q2 = q1 + steps::when(p.wants_userns, seq![CreateOp::WriteUidMap]);
        steps::lemma_rising(q1, steps::when(p.wants_userns, seq![CreateOp::WriteUidMap]), r, 0, 1, 2, 2);
        steps::lemma_when(p.wants_userns, CreateOp::WriteGidMap, r, 3);
        let q3 = q2 + steps::when(p.wants_userns, seq![CreateOp::WriteGidMap]);
        steps::lemma_rising(q2, steps::when(p.wants_userns, seq![CreateOp::WriteGidMap]), r, 0, 2, 3, 3);
        steps::lemma_when(p.wants_userns, CreateOp::SignalMaps, r, 4);
        let q4 = q3 + steps::when(p.wants_userns, seq![CreateOp::SignalMaps]);
        steps::lemma_rising(q3, steps::when(p.wants_userns, seq![CreateOp::SignalMaps]), r, 0, 3, 4, 4);
        assert(hand_over(p) == q4);
    } else {
        steps::lemma_when(makes_terminal(p), CreateOp::SendTerminal, r, 10);
        let q0 = steps::when(makes_terminal(p), seq![CreateOp::SendTerminal]);
        steps::lemma_when(p.wants_userns, CreateOp::DenySetgroups, r, 11);
        let q1 = q0 + steps::when(p.wants_userns, seq![CreateOp::DenySetgroups]);
        steps::lemma_rising(q0, steps::when(p.wants_userns, seq![CreateOp::DenySetgroups]), r, 10, 10, 11, 11);
        steps::lemma_when(p.wants_userns, CreateOp::WriteUidMap, r, 12);
        let q2 = q1 + steps::when(p.wants_userns, seq![CreateOp::WriteUidMap]);
        steps::lemma_rising(q1, steps::when(p.wants_userns, seq![CreateOp::WriteUidMap]), r, 10, 11, 12, 12);
        steps::lemma_when(p.wants_userns, CreateOp::WriteGidMap, r, 13);
        let q3 = q2 + steps::when(p.wants_userns, seq![CreateOp::WriteGidMap]);
        steps::lemma_rising(q2, steps::when(p.wants_userns, seq![CreateOp::WriteGidMap]), r, 10, 12, 13, 13);
        steps::lemma_when(p.wants_userns, CreateOp::SignalMaps, r, 14);
        let q4 = q3 + steps::when(p.wants_userns, seq![CreateOp::SignalMaps]);
        steps::lemma_rising(q3, steps::when(p.wants_userns, seq![CreateOp::SignalMaps]), r, 10, 13, 14, 14);
        assert(hand_over(p) == q4);
    }
}

proof fn lemma_after_in_turn(p: CompiledPlan, in_cgroup: bool)
    ensures
        steps::rising(after_pid(p, in_cgroup), after_clone_turns(child::joins_pid(p)), 9, 19),
{
    let r = after_clone_turns(child::joins_pid(p));
    lemma_hand_in_turn(p);
    assert(steps::rising(steps::when(!child::joins_pid(p), hand_over(p)), r, 9, 14)) by {
        reveal(steps::rising);
    }
    let m0 = steps::when(!child::joins_pid(p), hand_over(p));
    steps::lemma_when(p.ext.cgroup_v2_path is Some && !in_cgroup, CreateOp::JoinCgroup, r, 15);
    let m1 = m0 + steps::when(p.ext.cgroup_v2_path is Some && !in_cgroup, seq![CreateOp::JoinCgroup]);
    steps::lemma_rising(m0, steps::when(p.ext.cgroup_v2_path is Some && !in_cgroup, seq![CreateOp::JoinCgroup]), r, 9, 14, 15, 15);
    steps::lemma_when(p.oom_score_adj is Some, CreateOp::WriteOom, r, 16);
    let m2 = m1 + steps::when(p.oom_score_adj is Some, seq![CreateOp::WriteOom]);
    steps::lemma_rising(m1, steps::when(p.oom_score_adj is Some, seq![CreateOp::WriteOom]), r, 9, 15, 16, 16);
    steps::lemma_when(p.scheduler is Some, CreateOp::ApplyScheduler, r, 17);
    let m3 = m2 + steps::when(p.scheduler is Some, seq![CreateOp::ApplyScheduler]);
    steps::lemma_rising(m2, steps::when(p.scheduler is Some, seq![CreateOp::ApplyScheduler]), r, 9, 16, 17, 17);
    steps::lemma_when(!p.ext.hooks.none(), CreateOp::WriteHooks, r, 18);
    let m4 = m3 + steps::when(!p.ext.hooks.none(), seq![CreateOp::WriteHooks]);
    steps::lemma_rising(m3, steps::when(!p.ext.hooks.none(), seq![CreateOp::WriteHooks]), r, 9, 17, 18, 18);
    steps::lemma_one(CreateOp::WriteCreated, r, 19);
    let m5 = m4 + seq![CreateOp::WriteCreated];
    steps::lemma_rising(m4, seq![CreateOp::WriteCreated], r, 9, 18, 19, 19);
    assert(after_pid(p, in_cgroup) == m5);
}

/// What is undone after a failure of a creation: what needs no undoing is left, a mount, a cgroup or
/// what the hooks did is torn down, and a process that is there is killed first. Limits of the
/// cgroup, the files that are handed on, groups, the cgroup and the score are passed over.
pub proof fn law_recoveries(op: CreateOp)
    ensures
        recovery(op) == Recovery::PassOver <==> op is WriteKnob || op == CreateOp::PreserveFds || op
            == CreateOp::DenySetgroups || op == CreateOp::JoinCgroup || op == CreateOp::WriteOom,
        recovery(op) == Recovery::TearDown <==> op == CreateOp::MountOverlay || op
            == CreateOp::WriteOverlayState || op == CreateOp::CompilePlan || op
            == CreateOp::CheckRootPath || op == CreateOp::MakeCgroup || op == CreateOp::AttachDevices
            || op == CreateOp::CreateRuntimeHooks || op == CreateOp::PrestartHooks,
        recovery(op) == Recovery::KillAndTearDown <==> op == CreateOp::SendTerminal || op
            == CreateOp::WriteUidMap || op == CreateOp::WriteGidMap || op == CreateOp::SignalMaps
            || op == CreateOp::ReadInitPid || op == CreateOp::WriteInitPid || op
            == CreateOp::WritePidFile || op == CreateOp::WriteCreating || op
            == CreateOp::ApplyScheduler || op == CreateOp::WriteHooks || op
            == CreateOp::WriteCreated,
{
}

/// The errors of a creation that are its own tell what they are about: the container that is there
/// already, the map that was not written and why, and the path that is no namespace of the kind
/// that it was declared to be.
pub proof fn law_create_told(s: Spec, id: Seq<char>, why: Seq<char>, i: usize)
    ensures
        create_fault(CreateOp::FindFree, s, id, why) == Some("container "@ + id + " already exists"@),
        create_fault(CreateOp::WriteUidMap, s, id, why) == Some("write uid_map: "@ + why),
        create_fault(CreateOp::WriteGidMap, s, id, why) == Some("write gid_map: "@ + why),
        i < s.namespaces@.len() ==> (s.namespaces@[i as int].path matches Some(p) ==> create_fault(
            CreateOp::CheckNamespace(i),
            s,
            id,
            why,
        ) == Some(
            "namespace path "@ + p@ + " does not match declared type "@
                + match s.namespaces@[i as int].kind {
                NamespaceKind::Pid => "Pid"@,
                NamespaceKind::Network => "Network"@,
                NamespaceKind::Mount => "Mount"@,
                NamespaceKind::Ipc => "Ipc"@,
                NamespaceKind::Uts => "Uts"@,
                NamespaceKind::Cgroup => "Cgroup"@,
                NamespaceKind::User => "User"@,
            },
        )),
        create_fault(CreateOp::Clone, s, id, why) is None,
{
}

/// The files of a process are below its directory, and its number is that of the process: the files of
/// two processes differ.
pub proof fn law_files_of_process(a: int, b: int, name: Seq<char>)
    requires
        proc_file(a, name) == proc_file(b, name),
    ensures
        a == b,
{
    let da = text::dec_int(a);
    let db = text::dec_int(b);
    let front = "/proc/"@;
    let back = "/"@ + name;
    let pa = proc_file(a, name);
    let pb = proc_file(b, name);
    assert(pa =~= front + da + back);
    assert(pb =~= front + db + back);
    assert(pa.len() == front.len() + da.len() + back.len());
    assert(pb.len() == front.len() + db.len() + back.len());
    let k = front.len() as int;
    assert(pa.subrange(k, k + da.len()) =~= da);
    assert(pb.subrange(k, k + db.len()) =~= db);
    if a != b {
        text::law_decimals_differ(a, b);
    }
}

/// A helper that cannot take its own namespace, or cannot have its ids mapped, ends with a code of its
/// own for each of the three; nothing else ends it.
pub proof fn law_helper_codes(op: HelperOp, other: HelperOp)
    ensures
        helper_code(op) is Some <==> op == HelperOp::Unshare || op == HelperOp::WriteUidMap || op
            == HelperOp::WriteGidMap,
        helper_code(op) matches Some(c) ==> c != 0 && (helper_code(other) == Some(c) ==> other == op),
        helper_code(HelperOp::Unshare) == Some(1i32),
        helper_code(HelperOp::WriteUidMap) == Some(2i32),
{
}

} // verus!
