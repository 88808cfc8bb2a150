//! Running a further process in a container.

use vstd::prelude::*;
use vstd::string::*;

use crate::child;
use crate::child::{failure_code, failure_reason, ChildOp};
use crate::error::Error;
use crate::json;
use crate::json::{
    get_at, get_bool_or, get_items, get_nonempty, get_strings, get_text_or, get_u64_or, parse_json,
    Json, JsonView,
};
use crate::plan;
use crate::plan::{compile_caps, CapBitmasks};
use crate::signal;
use crate::signal::exit_code_of;
use crate::spec;
use crate::spec::{get_u32s, parse_capabilities};
use crate::steps;
use crate::steps::{push_if, push_one};
use crate::text;
use crate::text::{cat2, clone_opt, clone_strings, contains_char, dec_i64, owned};

verus! {

/// A process to run in a container.
pub struct ExecProcess {
    pub args: Vec<String>,
    pub env: Vec<String>,
    pub cwd: String,
    pub uid: u32,
    pub gid: u32,
    pub additional_gids: Vec<u32>,
    pub no_new_privileges: bool,
    pub capabilities: Option<CapBitmasks>,
    pub apparmor_profile: Option<String>,
    pub selinux_label: Option<String>,
    pub terminal: bool,
}

/// How a command is run for an agent: with its output captured up to a limit, and a timeout.
pub struct AgentExecOpts {
    pub timeout_ms: Option<u64>,
    pub kill_tree: bool,
    pub max_output_bytes: usize,
    pub cwd: Option<String>,
    pub env: Vec<String>,
    pub json: bool,
    pub stdin: Option<Vec<u8>>,
}

/// A request to run a process in a container.
pub struct ExecRequest {
    pub id: String,
    pub process: ExecProcess,
    pub pid_file: Option<String>,
    pub detach: bool,
    pub console_socket: Option<String>,
    pub agent: Option<AgentExecOpts>,
}

/// A label in a process description: one that is empty or holds a NUL counts as none.
pub open spec fn label_at(v: Option<JsonView>) -> Option<Seq<char>> {
    match json::nonempty_text(v) {
        Some(s) => if text::has_char(s, '\0') {
            None
        } else {
            Some(s)
        },
        None => None,
    }
}

/// The capability sets in a process description.
pub open spec fn caps_at(v: Option<JsonView>) -> Option<CapBitmasks> {
    match v {
        Some(c) => Some(
            CapBitmasks {
                bounding: plan::cap_bits(json::string_list(json::field(c, "bounding"@))),
                effective: plan::cap_bits(json::string_list(json::field(c, "effective"@))),
                permitted: plan::cap_bits(json::string_list(json::field(c, "permitted"@))),
                inheritable: plan::cap_bits(json::string_list(json::field(c, "inheritable"@))),
                ambient: plan::cap_bits(json::string_list(json::field(c, "ambient"@))),
            },
        ),
        None => None,
    }
}

/// Whether the process is the one that `v` describes.
pub open spec fn described(p: ExecProcess, v: JsonView) -> bool {
    let user = json::field(v, "user"@);
    &&& text::texts(p.args@) == json::string_list(json::field(v, "args"@))
    &&& text::texts(p.env@) == json::string_list(json::field(v, "env"@))
    &&& p.cwd@ == json::text_or(json::field(v, "cwd"@), "/"@)
    &&& p.uid == json::u64_or(json::at(user, "uid"@), 0) as u32
    &&& p.gid == json::u64_or(json::at(user, "gid"@), 0) as u32
    &&& p.additional_gids@ == spec::u32_list(json::at(user, "additionalGids"@))
    &&& p.no_new_privileges == json::bool_or(json::field(v, "noNewPrivileges"@), false)
    &&& p.capabilities == caps_at(json::field(v, "capabilities"@))
    &&& text::opt_text(p.apparmor_profile) == label_at(json::field(v, "apparmorProfile"@))
    &&& text::opt_text(p.selinux_label) == label_at(json::field(v, "selinuxLabel"@))
    &&& p.terminal == json::bool_or(json::field(v, "terminal"@), false)
}

/// What is wrong with a process description, if anything: it must name a program.
pub open spec fn process_fault(v: JsonView) -> Option<Seq<char>> {
    match json::items_at(json::field(v, "args"@)) {
        None => Some("process.json: missing args"@),
        Some(a) => if json::strings_among(a).len() == 0 {
            Some("process.json: empty args"@)
        } else {
            None
        },
    }
}

/// Reads a label.
fn get_label(v: Option<&Json>) -> (r: Option<String>)
    ensures
        text::opt_text(r) == label_at(json::opt_view(v)),
{
    match get_nonempty(v) {
        Some(s) => if contains_char(s.as_str(), '\0') {
            None
        } else {
            Some(s)
        },
        None => None,
    }
}

/// Reads the capability sets.
fn get_caps(v: Option<&Json>) -> (r: Option<CapBitmasks>)
    ensures
        r == caps_at(json::opt_view(v)),
{
    match v {
        Some(c) => {
            let sets = parse_capabilities(c);
            Some(compile_caps(&sets))
        },
        None => None,
    }
}

/// Reads a process description.
pub fn parse_exec_process(bytes: &[u8]) -> (r: Result<ExecProcess, Error>)
    ensures
        match json::json_text(bytes@) {
            Err(why) => r is Err && (r->Err_0)@ == why,
            Ok(v) => match r {
                Ok(p) => process_fault(v) is None && described(p, v) && p.args@.len() > 0,
                Err(e) => process_fault(v) == Some(e@),
            },
        },
        r is Err ==> (r->Err_0).kind == json::fault_kind(bytes@),
{
    let v = match parse_json(bytes) {
        Ok(v) => v,
        Err(e) => {
            return Err(e);
        },
    };
    if get_items(v.get("args")).is_none() {
        return Err(Error::new(owned("process.json: missing args")));
    }
    let args = get_strings(v.get("args"));
    proof {
        assert(text::texts(args@).len() == args@.len());
    }
    if args.len() == 0 {
        return Err(Error::new(owned("process.json: empty args")));
    }
    let user = v.get("user");
    Ok(
        ExecProcess {
            args,
            env: get_strings(v.get("env")),
            cwd: get_text_or(v.get("cwd"), "/"),
            uid: get_u64_or(get_at(user, "uid"), 0) as u32,
            gid: get_u64_or(get_at(user, "gid"), 0) as u32,
            additional_gids: get_u32s(get_at(user, "additionalGids")),
            no_new_privileges: get_bool_or(v.get("noNewPrivileges"), false),
            capabilities: get_caps(v.get("capabilities")),
            apparmor_profile: get_label(v.get("apparmorProfile")),
            selinux_label: get_label(v.get("selinuxLabel")),
            terminal: get_bool_or(v.get("terminal"), false),
        },
    )
}

/// The error for a process description that cannot be read.
pub fn unreadable_process(path: &str, why: &str) -> (e: Error)
    ensures
        e@ == "exec: read process.json from "@ + path@ + ": "@ + why@,
{
    let mut s = owned("exec: read process.json from ");
    s.append(path);
    s.append(": ");
    s.append(why);
    Error::new(s)
}

/// Asks for the process that the description `process_json` names.
pub fn cmd_exec(id: &str, process_json: &[u8], pid_file: &Option<String>, detach: bool) -> (r:
    Result<ExecRequest, Error>)
    ensures
        match json::json_text(process_json@) {
            Err(why) => r is Err && (r->Err_0)@ == why,
            Ok(v) => match r {
                Ok(q) => process_fault(v) is None && described(q.process, v) && q.id@ == id@
                    && text::opt_text(q.pid_file) == text::opt_text(*pid_file) && q.detach == detach
                    && q.console_socket is None && q.agent is None,
                Err(e) => process_fault(v) == Some(e@),
            },
        },
        r is Ok ==> r->Ok_0.process.args@.len() > 0,
        r is Err ==> (r->Err_0).kind == json::fault_kind(process_json@),
{
    cmd_exec_full(id, process_json, pid_file, detach, &None)
}

/// Asks for the process that the description `process_json` names, with a socket on which an engine
/// waits for its terminal.
pub fn cmd_exec_full(
    id: &str,
    process_json: &[u8],
    pid_file: &Option<String>,
    detach: bool,
    console_socket: &Option<String>,
) -> (r: Result<ExecRequest, Error>)
    ensures
        match json::json_text(process_json@) {
            Err(why) => r is Err && (r->Err_0)@ == why,
            Ok(v) => match r {
                Ok(q) => process_fault(v) is None && described(q.process, v) && q.id@ == id@
                    && text::opt_text(q.pid_file) == text::opt_text(*pid_file) && q.detach == detach
                    && text::opt_text(q.console_socket) == text::opt_text(*console_socket)
                    && q.agent is None,
                Err(e) => process_fault(v) == Some(e@),
            },
        },
        r is Ok ==> r->Ok_0.process.args@.len() > 0,
        r is Err ==> (r->Err_0).kind == json::fault_kind(process_json@),
{
    match parse_exec_process(process_json) {
        Ok(process) => Ok(
            ExecRequest {
                id: owned(id),
                process,
                pid_file: clone_opt(pid_file),
                detach,
                console_socket: clone_opt(console_socket),
                agent: None,
            },
        ),
        Err(e) => Err(e),
    }
}

/// Whether the process is a bare command: root, with no restriction of its own.
pub open spec fn bare_command(
    p: ExecProcess,
    args: Seq<Seq<char>>,
    env: Seq<Seq<char>>,
    cwd: Option<Seq<char>>,
) -> bool {
    &&& text::texts(p.args@) == args
    &&& text::texts(p.env@) == env
    &&& p.cwd@ == (match cwd {
        Some(d) => d,
        None => "/"@,
    })
    &&& p.uid == 0
    &&& p.gid == 0
    &&& p.additional_gids@.len() == 0
    &&& !p.no_new_privileges
    &&& p.capabilities is None
    &&& p.apparmor_profile is None
    &&& p.selinux_label is None
    &&& !p.terminal
}

/// Asks for a command to be run for an agent.
pub fn cmd_exec_agent(id: &str, args: &Vec<String>, opts: AgentExecOpts) -> (r: Result<
    ExecRequest,
    Error,
>)
    ensures
        match r {
            Ok(q) => args@.len() > 0 && q.id@ == id@ && bare_command(
                q.process,
                text::texts(args@),
                text::texts(opts.env@),
                text::opt_text(opts.cwd),
            ) && q.pid_file is None && !q.detach && q.console_socket is None && q.agent == Some(
                opts,
            ),
            Err(e) => args@.len() == 0 && e@ == "exec: missing command"@,
        },
{
    if args.len() == 0 {
        return Err(Error::new(owned("exec: missing command")));
    }
    let process = ExecProcess {
        args: clone_strings(args),
        env: clone_strings(&opts.env),
        cwd: match &opts.cwd {
            Some(d) => d.clone(),
            None => owned("/"),
        },
        uid: 0,
        gid: 0,
        additional_gids: Vec::new(),
        no_new_privileges: false,
        capabilities: None,
        apparmor_profile: None,
        selinux_label: None,
        terminal: false,
    };
    Ok(
        ExecRequest {
            id: owned(id),
            process,
            pid_file: None,
            detach: false,
            console_socket: None,
            agent: Some(opts),
        },
    )
}

/// Whether the process can be handed to `execve`: no text in it holds a NUL.
pub open spec fn executable(p: ExecProcess) -> bool {
    &&& text::nul_free(p.cwd@)
    &&& plan::all_nul_free(text::texts(p.args@))
    &&& plan::all_nul_free(text::texts(p.env@))
}

/// Whether no text of a list holds a NUL.
fn clean_list(v: &Vec<String>) -> (r: bool)
    ensures
        r == plan::all_nul_free(text::texts(v@)),
{
    let ghost all = text::texts(v@);
    let mut i: usize = 0;
    while i < v.len()
        invariant
            i <= v.len(),
            all == text::texts(v@),
            forall|k: int| 0 <= k < i ==> text::nul_free(#[trigger] all[k]),
        decreases v.len() - i,
    {
        if contains_char(v[i].as_str(), '\0') {
            proof {
                assert(!text::nul_free(all[i as int]));
            }
            return false;
        }
        i += 1;
    }
    true
}

/// Whether the process can be handed to `execve`.
pub fn can_execute(p: &ExecProcess) -> (r: bool)
    ensures
        r == executable(*p),
{
    !contains_char(p.cwd.as_str(), '\0') && clean_list(&p.args) && clean_list(&p.env)
}

/// One thing the runtime does to run a process in a container.
#[derive(Debug, Clone, Copy, PartialEq, Eq, Structural)]
pub enum ExecOp {
    /// Hide the runtime's own program from the container.
    SetUndumpable,
    /// See that the container's state is there.
    FindContainer,
    /// Read the pid of its first process.
    ReadInitPid,
    /// See that the process is alive.
    FindInit,
    /// Open its cgroup and take a first sample.
    OpenCgroup,
    /// Make a terminal.
    OpenTerminal,
    /// Open its namespaces.
    OpenNamespaces,
    /// Join them.
    EnterNamespaces,
    /// Make the pipes of the standard streams.
    OpenPipes,
    /// Make the process.
    Fork,
    /// Hand the terminal to the engine.
    SendTerminal,
    /// Write the pid.
    WritePidFile,
    /// Put the process into the cgroup.
    JoinCgroup,
    /// Wait for the process and its output.
    WaitAgent,
    /// Wait for the process.
    Wait,
}

/// Whether the process gets a terminal.
pub open spec fn wants_terminal(q: ExecRequest) -> bool {
    q.process.terminal && q.console_socket is Some
}

/// What the runtime does, in order.
pub open spec fn exec_ops(q: ExecRequest) -> Seq<ExecOp> {
    seq![ExecOp::SetUndumpable] + seq![ExecOp::FindContainer] + seq![ExecOp::ReadInitPid]
        + seq![ExecOp::FindInit] + steps::when(q.agent is Some, seq![ExecOp::OpenCgroup])
        + steps::when(wants_terminal(q), seq![ExecOp::OpenTerminal])
        + seq![ExecOp::OpenNamespaces] + seq![ExecOp::EnterNamespaces] + steps::when(
        q.agent is Some,
        seq![ExecOp::OpenPipes],
    ) + seq![ExecOp::Fork] + steps::when(wants_terminal(q), seq![ExecOp::SendTerminal])
        + steps::when(q.pid_file is Some, seq![ExecOp::WritePidFile]) + steps::when(
        q.agent is Some,
        seq![ExecOp::JoinCgroup],
    ) + steps::when(q.agent is Some, seq![ExecOp::WaitAgent]) + steps::when(
        q.agent is None && !q.detach,
        seq![ExecOp::Wait],
    )
}

/// Lays out what the runtime does to run a process in a container.
pub fn run_exec_process(q: &ExecRequest) -> (v: Vec<ExecOp>)
    ensures
        v@ == exec_ops(*q),
{
    let agent = q.agent.is_some();
    let tty = q.process.terminal && q.console_socket.is_some();
    let mut v: Vec<ExecOp> = Vec::new();
    push_one(&mut v, ExecOp::SetUndumpable);
    proof {
        assert(v@ =~= seq![ExecOp::SetUndumpable]);
    }
    push_one(&mut v, ExecOp::FindContainer);
    push_one(&mut v, ExecOp::ReadInitPid);
    push_one(&mut v, ExecOp::FindInit);
    push_if(&mut v, agent, ExecOp::OpenCgroup);
    push_if(&mut v, tty, ExecOp::OpenTerminal);
    push_one(&mut v, ExecOp::OpenNamespaces);
    push_one(&mut v, ExecOp::EnterNamespaces);
    push_if(&mut v, agent, ExecOp::OpenPipes);
    push_one(&mut v, ExecOp::Fork);
    push_if(&mut v, tty, ExecOp::SendTerminal);
    push_if(&mut v, q.pid_file.is_some(), ExecOp::WritePidFile);
    push_if(&mut v, agent, ExecOp::JoinCgroup);
    push_if(&mut v, agent, ExecOp::WaitAgent);
    push_if(&mut v, !agent && !q.detach, ExecOp::Wait);
    v
}

/// Whether a failure of the step ends the request with an error; others are passed over.
pub open spec fn fails_exec(op: ExecOp) -> bool {
    match op {
        ExecOp::SetUndumpable => false,
        ExecOp::OpenCgroup => false,
        ExecOp::OpenNamespaces => false,
        ExecOp::EnterNamespaces => false,
        ExecOp::JoinCgroup => false,
        ExecOp::Wait => false,
        _ => true,
    }
}

/// The error of the library's own for a step that failed; where there is none, the error is that of
/// the call.
pub open spec fn exec_error(op: ExecOp, id: Seq<char>, root: Seq<char>, pid: int) -> Option<
    Seq<char>,
> {
    match op {
        ExecOp::FindContainer => Some(
            "container "@ + id + " does not exist (root="@ + root + ")"@,
        ),
        ExecOp::FindInit => Some(
            "container "@ + id + " init pid "@ + text::dec_int(pid) + " is no longer alive"@,
        ),
        _ => None,
    }
}

/// What follows a step that failed.
pub enum ExecFailure {
    /// The next step.
    PassOver,
    /// The request fails with the error of the call.
    CallError,
    /// The request fails with this error.
    Error(Error),
}

/// Decides what follows a step that failed.
pub fn after_exec_failure(op: ExecOp, id: &str, root: &str, pid: i32) -> (f: ExecFailure)
    ensures
        match f {
            ExecFailure::PassOver => !fails_exec(op),
            ExecFailure::CallError => fails_exec(op) && exec_error(op, id@, root@, pid as int)
                is None,
            ExecFailure::Error(e) => fails_exec(op) && exec_error(op, id@, root@, pid as int)
                == Some(e@),
        },
{
    match op {
        ExecOp::SetUndumpable => ExecFailure::PassOver,
        ExecOp::OpenCgroup => ExecFailure::PassOver,
        ExecOp::OpenNamespaces => ExecFailure::PassOver,
        ExecOp::EnterNamespaces => ExecFailure::PassOver,
        ExecOp::JoinCgroup => ExecFailure::PassOver,
        ExecOp::Wait => ExecFailure::PassOver,
        ExecOp::FindContainer => {
            let mut s = owned("container ");
            s.append(id);
            s.append(" does not exist (root=");
            s.append(root);
            s.append(")");
            ExecFailure::Error(Error::new(s))
        },
        ExecOp::FindInit => {
            let mut s = owned("container ");
            s.append(id);
            s.append(" init pid ");
            let n = dec_i64(pid as i64);
            s.append(n.as_str());
            s.append(" is no longer alive");
            ExecFailure::Error(Error::new(s))
        },
        _ => ExecFailure::CallError,
    }
}

/// The place of a step in the order in which the kernel wants them.
pub open spec fn exec_rank(op: ExecOp) -> int {
    match op {
        ExecOp::SetUndumpable => 0,
        ExecOp::FindContainer => 1,
        ExecOp::ReadInitPid => 2,
        ExecOp::FindInit => 3,
        ExecOp::OpenCgroup => 4,
        ExecOp::OpenTerminal => 5,
        ExecOp::OpenNamespaces => 6,
        ExecOp::EnterNamespaces => 7,
        ExecOp::OpenPipes => 8,
        ExecOp::Fork => 9,
        ExecOp::SendTerminal => 10,
        ExecOp::WritePidFile => 11,
        ExecOp::JoinCgroup => 12,
        ExecOp::WaitAgent => 13,
        ExecOp::Wait => 14,
    }
}

/// The runtime hides its own program before it does anything with the container, and joins the
/// namespaces before it makes the process: the pid namespace counts only for processes made later.
pub proof fn law_exec_order(q: ExecRequest)
    ensures
        steps::rising(exec_ops(q), |op: ExecOp| exec_rank(op), 0, 14),
        exec_ops(q)[0] == ExecOp::SetUndumpable,
        exec_ops(q).contains(ExecOp::EnterNamespaces),
        exec_ops(q).contains(ExecOp::Fork),
{
    let r = |op: ExecOp| exec_rank(op);
    let s0 = seq![ExecOp::SetUndumpable];
    let x1 = seq![ExecOp::FindContainer];
    let x2 = seq![ExecOp::ReadInitPid];
    let x3 = seq![ExecOp::FindInit];
    let x4 = steps::when(q.agent is Some, seq![ExecOp::OpenCgroup]);
    let x5 = steps::when(wants_terminal(q), seq![ExecOp::OpenTerminal]);
    let x6 = seq![ExecOp::OpenNamespaces];
    let x7 = seq![ExecOp::EnterNamespaces];
    let x8 = steps::when(q.agent is Some, seq![ExecOp::OpenPipes]);
    let x9 = seq![ExecOp::Fork];
    let x10 = steps::when(wants_terminal(q), seq![ExecOp::SendTerminal]);
    let x11 = steps::when(q.pid_file is Some, seq![ExecOp::WritePidFile]);
    let x12 = steps::when(q.agent is Some, seq![ExecOp::JoinCgroup]);
    let x13 = steps::when(q.agent is Some, seq![ExecOp::WaitAgent]);
    let x14 = steps::when(q.agent is None && !q.detach, seq![ExecOp::Wait]);
    steps::lemma_one(ExecOp::SetUndumpable, r, 0);
    steps::lemma_one(ExecOp::FindContainer, r, 1);
    steps::lemma_one(ExecOp::ReadInitPid, r, 2);
    steps::lemma_one(ExecOp::FindInit, r, 3);
    steps::lemma_when(q.agent is Some, ExecOp::OpenCgroup, r, 4);
    steps::lemma_when(wants_terminal(q), ExecOp::OpenTerminal, r, 5);
    steps::lemma_one(ExecOp::OpenNamespaces, r, 6);
    steps::lemma_one(ExecOp::EnterNamespaces, r, 7);
    steps::lemma_when(q.agent is Some, ExecOp::OpenPipes, r, 8);
    steps::lemma_one(ExecOp::Fork, r, 9);
    steps::lemma_when(wants_terminal(q), ExecOp::SendTerminal, r, 10);
    steps::lemma_when(q.pid_file is Some, ExecOp::WritePidFile, r, 11);
    steps::lemma_when(q.agent is Some, ExecOp::JoinCgroup, r, 12);
    steps::lemma_when(q.agent is Some, ExecOp::WaitAgent, r, 13);
    steps::lemma_when(q.agent is None && !q.detach, ExecOp::Wait, r, 14);
    steps::lemma_rising(s0, x1, r, 0, 0, 1, 1);
    let s1 = s0 + x1;
    steps::lemma_rising(s1, x2, r, 0, 1, 2, 2);
    let s2 = s1 + x2;
    steps::lemma_rising(s2, x3, r, 0, 2, 3, 3);
    let s3 = s2 + x3;
    steps::lemma_rising(s3, x4, r, 0, 3, 4, 4);
    let s4 = s3 + x4;
    steps::lemma_rising(s4, x5, r, 0, 4, 5, 5);
    let s5 = s4 + x5;
    steps::lemma_rising(s5, x6, r, 0, 5, 6, 6);
    let s6 = s5 + x6;
    steps::lemma_rising(s6, x7, r, 0, 6, 7, 7);
    let s7 = s6 + x7;
    assert(x7[0] == ExecOp::EnterNamespaces);
    steps::lemma_among(s6, x7, ExecOp::EnterNamespaces);
    steps::lemma_rising(s7, x8, r, 0, 7, 8, 8);
    let s8 = s7 + x8;
    steps::lemma_among(s7, x8, ExecOp::EnterNamespaces);
    steps::lemma_rising(s8, x9, r, 0, 8, 9, 9);
    let s9 = s8 + x9;
    steps::lemma_among(s8, x9, ExecOp::EnterNamespaces);
    assert(x9[0] == ExecOp::Fork);
    steps::lemma_among(s8, x9, ExecOp::Fork);
    steps::lemma_rising(s9, x10, r, 0, 9, 10, 10);
    let s10 = s9 + x10;
    steps::lemma_rising(s10, x11, r, 0, 10, 11, 11);
    let s11 = s10 + x11;
    steps::lemma_rising(s11, x12, r, 0, 11, 12, 12);
    let s12 = s11 + x12;
    steps::lemma_rising(s12, x13, r, 0, 12, 13, 13);
    let s13 = s12 + x13;
    steps::lemma_rising(s13, x14, r, 0, 13, 14, 14);
    let y = ExecOp::EnterNamespaces;
    steps::lemma_among(s9, x10, y);
    steps::lemma_among(s10, x11, y);
    steps::lemma_among(s11, x12, y);
    steps::lemma_among(s12, x13, y);
    steps::lemma_among(s13, x14, y);
    let z = ExecOp::Fork;
    steps::lemma_among(s9, x10, z);
    steps::lemma_among(s10, x11, z);
    steps::lemma_among(s11, x12, z);
    steps::lemma_among(s12, x13, z);
    steps::lemma_among(s13, x14, z);
}

/// The directory of the namespaces of a process.
pub open spec fn namespace_dir(pid: int) -> Seq<char> {
    "/proc/"@ + text::dec_int(pid) + "/ns"@
}

/// The namespaces a process is put into, in the order of joining: the user namespace first, since
/// it gives the right to join the others, and the mount namespace last, since it changes what paths
/// mean.
pub open spec fn joined_namespaces() -> Seq<Seq<char>> {
    seq!["user"@, "ipc"@, "uts"@, "net"@, "pid"@, "cgroup"@, "mnt"@]
}

/// The directory of the namespaces of a process.
pub fn init_namespaces(pid: i32) -> (s: String)
    ensures
        s@ == namespace_dir(pid as int),
{
    let mut s = owned("/proc/");
    let n = dec_i64(pid as i64);
    s.append(n.as_str());
    s.append("/ns");
    s
}

/// The files of the namespaces to join, in order.
pub fn namespace_files(pid: i32) -> (v: Vec<String>)
    ensures
        v@.len() == joined_namespaces().len(),
        forall|i: int|
            0 <= i < v@.len() ==> (#[trigger] v@[i])@ == namespace_dir(pid as int) + "/"@
                + joined_namespaces()[i],
{
    let dir = cat2(init_namespaces(pid).as_str(), "/");
    let d = dir.as_str();
    let mut v: Vec<String> = Vec::new();
    v.push(cat2(d, "user"));
    v.push(cat2(d, "ipc"));
    v.push(cat2(d, "uts"));
    v.push(cat2(d, "net"));
    v.push(cat2(d, "pid"));
    v.push(cat2(d, "cgroup"));
    v.push(cat2(d, "mnt"));
    v
}

/// What becomes of a request whose process ended with the status `status`.
pub open spec fn exec_result(status: i32) -> Result<(), Seq<char>> {
    if signal::shell_code(status) == 0 {
        Ok(())
    } else {
        Err("exec: exit "@ + text::dec_int(signal::shell_code(status)))
    }
}

/// Decides what becomes of a request whose process ended.
pub fn exec_outcome(status: i32) -> (r: Result<(), Error>)
    ensures
        match r {
            Ok(()) => exec_result(status) == Ok::<(), Seq<char>>(()),
            Err(e) => exec_result(status) == Err::<(), Seq<char>>(e@),
        },
{
    let code = exit_code_of(status);
    if code == 0 {
        Ok(())
    } else {
        let n = dec_i64(code as i64);
        Err(Error::new(cat2("exec: exit ", n.as_str())))
    }
}

/// One thing the process does before its program.
#[derive(Debug, Clone, Copy, PartialEq, Eq, Structural)]
pub enum ExecChildOp {
    /// Make the pipes its standard streams.
    TakePipes,
    /// Start a process group.
    OwnGroup,
    /// A step that the first process of a container takes too.
    Do(ChildOp),
}

/// The steps that set the process up as it is described.
pub open spec fn apply_ops(p: ExecProcess) -> Seq<ExecChildOp> {
    steps::when(p.additional_gids@.len() > 0, seq![ExecChildOp::Do(ChildOp::SetGroups)])
        + steps::when(
        p.capabilities is Some,
        seq![ExecChildOp::Do(ChildOp::DropBounding)],
    ) + steps::when(p.capabilities is Some, seq![ExecChildOp::Do(ChildOp::SetCaps)]) + steps::when(
        p.capabilities is Some,
        seq![ExecChildOp::Do(ChildOp::RaiseAmbient)],
    ) + steps::when(p.gid != 0, seq![ExecChildOp::Do(ChildOp::SetGid)]) + steps::when(
        p.uid != 0,
        seq![ExecChildOp::Do(ChildOp::KeepCaps)],
    ) + steps::when(p.uid != 0, seq![ExecChildOp::Do(ChildOp::SetUid)]) + steps::when(
        p.uid != 0 && p.capabilities is Some,
        seq![ExecChildOp::Do(ChildOp::ReadCaps)],
    ) + steps::when(
        p.uid != 0 && p.capabilities is Some,
        seq![ExecChildOp::Do(ChildOp::RestoreCaps)],
    ) + steps::when(
        p.uid != 0 && p.capabilities is Some,
        seq![ExecChildOp::Do(ChildOp::RaiseAmbientAgain)],
    ) + steps::when(p.no_new_privileges, seq![ExecChildOp::Do(ChildOp::NoNewPrivs)]) + steps::when(
        p.apparmor_profile is Some,
        seq![ExecChildOp::Do(ChildOp::CheckAppArmorName)],
    ) + steps::when(
        p.apparmor_profile is Some,
        seq![ExecChildOp::Do(ChildOp::OpenAppArmor)],
    ) + steps::when(
        p.apparmor_profile is Some,
        seq![ExecChildOp::Do(ChildOp::WriteAppArmor)],
    ) + steps::when(p.selinux_label is Some, seq![ExecChildOp::Do(ChildOp::OpenSelinux)])
        + steps::when(p.selinux_label is Some, seq![ExecChildOp::Do(ChildOp::WriteSelinux)])
}

/// Lays out the steps that set the process up as it is described: groups, capabilities, user,
/// no-new-privileges, security labels.
pub fn exec_apply(p: &ExecProcess) -> (v: Vec<ExecChildOp>)
    ensures
        v@ == apply_ops(*p),
{
    let caps = p.capabilities.is_some();
    let armor = p.apparmor_profile.is_some();
    let label = p.selinux_label.is_some();
    let mut v: Vec<ExecChildOp> = Vec::new();
    push_if(&mut v, p.additional_gids.len() > 0, ExecChildOp::Do(ChildOp::SetGroups));
    proof {
        assert(v@ =~= steps::when(
            p.additional_gids@.len() > 0,
            seq![ExecChildOp::Do(ChildOp::SetGroups)],
        ));
    }
    push_if(&mut v, caps, ExecChildOp::Do(ChildOp::DropBounding));
    push_if(&mut v, caps, ExecChildOp::Do(ChildOp::SetCaps));
    push_if(&mut v, caps, ExecChildOp::Do(ChildOp::RaiseAmbient));
    push_if(&mut v, p.gid != 0, ExecChildOp::Do(ChildOp::SetGid));
    push_if(&mut v, p.uid != 0, ExecChildOp::Do(ChildOp::KeepCaps));
    push_if(&mut v, p.uid != 0, ExecChildOp::Do(ChildOp::SetUid));
    push_if(&mut v, p.uid != 0 && caps, ExecChildOp::Do(ChildOp::ReadCaps));
    push_if(&mut v, p.uid != 0 && caps, ExecChildOp::Do(ChildOp::RestoreCaps));
    push_if(&mut v, p.uid != 0 && caps, ExecChildOp::Do(ChildOp::RaiseAmbientAgain));
    push_if(&mut v, p.no_new_privileges, ExecChildOp::Do(ChildOp::NoNewPrivs));
    push_if(&mut v, armor, ExecChildOp::Do(ChildOp::CheckAppArmorName));
    push_if(&mut v, armor, ExecChildOp::Do(ChildOp::OpenAppArmor));
    push_if(&mut v, armor, ExecChildOp::Do(ChildOp::WriteAppArmor));
    push_if(&mut v, label, ExecChildOp::Do(ChildOp::OpenSelinux));
    push_if(&mut v, label, ExecChildOp::Do(ChildOp::WriteSelinux));
    v
}

/// The steps before the process is set up.
pub open spec fn stream_ops(agent: bool, tty: bool) -> Seq<ExecChildOp> {
    steps::when(agent, seq![ExecChildOp::TakePipes]) + steps::when(
        agent,
        seq![ExecChildOp::OwnGroup],
    ) + steps::when(tty, seq![ExecChildOp::Do(ChildOp::NewSession)]) + steps::when(
        tty,
        seq![ExecChildOp::Do(ChildOp::ClaimTerminal)],
    ) + steps::when(tty, seq![ExecChildOp::Do(ChildOp::DupTerminal(0))]) + steps::when(
        tty,
        seq![ExecChildOp::Do(ChildOp::DupTerminal(1))],
    ) + steps::when(tty, seq![ExecChildOp::Do(ChildOp::DupTerminal(2))])
}

/// All steps of the process.
pub open spec fn exec_child_ops(q: ExecRequest) -> Seq<ExecChildOp> {
    stream_ops(q.agent is Some, wants_terminal(q)) + apply_ops(q.process)
        + seq![ExecChildOp::Do(ChildOp::Chdir)] + seq![ExecChildOp::Do(ChildOp::Exec)]
}

/// Lays out all steps of the process.
pub fn exec_child(q: &ExecRequest) -> (v: Vec<ExecChildOp>)
    ensures
        v@ == exec_child_ops(*q),
{
    let agent = q.agent.is_some();
    let tty = q.process.terminal && q.console_socket.is_some();
    let mut v: Vec<ExecChildOp> = Vec::new();
    push_if(&mut v, agent, ExecChildOp::TakePipes);
    proof {
        assert(v@ =~= steps::when(agent, seq![ExecChildOp::TakePipes]));
    }
    push_if(&mut v, agent, ExecChildOp::OwnGroup);
    push_if(&mut v, tty, ExecChildOp::Do(ChildOp::NewSession));
    push_if(&mut v, tty, ExecChildOp::Do(ChildOp::ClaimTerminal));
    push_if(&mut v, tty, ExecChildOp::Do(ChildOp::DupTerminal(0)));
    push_if(&mut v, tty, ExecChildOp::Do(ChildOp::DupTerminal(1)));
    push_if(&mut v, tty, ExecChildOp::Do(ChildOp::DupTerminal(2)));
    let mut set_up = exec_apply(&q.process);
    v.append(&mut set_up);
    push_one(&mut v, ExecChildOp::Do(ChildOp::Chdir));
    push_one(&mut v, ExecChildOp::Do(ChildOp::Exec));
    v
}

/// The exit code with which a failure ends the process; a failure without one is passed over.
pub open spec fn exec_child_code(op: ExecChildOp) -> Option<i32> {
    match op {
        ExecChildOp::TakePipes => Some(119i32),
        ExecChildOp::OwnGroup => None,
        ExecChildOp::Do(ChildOp::SetGid) => Some(101i32),
        ExecChildOp::Do(ChildOp::KeepCaps) => Some(102i32),
        ExecChildOp::Do(ChildOp::SetUid) => Some(103i32),
        ExecChildOp::Do(op) => child::fatal_code(op),
    }
}

/// The exit code with which a failure ends the process, if it does.
pub fn exec_failure_code(op: ExecChildOp) -> (c: Option<i32>)
    ensures
        c == exec_child_code(op),
{
    match op {
        ExecChildOp::TakePipes => Some(119i32),
        ExecChildOp::OwnGroup => None,
        ExecChildOp::Do(ChildOp::SetGid) => Some(101i32),
        ExecChildOp::Do(ChildOp::KeepCaps) => Some(102i32),
        ExecChildOp::Do(ChildOp::SetUid) => Some(103i32),
        ExecChildOp::Do(op) => failure_code(op),
    }
}

/// What the process says on its standard error before it ends; most failures say nothing.
pub open spec fn exec_child_note(op: ExecChildOp) -> Option<Seq<char>> {
    match op {
        ExecChildOp::Do(op) => match op {
            ChildOp::SetCaps => Some(child::fatal_reason(op)),
            ChildOp::ReadCaps => Some(child::fatal_reason(op)),
            ChildOp::RestoreCaps => Some(child::fatal_reason(op)),
            ChildOp::CheckAppArmorName => Some(child::fatal_reason(op)),
            ChildOp::OpenAppArmor => Some(child::fatal_reason(op)),
            ChildOp::WriteAppArmor => Some(child::fatal_reason(op)),
            ChildOp::OpenSelinux => Some(child::fatal_reason(op)),
            ChildOp::WriteSelinux => Some(child::fatal_reason(op)),
            _ => None,
        },
        _ => None,
    }
}

/// What the process says on its standard error before it ends, if anything.
pub fn exec_failure_note(op: ExecChildOp) -> (s: Option<&'static str>)
    ensures
        match s {
            Some(t) => exec_child_note(op) == Some(t@),
            None => exec_child_note(op) is None,
        },
{
    match op {
        ExecChildOp::Do(op) => match op {
            ChildOp::SetCaps => Some(failure_reason(op)),
            ChildOp::ReadCaps => Some(failure_reason(op)),
            ChildOp::RestoreCaps => Some(failure_reason(op)),
            ChildOp::CheckAppArmorName => Some(failure_reason(op)),
            ChildOp::OpenAppArmor => Some(failure_reason(op)),
            ChildOp::WriteAppArmor => Some(failure_reason(op)),
            ChildOp::OpenSelinux => Some(failure_reason(op)),
            ChildOp::WriteSelinux => Some(failure_reason(op)),
            _ => None,
        },
        _ => None,
    }
}

/// The place of a step in the order in which the kernel wants them.
pub open spec fn exec_child_rank(op: ExecChildOp) -> int {
    match op {
        ExecChildOp::Do(op) => match op {
            ChildOp::SetGroups => 1,
            ChildOp::DropBounding => 2,
            ChildOp::SetCaps => 2,
            ChildOp::RaiseAmbient => 2,
            ChildOp::SetGid => 3,
            ChildOp::KeepCaps => 4,
            ChildOp::SetUid => 4,
            ChildOp::ReadCaps => 4,
            ChildOp::RestoreCaps => 4,
            ChildOp::RaiseAmbientAgain => 4,
            ChildOp::NoNewPrivs => 5,
            ChildOp::CheckAppArmorName => 6,
            ChildOp::OpenAppArmor => 6,
            ChildOp::WriteAppArmor => 6,
            ChildOp::OpenSelinux => 7,
            ChildOp::WriteSelinux => 7,
            ChildOp::Chdir => 8,
            ChildOp::Exec => 9,
            _ => 0,
        },
        _ => 0,
    }
}

/// The rank as a function.
pub open spec fn exec_child_ranks() -> spec_fn(ExecChildOp) -> int {
    |op: ExecChildOp| exec_child_rank(op)
}

/// The process is set up in the order of the ranks.
proof fn lemma_apply_order(p: ExecProcess)
    ensures
        steps::rising(apply_ops(p), exec_child_ranks(), 1, 7),
{
    let r = exec_child_ranks();
    let x0 = steps::when(p.additional_gids@.len() > 0, seq![ExecChildOp::Do(ChildOp::SetGroups)]);
    steps::lemma_when(p.additional_gids@.len() > 0, ExecChildOp::Do(ChildOp::SetGroups), r, 1);
    let x1 = steps::when(p.capabilities is Some, seq![ExecChildOp::Do(ChildOp::DropBounding)]);
    steps::lemma_when(p.capabilities is Some, ExecChildOp::Do(ChildOp::DropBounding), r, 2);
    let x2 = steps::when(p.capabilities is Some, seq![ExecChildOp::Do(ChildOp::SetCaps)]);
    steps::lemma_when(p.capabilities is Some, ExecChildOp::Do(ChildOp::SetCaps), r, 2);
    let x3 = steps::when(p.capabilities is Some, seq![ExecChildOp::Do(ChildOp::RaiseAmbient)]);
    steps::lemma_when(p.capabilities is Some, ExecChildOp::Do(ChildOp::RaiseAmbient), r, 2);
    let x4 = steps::when(p.gid != 0, seq![ExecChildOp::Do(ChildOp::SetGid)]);
    steps::lemma_when(p.gid != 0, ExecChildOp::Do(ChildOp::SetGid), r, 3);
    let x5 = steps::when(p.uid != 0, seq![ExecChildOp::Do(ChildOp::KeepCaps)]);
    steps::lemma_when(p.uid != 0, ExecChildOp::Do(ChildOp::KeepCaps), r, 4);
    let x6 = steps::when(p.uid != 0, seq![ExecChildOp::Do(ChildOp::SetUid)]);
    steps::lemma_when(p.uid != 0, ExecChildOp::Do(ChildOp::SetUid), r, 4);
    let x7 = steps::when(p.uid != 0 && p.capabilities is Some, seq![ExecChildOp::Do(ChildOp::ReadCaps)]);
    steps::lemma_when(p.uid != 0 && p.capabilities is Some, ExecChildOp::Do(ChildOp::ReadCaps), r, 4);
    let x8 = steps::when(p.uid != 0 && p.capabilities is Some, seq![ExecChildOp::Do(ChildOp::RestoreCaps)]);
    steps::lemma_when(p.uid != 0 && p.capabilities is Some, ExecChildOp::Do(ChildOp::RestoreCaps), r, 4);
    let x9 = steps::when(
        p.uid != 0 && p.capabilities is Some,
        seq![ExecChildOp::Do(ChildOp::RaiseAmbientAgain)],
    );
    steps::lemma_when(
        p.uid != 0 && p.capabilities is Some,
        ExecChildOp::Do(ChildOp::RaiseAmbientAgain),
        r,
        4,
    );
    let x10 = steps::when(p.no_new_privileges, seq![ExecChildOp::Do(ChildOp::NoNewPrivs)]);
    steps::lemma_when(p.no_new_privileges, ExecChildOp::Do(ChildOp::NoNewPrivs), r, 5);
    let x11 = steps::when(p.apparmor_profile is Some, seq![ExecChildOp::Do(ChildOp::CheckAppArmorName)]);
    steps::lemma_when(p.apparmor_profile is Some, ExecChildOp::Do(ChildOp::CheckAppArmorName), r, 6);
    let x12 = steps::when(p.apparmor_profile is Some, seq![ExecChildOp::Do(ChildOp::OpenAppArmor)]);
    steps::lemma_when(p.apparmor_profile is Some, ExecChildOp::Do(ChildOp::OpenAppArmor), r, 6);
    let x13 = steps::when(p.apparmor_profile is Some, seq![ExecChildOp::Do(ChildOp::WriteAppArmor)]);
    steps::lemma_when(p.apparmor_profile is Some, ExecChildOp::Do(ChildOp::WriteAppArmor), r, 6);
    let x14 = steps::when(p.selinux_label is Some, seq![ExecChildOp::Do(ChildOp::OpenSelinux)]);
    steps::lemma_when(p.selinux_label is Some, ExecChildOp::Do(ChildOp::OpenSelinux), r, 7);
    let x15 = steps::when(p.selinux_label is Some, seq![ExecChildOp::Do(ChildOp::WriteSelinux)]);
    steps::lemma_when(p.selinux_label is Some, ExecChildOp::Do(ChildOp::WriteSelinux), r, 7);
    let s0 = x0;
    steps::lemma_rising(s0, x1, r, 1, 1, 2, 2);
    let s1 = s0 + x1;
    steps::lemma_rising(s1, x2, r, 1, 2, 2, 2);
    let s2 = s1 + x2;
    steps::lemma_rising(s2, x3, r, 1, 2, 2, 2);
    let s3 = s2 + x3;
    steps::lemma_rising(s3, x4, r, 1, 2, 3, 3);
    let s4 = s3 + x4;
    steps::lemma_rising(s4, x5, r, 1, 3, 4, 4);
    let s5 = s4 + x5;
    steps::lemma_rising(s5, x6, r, 1, 4, 4, 4);
    let s6 = s5 + x6;
    steps::lemma_rising(s6, x7, r, 1, 4, 4, 4);
    let s7 = s6 + x7;
    steps::lemma_rising(s7, x8, r, 1, 4, 4, 4);
    let s8 = s7 + x8;
    steps::lemma_rising(s8, x9, r, 1, 4, 4, 4);
    let s9 = s8 + x9;
    steps::lemma_rising(s9, x10, r, 1, 4, 5, 5);
    let s10 = s9 + x10;
    steps::lemma_rising(s10, x11, r, 1, 5, 6, 6);
    let s11 = s10 + x11;
    steps::lemma_rising(s11, x12, r, 1, 6, 6, 6);
    let s12 = s11 + x12;
    steps::lemma_rising(s12, x13, r, 1, 6, 6, 6);
    let s13 = s12 + x13;
    steps::lemma_rising(s13, x14, r, 1, 6, 7, 7);
    let s14 = s13 + x14;
    steps::lemma_rising(s14, x15, r, 1, 7, 7, 7);
    let s15 = s14 + x15;
}

/// What comes before concerns the standard streams alone.
proof fn lemma_streams(agent: bool, tty: bool)
    ensures
        steps::rising(stream_ops(agent, tty), exec_child_ranks(), 0, 0),
{
    let s = stream_ops(agent, tty);
    assert forall|i: int| 0 <= i < s.len() implies exec_child_ranks()(#[trigger] s[i]) == 0 by {
    }
    steps::lemma_level(s, exec_child_ranks(), 0);
}

/// The process takes on groups, capabilities, user, no-new-privileges and security labels in this
/// order, and its program last.
pub proof fn law_exec_child_order(q: ExecRequest)
    ensures
        steps::rising(exec_child_ops(q), exec_child_ranks(), 0, 9),
        exec_child_ops(q).len() > 0,
        exec_child_ops(q).last() == ExecChildOp::Do(ChildOp::Exec),
{
    let r = exec_child_ranks();
    let a = stream_ops(q.agent is Some, wants_terminal(q));
    let b = apply_ops(q.process);
    let c = seq![ExecChildOp::Do(ChildOp::Chdir)];
    let d = seq![ExecChildOp::Do(ChildOp::Exec)];
    lemma_streams(q.agent is Some, wants_terminal(q));
    lemma_apply_order(q.process);
    steps::lemma_rising(a, b, r, 0, 0, 1, 7);
    steps::lemma_one(ExecChildOp::Do(ChildOp::Chdir), r, 8);
    steps::lemma_rising(a + b, c, r, 0, 7, 8, 8);
    steps::lemma_one(ExecChildOp::Do(ChildOp::Exec), r, 9);
    steps::lemma_rising(a + b + c, d, r, 0, 8, 9, 9);
}

/// Which steps a command in a container takes: the terminal's only where one is wanted and there is
/// a socket to send it to, the agent's only for an agent, and a wait unless it is left to itself.
pub proof fn law_exec_steps(q: ExecRequest, x: ExecOp)
    ensures
        exec_ops(q).contains(x) <==> match x {
            ExecOp::OpenCgroup => q.agent is Some,
            ExecOp::OpenPipes => q.agent is Some,
            ExecOp::JoinCgroup => q.agent is Some,
            ExecOp::WaitAgent => q.agent is Some,
            ExecOp::OpenTerminal => q.process.terminal && q.console_socket is Some,
            ExecOp::SendTerminal => q.process.terminal && q.console_socket is Some,
            ExecOp::WritePidFile => q.pid_file is Some,
            ExecOp::Wait => q.agent is None && !q.detach,
            _ => true,
        },
{
    let none = Seq::<ExecOp>::empty();
    let p0 = seq![ExecOp::SetUndumpable];
    assert(none + p0 =~= p0);
    steps::lemma_step_has(none, true, ExecOp::SetUndumpable, x);
    let p1 = p0 + seq![ExecOp::FindContainer];
    steps::lemma_step_has(p0, true, ExecOp::FindContainer, x);
    let p2 = p1 + seq![ExecOp::ReadInitPid];
    steps::lemma_step_has(p1, true, ExecOp::ReadInitPid, x);
    let p3 = p2 + seq![ExecOp::FindInit];
    steps::lemma_step_has(p2, true, ExecOp::FindInit, x);
    let p4 = p3 + steps::when(q.agent is Some, seq![ExecOp::OpenCgroup]);
    steps::lemma_step_has(p3, q.agent is Some, ExecOp::OpenCgroup, x);
    let p5 = p4 + steps::when(wants_terminal(q), seq![ExecOp::OpenTerminal]);
    steps::lemma_step_has(p4, wants_terminal(q), ExecOp::OpenTerminal, x);
    let p6 = p5 + seq![ExecOp::OpenNamespaces];
    steps::lemma_step_has(p5, true, ExecOp::OpenNamespaces, x);
    let p7 = p6 + seq![ExecOp::EnterNamespaces];
    steps::lemma_step_has(p6, true, ExecOp::EnterNamespaces, x);
    let p8 = p7 + steps::when(q.agent is Some, seq![ExecOp::OpenPipes]);
    steps::lemma_step_has(p7, q.agent is Some, ExecOp::OpenPipes, x);
    let p9 = p8 + seq![ExecOp::Fork];
    steps::lemma_step_has(p8, true, ExecOp::Fork, x);
    let p10 = p9 + steps::when(wants_terminal(q), seq![ExecOp::SendTerminal]);
    steps::lemma_step_has(p9, wants_terminal(q), ExecOp::SendTerminal, x);
    let p11 = p10 + steps::when(q.pid_file is Some, seq![ExecOp::WritePidFile]);
    steps::lemma_step_has(p10, q.pid_file is Some, ExecOp::WritePidFile, x);
    let p12 = p11 + steps::when(q.agent is Some, seq![ExecOp::JoinCgroup]);
    steps::lemma_step_has(p11, q.agent is Some, ExecOp::JoinCgroup, x);
    let p13 = p12 + steps::when(q.agent is Some, seq![ExecOp::WaitAgent]);
    steps::lemma_step_has(p12, q.agent is Some, ExecOp::WaitAgent, x);
    let p14 = p13 + steps::when(q.agent is None && !q.detach, seq![ExecOp::Wait]);
    steps::lemma_step_has(p13, q.agent is None && !q.detach, ExecOp::Wait, x);
    assert(exec_ops(q) == p14);
}

/// What the process of a command applies to itself: groups, capabilities, ids, no new privileges and
/// labels, each only where it is asked for; the capabilities that a change of user takes away are
/// put back.
pub proof fn law_apply_steps(p: ExecProcess, x: ExecChildOp)
    ensures
        apply_ops(p).contains(x) <==> match x {
            ExecChildOp::Do(ChildOp::SetGroups) => p.additional_gids@.len() > 0,
            ExecChildOp::Do(ChildOp::DropBounding) => p.capabilities is Some,
            ExecChildOp::Do(ChildOp::SetCaps) => p.capabilities is Some,
            ExecChildOp::Do(ChildOp::RaiseAmbient) => p.capabilities is Some,
            ExecChildOp::Do(ChildOp::SetGid) => p.gid != 0,
            ExecChildOp::Do(ChildOp::KeepCaps) => p.uid != 0,
            ExecChildOp::Do(ChildOp::SetUid) => p.uid != 0,
            ExecChildOp::Do(ChildOp::ReadCaps) => p.uid != 0 && p.capabilities is Some,
            ExecChildOp::Do(ChildOp::RestoreCaps) => p.uid != 0 && p.capabilities is Some,
            ExecChildOp::Do(ChildOp::RaiseAmbientAgain) => p.uid != 0 && p.capabilities is Some,
            ExecChildOp::Do(ChildOp::NoNewPrivs) => p.no_new_privileges,
            ExecChildOp::Do(ChildOp::CheckAppArmorName) => p.apparmor_profile is Some,
            ExecChildOp::Do(ChildOp::OpenAppArmor) => p.apparmor_profile is Some,
            ExecChildOp::Do(ChildOp::WriteAppArmor) => p.apparmor_profile is Some,
            ExecChildOp::Do(ChildOp::OpenSelinux) => p.selinux_label is Some,
            ExecChildOp::Do(ChildOp::WriteSelinux) => p.selinux_label is Some,
            _ => false,
        },
{
    let none = Seq::<ExecChildOp>::empty();
    let p0 = steps::when(p.additional_gids@.len() > 0, seq![ExecChildOp::Do(ChildOp::SetGroups)]);
    assert(none + p0 =~= p0);
    steps::lemma_step_has(none, p.additional_gids@.len() > 0, ExecChildOp::Do(ChildOp::SetGroups), x);
    let p1 = p0 + steps::when(p.capabilities is Some, seq![ExecChildOp::Do(ChildOp::DropBounding)]);
    steps::lemma_step_has(p0, p.capabilities is Some, ExecChildOp::Do(ChildOp::DropBounding), x);
    let p2 = p1 + steps::when(p.capabilities is Some, seq![ExecChildOp::Do(ChildOp::SetCaps)]);
    steps::lemma_step_has(p1, p.capabilities is Some, ExecChildOp::Do(ChildOp::SetCaps), x);
    let p3 = p2 + steps::when(p.capabilities is Some, seq![ExecChildOp::Do(ChildOp::RaiseAmbient)]);
    steps::lemma_step_has(p2, p.capabilities is Some, ExecChildOp::Do(ChildOp::RaiseAmbient), x);
    let p4 = p3 + steps::when(p.gid != 0, seq![ExecChildOp::Do(ChildOp::SetGid)]);
    steps::lemma_step_has(p3, p.gid != 0, ExecChildOp::Do(ChildOp::SetGid), x);
    let p5 = p4 + steps::when(p.uid != 0, seq![ExecChildOp::Do(ChildOp::KeepCaps)]);
    steps::lemma_step_has(p4, p.uid != 0, ExecChildOp::Do(ChildOp::KeepCaps), x);
    let p6 = p5 + steps::when(p.uid != 0, seq![ExecChildOp::Do(ChildOp::SetUid)]);
    steps::lemma_step_has(p5, p.uid != 0, ExecChildOp::Do(ChildOp::SetUid), x);
    let p7 = p6 + steps::when(p.uid != 0 && p.capabilities is Some, seq![ExecChildOp::Do(ChildOp::ReadCaps)]);
    steps::lemma_step_has(p6, p.uid != 0 && p.capabilities is Some, ExecChildOp::Do(ChildOp::ReadCaps), x);
    let p8 = p7 + steps::when(p.uid != 0 && p.capabilities is Some, seq![ExecChildOp::Do(ChildOp::RestoreCaps)]);
    steps::lemma_step_has(p7, p.uid != 0 && p.capabilities is Some, ExecChildOp::Do(ChildOp::RestoreCaps), x);
    let p9 = p8 + steps::when(p.uid != 0 && p.capabilities is Some, seq![ExecChildOp::Do(ChildOp::RaiseAmbientAgain)]);
    steps::lemma_step_has(p8, p.uid != 0 && p.capabilities is Some, ExecChildOp::Do(ChildOp::RaiseAmbientAgain), x);
    let p10 = p9 + steps::when(p.no_new_privileges, seq![ExecChildOp::Do(ChildOp::NoNewPrivs)]);
    steps::lemma_step_has(p9, p.no_new_privileges, ExecChildOp::Do(ChildOp::NoNewPrivs), x);
    let p11 = p10 + steps::when(p.apparmor_profile is Some, seq![ExecChildOp::Do(ChildOp::CheckAppArmorName)]);
    steps::lemma_step_has(p10, p.apparmor_profile is Some, ExecChildOp::Do(ChildOp::CheckAppArmorName), x);
    let p12 = p11 + steps::when(p.apparmor_profile is Some, seq![ExecChildOp::Do(ChildOp::OpenAppArmor)]);
    steps::lemma_step_has(p11, p.apparmor_profile is Some, ExecChildOp::Do(ChildOp::OpenAppArmor), x);
    let p13 = p12 + steps::when(p.apparmor_profile is Some, seq![ExecChildOp::Do(ChildOp::WriteAppArmor)]);
    steps::lemma_step_has(p12, p.apparmor_profile is Some, ExecChildOp::Do(ChildOp::WriteAppArmor), x);
    let p14 = p13 + steps::when(p.selinux_label is Some, seq![ExecChildOp::Do(ChildOp::OpenSelinux)]);
    steps::lemma_step_has(p13, p.selinux_label is Some, ExecChildOp::Do(ChildOp::OpenSelinux), x);
    let p15 = p14 + steps::when(p.selinux_label is Some, seq![ExecChildOp::Do(ChildOp::WriteSelinux)]);
    steps::lemma_step_has(p14, p.selinux_label is Some, ExecChildOp::Do(ChildOp::WriteSelinux), x);
    assert(apply_ops(p) == p15);
}

/// What the process of a command does with its streams.
pub proof fn law_stream_steps(agent: bool, tty: bool, x: ExecChildOp)
    ensures
        stream_ops(agent, tty).contains(x) <==> match x {
            ExecChildOp::TakePipes => agent,
            ExecChildOp::OwnGroup => agent,
            ExecChildOp::Do(ChildOp::NewSession) => tty,
            ExecChildOp::Do(ChildOp::ClaimTerminal) => tty,
            ExecChildOp::Do(ChildOp::DupTerminal(fd)) => tty && fd <= 2,
            _ => false,
        },
{
    let none = Seq::<ExecChildOp>::empty();
    let p0 = steps::when(agent, seq![ExecChildOp::TakePipes]);
    assert(none + p0 =~= p0);
    steps::lemma_step_has(none, agent, ExecChildOp::TakePipes, x);
    let p1 = p0 + steps::when(agent, seq![ExecChildOp::OwnGroup]);
    steps::lemma_step_has(p0, agent, ExecChildOp::OwnGroup, x);
    let p2 = p1 + steps::when(tty, seq![ExecChildOp::Do(ChildOp::NewSession)]);
    steps::lemma_step_has(p1, tty, ExecChildOp::Do(ChildOp::NewSession), x);
    let p3 = p2 + steps::when(tty, seq![ExecChildOp::Do(ChildOp::ClaimTerminal)]);
    steps::lemma_step_has(p2, tty, ExecChildOp::Do(ChildOp::ClaimTerminal), x);
    let p4 = p3 + steps::when(tty, seq![ExecChildOp::Do(ChildOp::DupTerminal(0))]);
    steps::lemma_step_has(p3, tty, ExecChildOp::Do(ChildOp::DupTerminal(0)), x);
    let p5 = p4 + steps::when(tty, seq![ExecChildOp::Do(ChildOp::DupTerminal(1))]);
    steps::lemma_step_has(p4, tty, ExecChildOp::Do(ChildOp::DupTerminal(1)), x);
    let p6 = p5 + steps::when(tty, seq![ExecChildOp::Do(ChildOp::DupTerminal(2))]);
    steps::lemma_step_has(p5, tty, ExecChildOp::Do(ChildOp::DupTerminal(2)), x);
    assert(stream_ops(agent, tty) == p6);
}

/// The process of a command takes its streams, applies what it is to apply, goes to its directory and
/// becomes the command.
pub proof fn law_exec_child_steps(q: ExecRequest, x: ExecChildOp)
    ensures
        exec_child_ops(q).contains(x) <==> stream_ops(
            q.agent is Some,
            q.process.terminal && q.console_socket is Some,
        ).contains(x) || apply_ops(q.process).contains(x) || x == ExecChildOp::Do(ChildOp::Chdir)
            || x == ExecChildOp::Do(ChildOp::Exec),
{
    let none = Seq::<ExecChildOp>::empty();
    let p0 = stream_ops(q.agent is Some, wants_terminal(q));
    assert(none + p0 =~= p0);
    let p1 = p0 + apply_ops(q.process);
    steps::lemma_sum_has(p0, apply_ops(q.process), x);
    let p2 = p1 + seq![ExecChildOp::Do(ChildOp::Chdir)];
    steps::lemma_step_has(p1, true, ExecChildOp::Do(ChildOp::Chdir), x);
    let p3 = p2 + seq![ExecChildOp::Do(ChildOp::Exec)];
    steps::lemma_step_has(p2, true, ExecChildOp::Do(ChildOp::Exec), x);
    assert(exec_child_ops(q) == p3);
}

/// What a process document says, member by member: what is there counts, and what is missing or of
/// another kind has its default. A label that is empty or holds a NUL byte is none.
pub proof fn law_process_described(p: ExecProcess, v: JsonView, n: u32, bit: u32)
    requires
        described(p, v),
        bit < 64,
    ensures
        ({
            let cwd = json::field(v, "cwd"@);
            let user = json::field(v, "user"@);
            let uid = json::at(user, "uid"@);
            let gid = json::at(user, "gid"@);
            let profile = json::field(v, "apparmorProfile"@);
            let label = json::field(v, "selinuxLabel"@);
            let caps = json::field(v, "capabilities"@);
            &&& text::texts(p.args@) == json::strings_of(json::field(v, "args"@))
            &&& text::texts(p.env@) == json::strings_of(json::field(v, "env"@))
            &&& cwd matches Some(JsonView::Str(t)) ==> p.cwd@ == t
            &&& !(cwd matches Some(JsonView::Str(_))) ==> p.cwd@ == "/"@
            &&& uid == Some(JsonView::UInt(n as u64)) ==> p.uid == n
            &&& !(uid matches Some(JsonView::UInt(_))) ==> p.uid == 0
            &&& gid == Some(JsonView::UInt(n as u64)) ==> p.gid == n
            &&& !(gid matches Some(JsonView::UInt(_))) ==> p.gid == 0
            &&& p.no_new_privileges <==> json::field(v, "noNewPrivileges"@) == Some(
                JsonView::Bool(true),
            )
            &&& p.terminal <==> json::field(v, "terminal"@) == Some(JsonView::Bool(true))
            &&& profile matches Some(JsonView::Str(t)) ==> (t.len() > 0 && !text::has_char(t, '\0')
                ==> text::opt_text(p.apparmor_profile) == Some(t))
            &&& p.apparmor_profile is Some ==> profile == Some(
                JsonView::Str(p.apparmor_profile->Some_0@),
            )
            &&& label matches Some(JsonView::Str(t)) ==> (t.len() > 0 && !text::has_char(t, '\0')
                ==> text::opt_text(p.selinux_label) == Some(t))
            &&& p.selinux_label is Some ==> label == Some(JsonView::Str(p.selinux_label->Some_0@))
            &&& p.capabilities is Some == caps is Some
            &&& caps matches Some(c) ==> {
                let m = p.capabilities->Some_0;
                &&& m.bounding & (1u64 << bit) != 0 <==> names_cap(
                    json::strings_of(json::field(c, "bounding"@)),
                    bit,
                )
                &&& m.effective & (1u64 << bit) != 0 <==> names_cap(
                    json::strings_of(json::field(c, "effective"@)),
                    bit,
                )
                &&& m.permitted & (1u64 << bit) != 0 <==> names_cap(
                    json::strings_of(json::field(c, "permitted"@)),
                    bit,
                )
                &&& m.inheritable & (1u64 << bit) != 0 <==> names_cap(
                    json::strings_of(json::field(c, "inheritable"@)),
                    bit,
                )
                &&& m.ambient & (1u64 << bit) != 0 <==> names_cap(
                    json::strings_of(json::field(c, "ambient"@)),
                    bit,
                )
            }
        }),
{
    json::law_string_list(json::field(v, "args"@));
    json::law_string_list(json::field(v, "env"@));
    match json::field(v, "capabilities"@) {
        Some(c) => {
            lemma_named_caps(json::field(c, "bounding"@), bit);
            lemma_named_caps(json::field(c, "effective"@), bit);
            lemma_named_caps(json::field(c, "permitted"@), bit);
            lemma_named_caps(json::field(c, "inheritable"@), bit);
            lemma_named_caps(json::field(c, "ambient"@), bit);
        },
        None => {},
    }
}

/// Whether names have a capability among them.
pub open spec fn names_cap(names: Seq<Seq<char>>, bit: u32) -> bool {
    exists|i: int| 0 <= i < names.len() && plan::cap_number(#[trigger] names[i]) == Some(bit)
}

proof fn lemma_named_caps(v: Option<JsonView>, bit: u32)
    requires
        bit < 64,
    ensures
        plan::cap_bits(json::string_list(v)) & (1u64 << bit) != 0 <==> names_cap(
            json::strings_of(v),
            bit,
        ),
{
    json::law_string_list(v);
    plan::law_cap_mask_bits(json::string_list(v), bit);
}

/// A process needs arguments: a list, and a string in it.
pub proof fn law_process_needs_args(v: JsonView)
    ensures
        process_fault(v) is None <==> (json::field(v, "args"@) matches Some(JsonView::Array(_)))
            && json::strings_of(json::field(v, "args"@)).len() > 0,
{
    json::law_string_list(json::field(v, "args"@));
}

/// A command given by its words runs as root, in the directory that is said or else in `/`, and with
/// nothing else set.
pub proof fn law_bare_command(
    p: ExecProcess,
    args: Seq<Seq<char>>,
    env: Seq<Seq<char>>,
    cwd: Option<Seq<char>>,
)
    requires
        bare_command(p, args, env, cwd),
    ensures
        text::texts(p.args@) == args,
        text::texts(p.env@) == env,
        cwd matches Some(d) ==> p.cwd@ == d,
        cwd is None ==> p.cwd@ == "/"@,
        p.uid == 0 && p.gid == 0 && p.additional_gids@.len() == 0,
        p.capabilities is None && p.apparmor_profile is None && p.selinux_label is None,
        !p.terminal && !p.no_new_privileges,
{
}

/// Which namespaces of the container a command enters: all kinds, that of the users first, so that
/// the others may be entered, and that of the mounts last, since the paths change with it.
pub proof fn law_entered_namespaces(name: Seq<char>)
    ensures
        joined_namespaces().len() == 7,
        joined_namespaces()[0] == "user"@,
        joined_namespaces()[6] == "mnt"@,
        joined_namespaces().contains("ipc"@),
        joined_namespaces().contains("uts"@),
        joined_namespaces().contains("net"@),
        joined_namespaces().contains("pid"@),
        joined_namespaces().contains("cgroup"@),
{
    let v = joined_namespaces();
    assert(v[1] == "ipc"@ && v[2] == "uts"@ && v[3] == "net"@ && v[4] == "pid"@ && v[5]
        == "cgroup"@);
}

/// What comes of a command: all is well exactly where it exited with zero.
pub proof fn law_exec_result(status: i32)
    ensures
        exec_result(status) is Ok <==> signal::shell_code(status) == 0,
        exec_result(status) matches Err(t) ==> t == "exec: exit "@ + text::dec_int(
            signal::shell_code(status),
        ),
{
}

/// A step that sets up a command and fails ends it, but for those that may be missing on a machine
/// or that are undone by the end itself.
pub proof fn law_exec_failures(op: ExecOp)
    ensures
        !fails_exec(op) <==> op == ExecOp::SetUndumpable || op == ExecOp::OpenCgroup || op
            == ExecOp::OpenNamespaces || op == ExecOp::EnterNamespaces || op == ExecOp::JoinCgroup
            || op == ExecOp::Wait,
{
}

/// The codes with which the process of a command ends where it cannot become what it is to be.
pub proof fn law_exec_child_codes(op: ChildOp)
    ensures
        exec_child_code(ExecChildOp::TakePipes) == Some(119i32),
        exec_child_code(ExecChildOp::OwnGroup) is None,
        op == ChildOp::SetGid ==> exec_child_code(ExecChildOp::Do(op)) == Some(101i32),
        op == ChildOp::KeepCaps ==> exec_child_code(ExecChildOp::Do(op)) == Some(102i32),
        op == ChildOp::SetUid ==> exec_child_code(ExecChildOp::Do(op)) == Some(103i32),
        op != ChildOp::SetGid && op != ChildOp::KeepCaps && op != ChildOp::SetUid
            ==> exec_child_code(ExecChildOp::Do(op)) == child::fatal_code(op),
{
}

/// A NUL byte in a command's directory, arguments or environment keeps it from being run.
pub proof fn law_nul_not_executed(p: ExecProcess, i: int)
    ensures
        text::has_char(p.cwd@, '\0') ==> !executable(p),
        0 <= i < p.args@.len() && text::has_char(p.args@[i]@, '\0') ==> !executable(p),
        0 <= i < p.env@.len() && text::has_char(p.env@[i]@, '\0') ==> !executable(p),
{
    if executable(p) {
        if 0 <= i < p.args@.len() {
            assert(text::nul_free(text::texts(p.args@)[i]));
        }
        if 0 <= i < p.env@.len() {
            assert(text::nul_free(text::texts(p.env@)[i]));
        }
    }
}

/// Where a step of the process of a command stands among the others.
pub open spec fn exec_child_turn(op: ExecChildOp) -> int {
    match op {
        ExecChildOp::TakePipes => 0,
        ExecChildOp::OwnGroup => 1,
        ExecChildOp::Do(ChildOp::NewSession) => 2,
        ExecChildOp::Do(ChildOp::ClaimTerminal) => 3,
        ExecChildOp::Do(ChildOp::DupTerminal(fd)) => 4 + fd,
        ExecChildOp::Do(ChildOp::SetGroups) => 10,
        ExecChildOp::Do(ChildOp::DropBounding) => 11,
        ExecChildOp::Do(ChildOp::SetCaps) => 12,
        ExecChildOp::Do(ChildOp::RaiseAmbient) => 13,
        ExecChildOp::Do(ChildOp::SetGid) => 14,
        ExecChildOp::Do(ChildOp::KeepCaps) => 15,
        ExecChildOp::Do(ChildOp::SetUid) => 16,
        ExecChildOp::Do(ChildOp::ReadCaps) => 17,
        ExecChildOp::Do(ChildOp::RestoreCaps) => 18,
        ExecChildOp::Do(ChildOp::RaiseAmbientAgain) => 19,
        ExecChildOp::Do(ChildOp::NoNewPrivs) => 20,
        ExecChildOp::Do(ChildOp::CheckAppArmorName) => 21,
        ExecChildOp::Do(ChildOp::OpenAppArmor) => 22,
        ExecChildOp::Do(ChildOp::WriteAppArmor) => 23,
        ExecChildOp::Do(ChildOp::OpenSelinux) => 24,
        ExecChildOp::Do(ChildOp::WriteSelinux) => 25,
        ExecChildOp::Do(ChildOp::Chdir) => 26,
        ExecChildOp::Do(ChildOp::Exec) => 27,
        _ => 28,
    }
}

/// The turns, as a function.
pub open spec fn exec_child_turns() -> spec_fn(ExecChildOp) -> int {
    |op: ExecChildOp| exec_child_turn(op)
}

proof fn lemma_streams_in_turn(agent: bool, tty: bool)
    ensures
        steps::rising(stream_ops(agent, tty), exec_child_turns(), 0, 6),
{
    steps::lemma_when(agent, ExecChildOp::TakePipes, exec_child_turns(), 0);
    let q0 = steps::when(agent, seq![ExecChildOp::TakePipes]);
    steps::lemma_when(agent, ExecChildOp::OwnGroup, exec_child_turns(), 1);
    let q1 = q0 + steps::when(agent, seq![ExecChildOp::OwnGroup]);
    steps::lemma_rising(q0, steps::when(agent, seq![ExecChildOp::OwnGroup]), exec_child_turns(), 0, 0, 1, 1);
    steps::lemma_when(tty, ExecChildOp::Do(ChildOp::NewSession), exec_child_turns(), 2);
    let q2 = q1 + steps::when(tty, seq![ExecChildOp::Do(ChildOp::NewSession)]);
    steps::lemma_rising(q1, steps::when(tty, seq![ExecChildOp::Do(ChildOp::NewSession)]), exec_child_turns(), 0, 1, 2, 2);
    steps::lemma_when(tty, ExecChildOp::Do(ChildOp::ClaimTerminal), exec_child_turns(), 3);
    let q3 = q2 + steps::when(tty, seq![ExecChildOp::Do(ChildOp::ClaimTerminal)]);
    steps::lemma_rising(q2, steps::when(tty, seq![ExecChildOp::Do(ChildOp::ClaimTerminal)]), exec_child_turns(), 0, 2, 3, 3);
    steps::lemma_when(tty, ExecChildOp::Do(ChildOp::DupTerminal(0)), exec_child_turns(), 4);
    let q4 = q3 + steps::when(tty, seq![ExecChildOp::Do(ChildOp::DupTerminal(0))]);
    steps::lemma_rising(q3, steps::when(tty, seq![ExecChildOp::Do(ChildOp::DupTerminal(0))]), exec_child_turns(), 0, 3, 4, 4);
    steps::lemma_when(tty, ExecChildOp::Do(ChildOp::DupTerminal(1)), exec_child_turns(), 5);
    let q5 = q4 + steps::when(tty, seq![ExecChildOp::Do(ChildOp::DupTerminal(1))]);
    steps::lemma_rising(q4, steps::when(tty, seq![ExecChildOp::Do(ChildOp::DupTerminal(1))]), exec_child_turns(), 0, 4, 5, 5);
    steps::lemma_when(tty, ExecChildOp::Do(ChildOp::DupTerminal(2)), exec_child_turns(), 6);
    let q6 = q5 + steps::when(tty, seq![ExecChildOp::Do(ChildOp::DupTerminal(2))]);
    steps::lemma_rising(q5, steps::when(tty, seq![ExecChildOp::Do(ChildOp::DupTerminal(2))]), exec_child_turns(), 0, 5, 6, 6);
    assert(stream_ops(agent, tty) == q6);
}

proof fn lemma_apply_in_turn(p: ExecProcess)
    ensures
        steps::rising(apply_ops(p), exec_child_turns(), 10, 25),
{
    steps::lemma_when(p.additional_gids@.len() > 0, ExecChildOp::Do(ChildOp::SetGroups), exec_child_turns(), 10);
    let q0 = steps::when(p.additional_gids@.len() > 0, seq![ExecChildOp::Do(ChildOp::SetGroups)]);
    steps::lemma_when(p.capabilities is Some, ExecChildOp::Do(ChildOp::DropBounding), exec_child_turns(), 11);
    let q1 = q0 + steps::when(p.capabilities is Some, seq![ExecChildOp::Do(ChildOp::DropBounding)]);
    steps::lemma_rising(q0, steps::when(p.capabilities is Some, seq![ExecChildOp::Do(ChildOp::DropBounding)]), exec_child_turns(), 10, 10, 11, 11);
    steps::lemma_when(p.capabilities is Some, ExecChildOp::Do(ChildOp::SetCaps), exec_child_turns(), 12);
    let q2 = q1 + steps::when(p.capabilities is Some, seq![ExecChildOp::Do(ChildOp::SetCaps)]);
    steps::lemma_rising(q1, steps::when(p.capabilities is Some, seq![ExecChildOp::Do(ChildOp::SetCaps)]), exec_child_turns(), 10, 11, 12, 12);
    steps::lemma_when(p.capabilities is Some, ExecChildOp::Do(ChildOp::RaiseAmbient), exec_child_turns(), 13);
    let q3 = q2 + steps::when(p.capabilities is Some, seq![ExecChildOp::Do(ChildOp::RaiseAmbient)]);
    steps::lemma_rising(q2, steps::when(p.capabilities is Some, seq![ExecChildOp::Do(ChildOp::RaiseAmbient)]), exec_child_turns(), 10, 12, 13, 13);
    steps::lemma_when(p.gid != 0, ExecChildOp::Do(ChildOp::SetGid), exec_child_turns(), 14);
    let q4 = q3 + steps::when(p.gid != 0, seq![ExecChildOp::Do(ChildOp::SetGid)]);
    steps::lemma_rising(q3, steps::when(p.gid != 0, seq![ExecChildOp::Do(ChildOp::SetGid)]), exec_child_turns(), 10, 13, 14, 14);
    steps::lemma_when(p.uid != 0, ExecChildOp::Do(ChildOp::KeepCaps), exec_child_turns(), 15);
    let q5 = q4 + steps::when(p.uid != 0, seq![ExecChildOp::Do(ChildOp::KeepCaps)]);
    steps::lemma_rising(q4, steps::when(p.uid != 0, seq![ExecChildOp::Do(ChildOp::KeepCaps)]), exec_child_turns(), 10, 14, 15, 15);
    steps::lemma_when(p.uid != 0, ExecChildOp::Do(ChildOp::SetUid), exec_child_turns(), 16);
    let q6 = q5 + steps::when(p.uid != 0, seq![ExecChildOp::Do(ChildOp::SetUid)]);
    steps::lemma_rising(q5, steps::when(p.uid != 0, seq![ExecChildOp::Do(ChildOp::SetUid)]), exec_child_turns(), 10, 15, 16, 16);
    steps::lemma_when(p.uid != 0 && p.capabilities is Some, ExecChildOp::Do(ChildOp::ReadCaps), exec_child_turns(), 17);
    let q7 = q6 + steps::when(p.uid != 0 && p.capabilities is Some, seq![ExecChildOp::Do(ChildOp::ReadCaps)]);
    steps::lemma_rising(q6, steps::when(p.uid != 0 && p.capabilities is Some, seq![ExecChildOp::Do(ChildOp::ReadCaps)]), exec_child_turns(), 10, 16, 17, 17);
    steps::lemma_when(p.uid != 0 && p.capabilities is Some, ExecChildOp::Do(ChildOp::RestoreCaps), exec_child_turns(), 18);
    let q8 = q7 + steps::when(p.uid != 0 && p.capabilities is Some, seq![ExecChildOp::Do(ChildOp::RestoreCaps)]);
    steps::lemma_rising(q7, steps::when(p.uid != 0 && p.capabilities is Some, seq![ExecChildOp::Do(ChildOp::RestoreCaps)]), exec_child_turns(), 10, 17, 18, 18);
    steps::lemma_when(p.uid != 0 && p.capabilities is Some, ExecChildOp::Do(ChildOp::RaiseAmbientAgain), exec_child_turns(), 19);
    let q9 = q8 + steps::when(p.uid != 0 && p.capabilities is Some, seq![ExecChildOp::Do(ChildOp::RaiseAmbientAgain)]);
    steps::lemma_rising(q8, steps::when(p.uid != 0 && p.capabilities is Some, seq![ExecChildOp::Do(ChildOp::RaiseAmbientAgain)]), exec_child_turns(), 10, 18, 19, 19);
    steps::lemma_when(p.no_new_privileges, ExecChildOp::Do(ChildOp::NoNewPrivs), exec_child_turns(), 20);
    let q10 = q9 + steps::when(p.no_new_privileges, seq![ExecChildOp::Do(ChildOp::NoNewPrivs)]);
    steps::lemma_rising(q9, steps::when(p.no_new_privileges, seq![ExecChildOp::Do(ChildOp::NoNewPrivs)]), exec_child_turns(), 10, 19, 20, 20);
    steps::lemma_when(p.apparmor_profile is Some, ExecChildOp::Do(ChildOp::CheckAppArmorName), exec_child_turns(), 21);
    let q11 = q10 + steps::when(p.apparmor_profile is Some, seq![ExecChildOp::Do(ChildOp::CheckAppArmorName)]);
    steps::lemma_rising(q10, steps::when(p.apparmor_profile is Some, seq![ExecChildOp::Do(ChildOp::CheckAppArmorName)]), exec_child_turns(), 10, 20, 21, 21);
    steps::lemma_when(p.apparmor_profile is Some, ExecChildOp::Do(ChildOp::OpenAppArmor), exec_child_turns(), 22);
    let q12 = q11 + steps::when(p.apparmor_profile is Some, seq![ExecChildOp::Do(ChildOp::OpenAppArmor)]);
    steps::lemma_rising(q11, steps::when(p.apparmor_profile is Some, seq![ExecChildOp::Do(ChildOp::OpenAppArmor)]), exec_child_turns(), 10, 21, 22, 22);
    steps::lemma_when(p.apparmor_profile is Some, ExecChildOp::Do(ChildOp::WriteAppArmor), exec_child_turns(), 23);
    let q13 = q12 + steps::when(p.apparmor_profile is Some, seq![ExecChildOp::Do(ChildOp::WriteAppArmor)]);
    steps::lemma_rising(q12, steps::when(p.apparmor_profile is Some, seq![ExecChildOp::Do(ChildOp::WriteAppArmor)]), exec_child_turns(), 10, 22, 23, 23);
    steps::lemma_when(p.selinux_label is Some, ExecChildOp::Do(ChildOp::OpenSelinux), exec_child_turns(), 24);
    let q14 = q13 + steps::when(p.selinux_label is Some, seq![ExecChildOp::Do(ChildOp::OpenSelinux)]);
    steps::lemma_rising(q13, steps::when(p.selinux_label is Some, seq![ExecChildOp::Do(ChildOp::OpenSelinux)]), exec_child_turns(), 10, 23, 24, 24);
    steps::lemma_when(p.selinux_label is Some, ExecChildOp::Do(ChildOp::WriteSelinux), exec_child_turns(), 25);
    let q15 = q14 + steps::when(p.selinux_label is Some, seq![ExecChildOp::Do(ChildOp::WriteSelinux)]);
    steps::lemma_rising(q14, steps::when(p.selinux_label is Some, seq![ExecChildOp::Do(ChildOp::WriteSelinux)]), exec_child_turns(), 10, 24, 25, 25);
    assert(apply_ops(p) == q15);
}

/// The process of a command takes its steps in turn: the capabilities are set before the user changes
/// and are kept over it, nothing can be gained after that, and the labels come last before it
/// becomes the command.
pub proof fn law_exec_child_in_turn(q: ExecRequest, i: int, j: int)
    requires
        0 <= i < j < exec_child_ops(q).len(),
    ensures
        exec_child_turn(exec_child_ops(q)[i]) <= exec_child_turn(exec_child_ops(q)[j]),
{
    lemma_streams_in_turn(q.agent is Some, wants_terminal(q));
    let s0 = stream_ops(q.agent is Some, wants_terminal(q));
    lemma_apply_in_turn(q.process);
    let s1 = s0 + apply_ops(q.process);
    steps::lemma_rising(s0, apply_ops(q.process), exec_child_turns(), 0, 6, 10, 25);
    steps::lemma_one(ExecChildOp::Do(ChildOp::Chdir), exec_child_turns(), 26);
    let s2 = s1 + seq![ExecChildOp::Do(ChildOp::Chdir)];
    steps::lemma_rising(s1, seq![ExecChildOp::Do(ChildOp::Chdir)], exec_child_turns(), 0, 25, 26, 26);
    steps::lemma_one(ExecChildOp::Do(ChildOp::Exec), exec_child_turns(), 27);
    let s3 = s2 + seq![ExecChildOp::Do(ChildOp::Exec)];
    steps::lemma_rising(s2, seq![ExecChildOp::Do(ChildOp::Exec)], exec_child_turns(), 0, 26, 27, 27);
    assert(exec_child_ops(q) == s3);
    reveal(steps::rising);
    let turns = exec_child_turns();
    assert(turns(exec_child_ops(q)[i]) <= turns(exec_child_ops(q)[j]));
}

} // verus!
