use rsrun::agent::{
    emit_agent_exec_result, kill_exec_tree, parse_cgroup_key, pids_but, read_cgroup_sample,
    read_number, wait_agent_exec, AgentWait, CapturedStream, CgroupSample, ReadNext, WriteNext,
};
use rsrun::bpf::{
    attach_device_cgroup_bpf, attach_request, load_request, not_attached, rejected, BpfNext, BpfOp,
};
use rsrun::child::{child_run, next_step, reason_of, Cause, ChildNext, ChildOp, StepOutcome};
use rsrun::child_calls::{
    after_hook_poll, after_hook_wait, after_start_poll, after_start_read, after_sync_read,
    apparmor_request, cap_words, child_die, dropped_caps, exec_by_path, mount_call,
    namespace_matches, raised_caps, restored_words, wrote_all, Await,
};
use rsrun::create::{
    after_relay_read, apply_scheduler, cmd_create, cmd_create_full, cmd_create_with_ext, comm_hint,
    create_after_clone, create_before_clone, create_error, create_first, create_write,
    helper_failure, last_preserved, recover, spawn_idmap_helpers, with_request, CreateFacts,
    CreateOp, HelperOp, Recovery, RelayNext,
};
use rsrun::deadline::{poll_timeout, Deadline};
use rsrun::devices;
use rsrun::exec::{
    after_exec_failure, can_execute, cmd_exec, cmd_exec_agent, cmd_exec_full, exec_child,
    exec_failure_code, exec_failure_note, exec_outcome, namespace_files, run_exec_process,
    unreadable_process, AgentExecOpts, ExecChildOp, ExecFailure, ExecOp,
};
use rsrun::json::parse_json;
use rsrun::plan::{CapBitmasks, CompiledPlan, CreateOpts, ExtPlan, CLONE_NEWPID};
use rsrun::spec::{NamespaceKind, SchedulerSpec, Spec};
use rsrun::state::ContainerPaths;

fn s(t: &str) -> String {
    t.to_string()
}

fn spec_of(text: &str) -> Spec {
    match Spec::from_bundle(text.as_bytes(), "/bundle") {
        Ok(v) => v,
        Err(e) => panic!("{}", e.message()),
    }
}

fn plan_of(text: &str) -> CompiledPlan {
    match CompiledPlan::from_spec(&spec_of(text)) {
        Ok(p) => p,
        Err(e) => panic!("{}", e.message()),
    }
}

const MINIMAL: &str = r#"{"process": {"args": ["/bin/true"]}, "root": {"path": "rootfs"}}"#;

fn agent_opts() -> AgentExecOpts {
    AgentExecOpts {
        timeout_ms: Some(50),
        kill_tree: true,
        max_output_bytes: 4,
        cwd: None,
        env: vec![],
        json: false,
        stdin: Some(b"abc".to_vec()),
    }
}

#[test]
fn the_first_process_ends_in_its_program() {
    let p = plan_of(MINIMAL);
    let ready = vec![true; p.sysctls.len()];
    let steps = child_run(&p, &ready, false);
    let at = |op: ChildOp| steps.iter().position(|x| x.op == op).unwrap();
    assert_eq!(steps.last().unwrap().op, ChildOp::Exec);
    assert!(at(ChildOp::MakePrivate) < at(ChildOp::PivotRoot));
    assert!(at(ChildOp::PivotRoot) < at(ChildOp::AwaitStart));
    assert!(at(ChildOp::AwaitStart) < at(ChildOp::Exec));
    let k = at(ChildOp::PivotRoot);
    assert_eq!(next_step(&steps, k, StepOutcome::Failed(Cause::Call)), ChildNext::Die(103));
    assert_eq!(next_step(&steps, k, StepOutcome::Done), ChildNext::At(k + 1));
    assert_eq!(reason_of(ChildOp::PivotRoot, Cause::Call), "pivot_root failed");
    assert_eq!(child_die("exec failed", 2), "rsrun-child: exec failed errno=2\n");
    assert_eq!(child_die("setsid failed", 0), "rsrun-child: setsid failed errno=0\n");
    assert_eq!(child_die("setsid failed", -1), "rsrun-child: setsid failed errno=\n");
}

#[test]
fn chroot_stands_in_for_pivot_root() {
    let mut p = plan_of(MINIMAL);
    p.no_pivot = true;
    let ready = vec![true; p.sysctls.len()];
    let steps = child_run(&p, &ready, false);
    assert!(steps.iter().any(|x| x.op == ChildOp::Chroot));
    assert!(!steps.iter().any(|x| x.op == ChildOp::PivotRoot));
}

#[test]
fn mounts_become_calls() {
    let p = plan_of(
        r#"{"process": {"args": ["/bin/true"]}, "root": {"path": "rootfs"},
            "mounts": [{"destination": "/proc", "type": "proc", "source": "proc"}],
            "linux": {"maskedPaths": ["/proc/kcore"], "readonlyPaths": ["/proc/sys"]}}"#,
    );
    let m = mount_call(&p, "/bundle/rootfs", ChildOp::Mount(0)).unwrap();
    assert_eq!(m.fstype.as_deref(), Some("proc"));
    let m = mount_call(&p, "/bundle/rootfs", ChildOp::BindRoot).unwrap();
    assert_eq!(m.source.as_deref(), Some("/bundle/rootfs"));
    assert_eq!(m.flags, (libc::MS_BIND | libc::MS_REC) as u64);
    let m = mount_call(&p, "/", ChildOp::MaskFile(0)).unwrap();
    assert_eq!(m.source.as_deref(), Some("/dev/null"));
    assert_eq!(m.target, "/proc/kcore");
    let m = mount_call(&p, "/", ChildOp::RemountReadonly(0)).unwrap();
    assert_eq!(
        m.flags,
        (libc::MS_BIND | libc::MS_REC | libc::MS_REMOUNT | libc::MS_RDONLY) as u64
    );
    assert!(mount_call(&p, "/", ChildOp::Mount(9)).is_none());
    assert!(mount_call(&p, "/", ChildOp::Exec).is_none());
    assert!(namespace_matches(NamespaceKind::Pid, CLONE_NEWPID as i64));
    assert!(!namespace_matches(NamespaceKind::Pid, -1));
    assert!(!namespace_matches(NamespaceKind::Uts, CLONE_NEWPID as i64));
}

#[test]
fn waits_go_on_or_end() {
    assert_eq!(after_sync_read(1, 0), Await::Go);
    assert_eq!(after_sync_read(0, 0), Await::Fail(Cause::PipeClosed));
    assert_eq!(after_sync_read(-1, libc::EINTR), Await::Again);
    assert_eq!(after_sync_read(-1, libc::EIO), Await::Fail(Cause::Call));
    assert_eq!(after_start_poll(1, 0), Await::Go);
    assert_eq!(after_start_poll(-1, libc::EINTR), Await::Again);
    assert_eq!(after_start_poll(-1, libc::EIO), Await::Fail(Cause::Poll));
    assert_eq!(after_start_read(1, 0), Await::Go);
    assert_eq!(after_start_read(-1, libc::EAGAIN), Await::Again);
    assert_eq!(after_start_read(-1, libc::EIO), Await::Fail(Cause::Call));
    assert_eq!(after_hook_poll(1, 0), Await::Go);
    assert_eq!(after_hook_poll(0, 0), Await::Fail(Cause::HookTimeout));
    assert_eq!(after_hook_poll(-1, libc::EINTR), Await::Again);
    assert_eq!(after_hook_poll(-1, libc::EIO), Await::Fail(Cause::HookPoll));
    assert_eq!(after_hook_wait(5, 0, 0), Await::Go);
    assert_eq!(after_hook_wait(5, 0, 1 << 8), Await::Fail(Cause::HookExit));
    assert_eq!(after_hook_wait(5, 0, 9), Await::Fail(Cause::HookSignal));
    assert_eq!(after_hook_wait(-1, libc::EINTR, 0), Await::Again);
    assert_eq!(after_hook_wait(-1, libc::ECHILD, 0), Await::Fail(Cause::HookWait));
}

#[test]
fn capability_sets_are_split_in_words() {
    let caps = CapBitmasks {
        bounding: 0b11,
        effective: 0x1_0000_0002,
        permitted: 0x3,
        inheritable: 0,
        ambient: 0b101,
    };
    let (low, high) = cap_words(&caps);
    assert_eq!((low.effective, high.effective), (2, 1));
    assert_eq!((low.permitted, high.permitted), (3, 0));
    let (low, _) = restored_words(&caps, (1, 0));
    assert_eq!(low.effective & !1, 0);
    let dropped = dropped_caps(caps.bounding);
    assert!(!dropped.contains(&0) && !dropped.contains(&1) && dropped.contains(&2));
    assert_eq!(raised_caps(caps.ambient), vec![0, 2]);
    assert_eq!(apparmor_request("p").unwrap(), b"exec p");
    assert!(apparmor_request(&"x".repeat(252)).is_none());
    assert!(wrote_all(3, 3) && !wrote_all(2, 3) && !wrote_all(-1, 3));
    assert!(exec_by_path("/bin/sh") && !exec_by_path("sh"));
}

#[test]
fn a_container_is_made_in_order() {
    let spec = spec_of(MINIMAL);
    let p = plan_of(MINIMAL);
    let first = create_first(&spec);
    assert_eq!(first[0], CreateOp::CheckDeadline);
    assert_eq!(first.last(), Some(&CreateOp::CheckRootPath));
    let before = create_before_clone(&p, &CreateOpts { preserve_fds: 1, no_pivot: false });
    assert_eq!(before.last(), Some(&CreateOp::Clone));
    assert!(before.contains(&CreateOp::PreserveFds));
    let after = create_after_clone(&p, false, true);
    assert_eq!(after.last(), Some(&CreateOp::WriteCreated));
    for op in &after {
        assert!(matches!(recover(*op), Recovery::PassOver | Recovery::KillAndTearDown));
    }
    assert_eq!(recover(CreateOp::FindFree), Recovery::Leave);
    assert_eq!(recover(CreateOp::PrestartHooks), Recovery::TearDown);
}

#[test]
fn a_failed_step_has_an_error() {
    let spec = spec_of(
        r#"{"process": {"args": ["/bin/true"]}, "root": {"path": "rootfs"},
            "linux": {"namespaces": [{"type": "network", "path": "/n"}]}}"#,
    );
    let message = |op: CreateOp| create_error(op, &spec, "c", "why").unwrap().message().to_string();
    assert_eq!(message(CreateOp::FindFree), "container c already exists");
    assert_eq!(
        message(CreateOp::CheckNamespace(0)),
        "namespace path /n does not match declared type Network"
    );
    assert_eq!(message(CreateOp::WriteUidMap), "write uid_map: why");
    assert_eq!(message(CreateOp::WriteGidMap), "write gid_map: why");
    assert_eq!(
        message(CreateOp::ReadInitPid),
        "PID-ns join: failed to read init pid from intermediate"
    );
    assert!(create_error(CreateOp::MakeState, &spec, "c", "why").is_none());
}

#[test]
fn steps_write_files() {
    let p = plan_of(MINIMAL);
    let f = CreateFacts {
        id: s("c"),
        bundle: s("/bundle"),
        paths: ContainerPaths { root: s("/st/c") },
        pid_file: Some(s("/p")),
        comm_hint: comm_hint(&vec![s("/usr/bin/a-very-long-name")]),
        pid: 5,
        init_pid: 6,
    };
    assert_eq!(f.comm_hint.as_deref(), Some("a-very-long-name"));
    let (file, content) = create_write(&p, &f, CreateOp::WriteInitPid).unwrap();
    assert_eq!((file.as_str(), &content[..]), ("/st/c/init.pid", &b"6"[..]));
    let (file, content) = create_write(&p, &f, CreateOp::WritePidFile).unwrap();
    assert_eq!((file.as_str(), &content[..]), ("/p", &b"6"[..]));
    let (file, content) = create_write(&p, &f, CreateOp::WriteCreated).unwrap();
    assert_eq!(file, "/st/c/state.json");
    let v = parse_json(&content).unwrap();
    assert_eq!(v.get("status").unwrap().as_str(), Some("created"));
    let (file, content) = create_write(&p, &f, CreateOp::DenySetgroups).unwrap();
    assert_eq!((file.as_str(), &content[..]), ("/proc/5/setgroups", &b"deny"[..]));
    assert!(create_write(&p, &f, CreateOp::WriteOom).is_none());
}

#[test]
fn requests_carry_what_was_asked() {
    let q = cmd_create("c", "/b", &None);
    assert_eq!(q.bundle, "/b");
    assert!(q.timeout_ms.is_none() && q.console_socket.is_none());
    let q = cmd_create_with_ext("c", "/b", &Some(s("/p")), ExtPlan::default());
    assert_eq!(q.pid_file.as_deref(), Some("/p"));
    let opts = CreateOpts { preserve_fds: 0, no_pivot: true };
    let q = cmd_create_full("c", "/b", &None, ExtPlan::default(), &Some(s("/sock")), opts);
    assert_eq!(q.console_socket.as_deref(), Some("/sock"));
    let p = with_request(plan_of(MINIMAL), q);
    assert!(p.no_pivot);
    assert_eq!(p.console_socket.as_deref(), Some("/sock"));
    assert_eq!(last_preserved(3), 5);
    assert_eq!(last_preserved(u32::MAX), 1);
    assert_eq!(after_relay_read(0, 2), RelayNext::More(2));
    assert_eq!(after_relay_read(2, 2), RelayNext::Whole);
    assert_eq!(after_relay_read(2, 0), RelayNext::Lost);
    assert_eq!(helper_failure(HelperOp::DenySetgroups), None);
    assert!(helper_failure(HelperOp::Unshare).is_some());
}

#[test]
fn idmapped_mounts_get_a_helper() {
    let p = plan_of(
        r#"{"process": {"args": ["/bin/true"]}, "root": {"path": "rootfs"},
            "mounts": [{"destination": "/d", "source": "/s", "options": ["bind"],
                "uidMappings": [{"containerID": 0, "hostID": 7, "size": 1}],
                "gidMappings": [{"containerID": 0, "hostID": 7, "size": 1}]}]}"#,
    );
    assert_eq!(p.mounts[0].idmap_uid, b"0 7 1\n");
    let helper = spawn_idmap_helpers(&p.mounts[0]);
    assert_eq!(helper[0], HelperOp::Unshare);
    assert_eq!(helper.last(), Some(&HelperOp::Signal));
    let a = apply_scheduler(&SchedulerSpec {
        policy: 1,
        flags: 2,
        nice: -3,
        priority: 4,
        runtime: 5,
        deadline: 6,
        period: 7,
    });
    assert_eq!((a.sched_policy, a.sched_flags, a.sched_nice, a.sched_priority), (1, 2, -3, 4));
    assert_eq!((a.sched_runtime, a.sched_deadline, a.sched_period), (5, 6, 7));
    assert_eq!(a.size as usize, 48);
}

#[test]
fn a_process_description_is_read() {
    let q = match cmd_exec("c", br#"{"args": ["/bin/sh"], "user": {"uid": 5}, "terminal": true}"#, &None, true) {
        Ok(q) => q,
        Err(e) => panic!("{}", e.message()),
    };
    assert_eq!(q.process.args, vec![s("/bin/sh")]);
    assert_eq!(q.process.uid, 5);
    assert_eq!(q.process.cwd, "/");
    assert!(q.detach && q.process.terminal);
    let message = |b: &[u8]| match cmd_exec("c", b, &None, false) {
        Ok(_) => panic!("accepted"),
        Err(e) => e.message().to_string(),
    };
    assert_eq!(message(b"{}"), "process.json: missing args");
    assert_eq!(message(br#"{"args": []}"#), "process.json: empty args");
    assert_eq!(
        unreadable_process("/p", "no such file").message(),
        "exec: read process.json from /p: no such file"
    );
    let q = match cmd_exec_full("c", br#"{"args": ["x"], "terminal": true}"#, &None, false, &Some(s("/s"))) {
        Ok(q) => q,
        Err(e) => panic!("{}", e.message()),
    };
    assert!(run_exec_process(&q).contains(&ExecOp::OpenTerminal));
}

#[test]
fn an_exec_goes_step_by_step() {
    let q = match cmd_exec_agent("c", &vec![s("ls")], agent_opts()) {
        Ok(q) => q,
        Err(e) => panic!("{}", e.message()),
    };
    let steps = run_exec_process(&q);
    let at = |op: ExecOp| steps.iter().position(|x| *x == op).unwrap();
    assert_eq!(at(ExecOp::SetUndumpable), 0);
    assert!(at(ExecOp::EnterNamespaces) < at(ExecOp::Fork));
    assert!(at(ExecOp::Fork) < at(ExecOp::WaitAgent));
    let child = exec_child(&q);
    assert_eq!(child.last(), Some(&ExecChildOp::Do(ChildOp::Exec)));
    assert_eq!(exec_failure_code(ExecChildOp::Do(ChildOp::Exec)), Some(127));
    assert_eq!(exec_failure_note(ExecChildOp::Do(ChildOp::SetCaps)), Some("capset failed"));
    assert!(exec_failure_note(ExecChildOp::Do(ChildOp::Exec)).is_none());
    assert!(can_execute(&q.process));
    match after_exec_failure(ExecOp::FindContainer, "c", "/st/c", 0) {
        ExecFailure::Error(e) => {
            assert_eq!(e.message(), "container c does not exist (root=/st/c)")
        }
        _ => panic!("no error"),
    }
    match after_exec_failure(ExecOp::FindInit, "c", "/st/c", 7) {
        ExecFailure::Error(e) => {
            assert_eq!(e.message(), "container c init pid 7 is no longer alive")
        }
        _ => panic!("no error"),
    }
    assert!(matches!(after_exec_failure(ExecOp::Fork, "c", "/", 0), ExecFailure::CallError));
    assert!(matches!(after_exec_failure(ExecOp::JoinCgroup, "c", "/", 0), ExecFailure::PassOver));
    assert!(namespace_files(7).iter().all(|f| f.starts_with("/proc/7/ns/")));
    assert!(exec_outcome(0).is_ok());
    assert!(exec_outcome(1 << 8).is_err());
    match cmd_exec_agent("c", &vec![], agent_opts()) {
        Ok(_) => panic!("accepted"),
        Err(e) => assert_eq!(e.message(), "exec: missing command"),
    }
}

#[test]
fn output_is_kept_up_to_a_limit() {
    let mut c = CapturedStream::new(4);
    c.push(b"abc", 4);
    assert!(!c.truncated);
    c.push(b"def", 4);
    assert_eq!(c.data, b"abcd");
    assert_eq!(c.bytes, 6);
    assert!(c.truncated);
}

#[test]
fn a_command_out_of_time_is_stopped() {
    let mut w = AgentWait::new(&agent_opts(), 100);
    assert_eq!(w.on_clock(149), None);
    assert_eq!(w.on_clock(150), Some(libc::SIGTERM));
    assert_eq!(w.on_clock(249), None);
    assert_eq!(w.on_clock(250), Some(libc::SIGKILL));
    assert_eq!(w.on_clock(9999), None);
    assert_eq!(w.on_write(2, 0), WriteNext::Wrote(2));
    assert!(w.stdin_open);
    assert_eq!(w.on_write(1, 0), WriteNext::Wrote(1));
    assert!(!w.stdin_open);
    assert_eq!(w.on_read(false, 5, 0, b"hello"), ReadNext::More);
    assert_eq!(w.on_read(true, 2, 0, &[0xff, 0x41]), ReadNext::More);
    assert_eq!(w.on_read(false, -1, libc::EAGAIN, b""), ReadNext::Later);
    assert_eq!(w.on_read(false, 0, 0, b""), ReadNext::Ended);
    assert_eq!(w.on_read(true, -1, libc::EIO, b""), ReadNext::Failed);
    assert!(!w.is_over());
    w.on_wait(7, 0, 0, 0);
    assert!(!w.is_over());
    w.on_wait(7, 7, 9, 0);
    assert!(w.is_over());
    let before = CgroupSample::default();
    let mut after = CgroupSample::default();
    after.cpu_usage_usec = 2500;
    after.memory_peak = 10;
    after.memory_current = 20;
    after.oom_kill = 1;
    let r = wait_agent_exec(w, 400, before, after);
    assert!(r.timeout && r.oom_killed);
    assert_eq!((r.exit_code, r.signal), (None, Some(9)));
    assert_eq!((r.duration_ms, r.cpu_ms, r.max_rss_bytes), (300, 2, 20));
    assert_eq!(r.failure_summary(), "timeout");
    assert_eq!(r.outcome(false).unwrap_err().message(), "exec: timeout");
    assert!(r.outcome(true).is_ok());
    let printed = emit_agent_exec_result(&r, true);
    let v = parse_json(&printed.stdout).unwrap();
    assert_eq!(v.get("stdout").unwrap().as_str(), Some("hell"));
    assert_eq!(v.get("stdout_bytes").unwrap().as_u64(), Some(5));
    assert_eq!(v.get("stderr").unwrap().as_str(), Some("\u{fffd}A"));
    assert_eq!(v.get("exit_code").unwrap().as_i64(), None);
    let plain = emit_agent_exec_result(&r, false);
    assert_eq!(plain.stdout, b"hell");
    assert_eq!(plain.stderr, &[0xff, 0x41]);
}

#[test]
fn samples_are_read_from_the_files_of_a_cgroup() {
    let a = read_cgroup_sample("usage_usec 9\n", "1\n", "2\n", "3\n", "x\n", "oom 4\noom_kill 5\n");
    assert_eq!((a.cpu_usage_usec, a.memory_current, a.memory_peak), (9, 1, 2));
    assert_eq!((a.pids_current, a.pids_peak, a.oom, a.oom_kill), (3, 0, 4, 5));
    assert_eq!(read_number(" 12 \n"), 12);
    assert_eq!(parse_cgroup_key("low 1\nhigh 2\n", "high"), 2);
    assert_eq!(pids_but("1\n2\nx\n3\n", 2), vec![1, 3]);
    assert_eq!(kill_exec_tree(5, true, libc::SIGTERM, ""), vec![-5, 5]);
}

#[test]
fn the_device_filter_is_loaded_and_attached() {
    assert_eq!(load_request(16).unwrap().insn_cnt, 2);
    assert_eq!(
        load_request(15).unwrap_err().message(),
        "device cgroup BPF program length not 8-byte aligned"
    );
    assert!(matches!(attach_device_cgroup_bpf(BpfOp::Load, 3, 0), BpfNext::Do(BpfOp::OpenCgroup)));
    assert!(matches!(
        attach_device_cgroup_bpf(BpfOp::Load, -1, libc::EINVAL),
        BpfNext::Do(BpfOp::LoadForReport)
    ));
    assert!(matches!(
        attach_device_cgroup_bpf(BpfOp::Load, -1, libc::EPERM),
        BpfNext::Do(BpfOp::LiftMemlock)
    ));
    assert!(matches!(attach_device_cgroup_bpf(BpfOp::LoadAgain, -1, 0), BpfNext::CallError));
    assert!(matches!(attach_device_cgroup_bpf(BpfOp::Attach, 0, 0), BpfNext::Done));
    assert!(matches!(attach_device_cgroup_bpf(BpfOp::Attach, -1, 0), BpfNext::AttachError));
    assert_eq!(
        rejected(b"bad insn\0rest").message(),
        "BPF verifier rejected device program (EINVAL):\nbad insn"
    );
    assert_eq!(not_attached("/cg", "why").message(), "BPF_PROG_ATTACH (cgroup=/cg): why");
    let a = attach_request(4, 5);
    assert_eq!((a.target_fd, a.attach_bpf_fd, a.attach_type, a.attach_flags), (4, 5, 6, 2));
}

fn answer(prog: &[u8], kind: u32, access: u32, major: u32, minor: u32) -> u32 {
    let word = |i: usize| u64::from_le_bytes(prog[i * 8..i * 8 + 8].try_into().unwrap());
    let mut regs = [0u32; 16];
    let mut pc = 0usize;
    loop {
        let w = word(pc);
        let code = w as u8;
        let dst = ((w >> 8) & 0xf) as usize;
        let off = (w >> 16) as i16;
        let imm = (w >> 32) as u32;
        pc += 1;
        match code {
            0x61 => {
                regs[dst] = match off {
                    0 => (access << 16) | kind,
                    4 => major,
                    _ => minor,
                }
            }
            0x74 => regs[dst] >>= imm,
            0x54 => regs[dst] &= imm,
            0xb4 => regs[dst] = imm,
            0x55 => {
                if regs[dst] != imm {
                    pc += off as usize
                }
            }
            0x45 => {
                if regs[dst] & imm != 0 {
                    pc += off as usize
                }
            }
            0x95 => return regs[0],
            other => panic!("instruction {other:#x}"),
        }
    }
}

#[test]
fn the_device_filter_answers_by_the_last_rule() {
    let r = parse_json(
        br#"{"devices": [
            {"allow": false, "access": "rwm"},
            {"allow": true, "type": "c", "major": 1, "minor": 3, "access": "rw"}
        ]}"#,
    )
    .unwrap();
    let prog = match devices::compile(Some(&r), None) {
        Ok(p) => p,
        Err(e) => panic!("{}", e.message()),
    };
    assert_eq!(prog.len() % 8, 0);
    assert_eq!(answer(&prog, 2, 2, 1, 3), 1);
    assert_eq!(answer(&prog, 2, 6, 1, 3), 1);
    assert_eq!(answer(&prog, 1, 2, 8, 0), 0);
    let none = parse_json(b"{}").unwrap();
    match devices::compile(Some(&none), None) {
        Ok(p) => assert!(p.is_empty()),
        Err(e) => panic!("{}", e.message()),
    }
}

fn filter(list: &str) -> Vec<u8> {
    let r = parse_json(list.as_bytes()).unwrap();
    match devices::compile(Some(&r), None) {
        Ok(p) => p,
        Err(e) => panic!("{}", e.message()),
    }
}

#[test]
fn a_device_rule_that_cannot_be_read_opens_nothing() {
    for bad in [
        r#"{"allow": true, "type": "c", "major": "8"}"#,
        r#"{"allow": true, "type": "c", "major": 8.5}"#,
        r#"{"allow": true, "type": "c", "minor": null}"#,
        r#"{"allow": true, "type": "x"}"#,
        r#"{"allow": true, "type": 5}"#,
        r#"{"allow": true, "access": "rx"}"#,
        r#"{"allow": true, "access": 7}"#,
    ] {
        let prog = filter(&format!(r#"{{"devices": [{bad}]}}"#));
        assert_eq!(answer(&prog, 2, 2, 8, 0), 0, "{bad}");
        assert_eq!(answer(&prog, 1, 2, 8, 0), 0, "{bad}");
        assert_eq!(answer(&prog, 2, 2, 1, 3), 1, "{bad}");
    }
    let prog = filter(
        r#"{"devices": [{"allow": false, "type": "c", "major": "8"}, {"allow": true}]}"#,
    );
    assert_eq!(answer(&prog, 2, 2, 8, 0), 0);
    assert_eq!(answer(&prog, 1, 2, 9, 9), 0);
}

#[test]
fn device_numbers_cover_one_or_all() {
    let all = filter(r#"{"devices": [{"allow": true, "type": "c", "major": 8, "minor": -1}]}"#);
    assert_eq!(answer(&all, 2, 2, 8, 77), 1);
    assert_eq!(answer(&all, 2, 2, 9, 77), 0);
    let missing = filter(r#"{"devices": [{"allow": true, "type": "b", "access": "r"}]}"#);
    assert_eq!(answer(&missing, 1, 2, 8, 77), 1);
    assert_eq!(answer(&missing, 1, 4, 8, 77), 0);
    for none in ["-2", "4294967304", "2147483648"] {
        let prog = filter(&format!(
            r#"{{"devices": [{{"allow": true, "type": "c", "major": {none}}}]}}"#
        ));
        assert_eq!(answer(&prog, 2, 2, 8, 0), 0, "{none}");
    }
}

#[test]
fn deadlines_bound_what_they_are_about() {
    let d = Deadline::from_timeout_ms(Some(10), 100);
    assert!(d.check("start", 109).is_ok());
    assert_eq!(d.check("start", 110).unwrap_err().message(), "start exceeded timeout");
    assert_eq!(d.remaining_ms("start", 104).unwrap(), Some(6));
    assert_eq!(d.hook_timeout_ms(Some(3), 104).unwrap(), Some(3));
    assert_eq!(d.hook_timeout_ms(Some(30), 104).unwrap(), Some(6));
    assert_eq!(d.hook_timeout_ms(None, 104).unwrap(), Some(6));
    assert_eq!(d.hook_timeout_ms(None, 110).unwrap_err().message(), "hook exceeded timeout");
    let never = Deadline::from_timeout_ms(None, 100);
    assert!(never.check("x", u64::MAX).is_ok());
    assert_eq!(never.hook_timeout_ms(None, 5).unwrap(), None);
    assert_eq!(poll_timeout(7), 7);
    assert_eq!(poll_timeout(u64::MAX), i32::MAX);
}
