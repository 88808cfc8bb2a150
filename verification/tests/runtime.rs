use rsrun::clone::{
    after_clone, build_clone_args, clone_into_cgroup_enabled,
    should_retry_without_clone_into_cgroup, CloneNext, CLONE_INTO_CGROUP,
};
use rsrun::json::{parse_json, render_json};
use rsrun::lifecycle::{
    admit_delete, after_delete_failure, after_start_failure, cmd_delete, cmd_delete_with_timeout,
    cmd_kill, cmd_list, cmd_pause, cmd_resume, cmd_start, cmd_start_with_timeout, cmd_state,
    delete_steps, kill_failed, look_again, notes_failure, running_state, start_byte, state_pid,
    wait_pid_bounded, DeleteOp, Failure, Listed, StartOp, WaitNext,
};
use rsrun::signal::{ending_of, exit_code_of, parse_signal};
use rsrun::state::{
    mark_failed, read_bundle, read_comm_hint, read_pid, read_status_pid_comm, runtime_root_dir,
    update_status, write_state, ContainerPaths, RootEnv, StatusPidComm,
};
use rsrun::stats::{
    cmd_events, cmd_stats, cmd_update, compile_resources_to_writes, cpu_usage_usec,
    systemd_create_scope, StatsFiles,
};
use rsrun::unsupported;

fn known(status: Option<&str>, pid: i32) -> StatusPidComm {
    StatusPidComm { status: status.map(|s| s.to_string()), pid, comm: None }
}

#[test]
fn mark_failed_persists_status_and_reason() {
    let before = br#"{"ociVersion":"1.0.2","id":"c","status":"running","pid":123,"bundle":"/b","annotations":{}}"#;
    let bytes = mark_failed(before, "delete exceeded timeout").unwrap().unwrap();
    let value = parse_json(&bytes).unwrap();
    assert_eq!(value.get("status").and_then(|v| v.as_str()), Some("failed"));
    assert_eq!(
        value.get("cleanupError").and_then(|v| v.as_str()),
        Some("delete exceeded timeout")
    );
}

#[test]
fn clone_args_enable_clone_into_cgroup_when_fd_is_available() {
    let address = 0x7fff_0000_1000u64;
    let args = build_clone_args(libc::CLONE_NEWNS as u64, address, 42);

    assert_ne!(args.flags & CLONE_INTO_CGROUP, 0);
    assert_ne!(args.flags & libc::CLONE_PIDFD as u64, 0);
    assert_eq!(args.flags & libc::CLONE_NEWNS as u64, libc::CLONE_NEWNS as u64);
    assert_eq!(args.cgroup, 42);
    assert_eq!(args.exit_signal, libc::SIGCHLD as u64);
    assert_eq!(args.pidfd, address);
}

#[test]
fn clone_args_skip_clone_into_cgroup_without_fd() {
    let address = 0x7fff_0000_1000u64;
    let args = build_clone_args(0, address, -1);

    assert_eq!(args.flags & CLONE_INTO_CGROUP, 0);
    assert_eq!(args.cgroup, 0);
    assert_ne!(args.flags & libc::CLONE_PIDFD as u64, 0);
}

#[test]
fn clone_into_cgroup_retry_policy_is_narrow() {
    for errno in [libc::EINVAL, libc::EOPNOTSUPP, libc::EACCES, libc::EBUSY, libc::ENODEV] {
        assert!(should_retry_without_clone_into_cgroup(Some(errno)));
    }
    assert!(!should_retry_without_clone_into_cgroup(Some(libc::EAGAIN)));
}

#[test]
fn clone_into_cgroup_is_opt_in() {
    assert!(!clone_into_cgroup_enabled(&None));

    assert!(clone_into_cgroup_enabled(&Some("1".to_string())));
    assert!(clone_into_cgroup_enabled(&Some("true".to_string())));
    assert!(clone_into_cgroup_enabled(&Some("yes".to_string())));
    assert!(clone_into_cgroup_enabled(&Some("on".to_string())));
    assert!(!clone_into_cgroup_enabled(&Some("0".to_string())));
}

#[test]
fn clone_is_tried_again_without_the_cgroup_only() {
    assert!(matches!(after_clone(0, None, true), CloneNext::Child));
    assert!(matches!(after_clone(9, None, true), CloneNext::Parent { pid: 9, in_cgroup: true }));
    assert!(matches!(after_clone(9, None, false), CloneNext::Parent { pid: 9, in_cgroup: false }));
    assert!(matches!(after_clone(-1, Some(libc::EBUSY), true), CloneNext::Retry));
    assert!(matches!(after_clone(-1, Some(libc::EBUSY), false), CloneNext::Fail));
    assert!(matches!(after_clone(-1, Some(libc::EPERM), true), CloneNext::Fail));
}

#[test]
fn state_is_kept_below_one_directory() {
    let env = |root: Option<&str>, euid: u32, xdg: Option<&str>| RootEnv {
        rsrun_root: root.map(|s| s.to_string()),
        euid,
        xdg_runtime_dir: xdg.map(|s| s.to_string()),
    };
    assert_eq!(runtime_root_dir(&env(Some("/r"), 5, Some("/x"))), "/r");
    assert_eq!(runtime_root_dir(&env(None, 0, Some("/x"))), "/run/rsrun");
    assert_eq!(runtime_root_dir(&env(None, 5, Some("/x"))), "/x/rsrun");
    assert_eq!(runtime_root_dir(&env(None, 5, None)), "/tmp/rsrun-5");
    let p = ContainerPaths::for_id("c1", &env(None, 0, None));
    assert_eq!(p.root, "/run/rsrun/c1");
    assert_eq!(p.fifo(), "/run/rsrun/c1/init.fifo");
    assert_eq!(p.pid_file(), "/run/rsrun/c1/init.pid");
    assert_eq!(p.state_file(), "/run/rsrun/c1/state.json");
}

#[test]
fn a_written_state_is_read_back() {
    let bytes = write_state("c\"1", 42, "/b", "created", Some("sh"));
    assert_eq!(
        String::from_utf8(bytes.clone()).unwrap(),
        "{\"ociVersion\":\"1.0.2\",\"id\":\"c\\\"1\",\"status\":\"created\",\"pid\":42,\
         \"bundle\":\"/b\",\"annotations\":{},\"commHint\":\"sh\"}"
    );
    assert_eq!(read_bundle(&bytes).unwrap(), "/b");
    assert_eq!(read_comm_hint(Some(&bytes)).as_deref(), Some("sh"));
    let r = read_status_pid_comm(Some(&bytes), None);
    assert_eq!(r.status.as_deref(), Some("created"));
    assert_eq!(r.pid, 42);
    assert_eq!(r.comm.as_deref(), Some("sh"));

    let r = read_status_pid_comm(None, Some(" 7\n"));
    assert_eq!(r.status.as_deref(), Some("creating"));
    assert_eq!(r.pid, 7);
    let r = read_status_pid_comm(Some(b"torn"), None);
    assert!(r.status.is_none() && r.pid == 0);
}

#[test]
fn a_change_of_status_changes_nothing_else() {
    let bytes = write_state("c", 42, "/b", "running", None);
    let next = update_status(&bytes, "paused").unwrap().unwrap();
    let v = parse_json(&next).unwrap();
    assert_eq!(v.get("status").unwrap().as_str(), Some("paused"));
    assert_eq!(v.get("pid").unwrap().as_u64(), Some(42));
    assert_eq!(v.get("bundle").unwrap().as_str(), Some("/b"));
    assert!(update_status(b"7", "paused").unwrap().is_none());
    assert!(update_status(b"{", "paused").is_err());
}

#[test]
fn pid_files_hold_a_number() {
    assert_eq!(read_pid(" 12\n").unwrap(), 12);
    assert_eq!(read_pid("").unwrap_err().message(), "bad pid file: cannot parse integer from empty string");
    assert_eq!(read_pid("x").unwrap_err().message(), "bad pid file: invalid digit found in string");
}

#[test]
fn signals_go_by_name_or_number() {
    assert_eq!(parse_signal("term").unwrap(), 15);
    assert_eq!(parse_signal("SIGKILL").unwrap(), 9);
    assert_eq!(parse_signal("usr1").unwrap(), 10);
    assert_eq!(parse_signal("31").unwrap(), 31);
    assert_eq!(parse_signal("99").unwrap_err().message(), "bad signal number");
    assert_eq!(parse_signal("sigfoo").unwrap_err().message(), "unknown signal: sigfoo");
}

#[test]
fn a_status_is_an_exit_or_a_signal() {
    let e = ending_of(3 << 8);
    assert!(e.exit_code == Some(3) && e.signal.is_none());
    let e = ending_of(9);
    assert!(e.exit_code.is_none() && e.signal == Some(9));
    let e = ending_of(0x137f);
    assert!(e.exit_code.is_none() && e.signal.is_none());
    assert_eq!(exit_code_of(3 << 8), 3);
    assert_eq!(exit_code_of(9), 137);
}

#[test]
fn kill_reads_the_pid_first() {
    assert_eq!(cmd_kill("12\n", "TERM").unwrap(), (12, 15));
    assert_eq!(
        cmd_kill("x", "nonsense").unwrap_err().message(),
        "bad pid file: invalid digit found in string"
    );
    assert_eq!(cmd_kill("12", "nonsense").unwrap_err().message(), "unknown signal: nonsense");
    assert!(!kill_failed(libc::ESRCH));
    assert!(kill_failed(libc::EPERM));
}

#[test]
fn a_start_goes_step_by_step() {
    let q = cmd_start("c1");
    assert_eq!(q.id, "c1");
    assert!(q.deadline.expires_at.is_none());
    let at = |op: StartOp| q.steps.iter().position(|s| *s == op).unwrap();
    assert!(at(StartOp::ReadPid) < at(StartOp::Signal));
    assert!(at(StartOp::Signal) < at(StartOp::WriteRunning));
    assert_eq!(q.steps.last(), Some(&StartOp::Poststart));
    assert_eq!(cmd_start_with_timeout("c1", Some(5), 10).deadline.expires_at, Some(15));
    assert_eq!(start_byte(), b'S');
    match after_start_failure(StartOp::FindContainer, "c1") {
        Failure::Error(e) => assert_eq!(e.message(), "container c1 does not exist"),
        other => panic!("{other:?}"),
    }
    match after_start_failure(StartOp::CheckTime, "c1") {
        Failure::Error(e) => assert_eq!(e.message(), "start exceeded timeout"),
        other => panic!("{other:?}"),
    }
    match after_start_failure(StartOp::CheckPipe, "c1") {
        Failure::Error(e) => assert_eq!(e.message(), "fifo path contains NUL"),
        other => panic!("{other:?}"),
    }
    assert!(matches!(after_start_failure(StartOp::OpenPipe, "c1"), Failure::CallError));
    assert!(matches!(after_start_failure(StartOp::Poststart, "c1"), Failure::PassOver));
}

#[test]
fn a_started_container_keeps_bundle_and_name() {
    let created = write_state("c", 42, "/b", "created", Some("sh"));
    assert_eq!(
        running_state("c", 42, &created).unwrap(),
        write_state("c", 42, "/b", "running", Some("sh"))
    );
    assert!(running_state("c", 42, b"").is_err());
}

#[test]
fn a_running_container_is_deleted_only_by_force() {
    let running = known(Some("running"), 5);
    assert_eq!(
        admit_delete("c", true, false, &running, true).unwrap_err().message(),
        "cannot delete container c in state running; use --force"
    );
    assert_eq!(
        admit_delete("c", true, false, &known(None, 5), true).unwrap_err().message(),
        "cannot delete container c in state creating; use --force"
    );
    assert!(admit_delete("c", true, true, &running, true).unwrap());
    assert!(admit_delete("c", true, false, &running, false).unwrap());
    assert!(admit_delete("c", true, false, &known(Some("stopped"), 5), true).unwrap());
    assert!(!admit_delete("c", false, true, &running, true).unwrap());
    assert_eq!(
        admit_delete("c", false, false, &running, true).unwrap_err().message(),
        "container c does not exist"
    );
}

#[test]
fn a_deletion_removes_the_state_last() {
    let forced = delete_steps(true, true);
    let at = |op: DeleteOp| forced.iter().position(|s| *s == op).unwrap();
    assert!(at(DeleteOp::KillInit) < at(DeleteOp::AwaitInit));
    assert!(at(DeleteOp::AwaitGone) < at(DeleteOp::Poststop));
    assert!(at(DeleteOp::Poststop) < at(DeleteOp::RemoveState));
    assert_eq!(forced.last(), Some(&DeleteOp::RemoveState));
    assert!(!delete_steps(false, true).contains(&DeleteOp::KillInit));
    assert!(!delete_steps(true, false).contains(&DeleteOp::KillInit));
    assert_eq!(delete_steps(false, false).len(), 5);
    assert_eq!(cmd_delete("c", true).deadline.expires_at, None);
    assert_eq!(cmd_delete_with_timeout("c", false, Some(1), 1).deadline.expires_at, Some(2));
    assert!(notes_failure(DeleteOp::Unmount) && notes_failure(DeleteOp::AwaitGone));
    assert!(!notes_failure(DeleteOp::CheckTime) && !notes_failure(DeleteOp::AwaitInit));
    match after_delete_failure(DeleteOp::CheckTime) {
        Failure::Error(e) => assert_eq!(e.message(), "delete exceeded timeout"),
        other => panic!("{other:?}"),
    }
    assert!(matches!(after_delete_failure(DeleteOp::KillInit), Failure::PassOver));
    assert!(matches!(after_delete_failure(DeleteOp::Poststop), Failure::PassOver));
    assert!(matches!(after_delete_failure(DeleteOp::RemoveState), Failure::CallError));
}

#[test]
fn waits_end_with_the_process() {
    assert_eq!(wait_pid_bounded(false, 5, -1, libc::EIO), WaitNext::Over);
    assert_eq!(wait_pid_bounded(true, 5, 5, 0), WaitNext::Over);
    assert_eq!(wait_pid_bounded(true, 5, -1, libc::ECHILD), WaitNext::Over);
    assert_eq!(wait_pid_bounded(true, 5, -1, libc::EINTR), WaitNext::Again);
    assert_eq!(wait_pid_bounded(true, 5, 0, 0), WaitNext::Again);
    assert_eq!(wait_pid_bounded(true, 5, -1, libc::EINVAL), WaitNext::Fail);
    assert!(look_again(0, true) && look_again(199, true));
    assert!(!look_again(200, true) && !look_again(0, false));
}

#[test]
fn a_stopped_container_stays_stopped() {
    let bytes = br#"{"id":"c","pid":42,"status":"running"}"#;
    let r = match cmd_state("c", true, Some(bytes), None, false) {
        Ok(r) => r,
        Err(e) => panic!("{}", e.message()),
    };
    let stopped = b"{\"id\":\"c\",\"pid\":42,\"status\":\"stopped\"}".to_vec();
    assert_eq!(r.corrected, Some(stopped.clone()));
    assert_eq!(r.line, [stopped.clone(), b"\n".to_vec()].concat());

    let again = match cmd_state("c", true, Some(&stopped), None, true) {
        Ok(r) => r,
        Err(e) => panic!("{}", e.message()),
    };
    assert!(again.corrected.is_none());
    assert_eq!(again.line, [stopped, b"\n".to_vec()].concat());
}

#[test]
fn a_container_without_a_state_is_told_by_its_pid() {
    let say = |alive: bool, pid: Option<&str>| match cmd_state("c", true, None, pid, alive) {
        Ok(r) => String::from_utf8(r.line).unwrap(),
        Err(e) => panic!("{}", e.message()),
    };
    assert_eq!(
        say(true, Some("7")),
        "{\"annotations\":{},\"bundle\":\"\",\"id\":\"c\",\"ociVersion\":\"1.0.2\",\"pid\":7,\
         \"status\":\"creating\"}\n"
    );
    assert!(say(false, Some("7")).contains("\"status\":\"stopped\""));
    assert!(say(true, None).contains("\"pid\":0,\"status\":\"stopped\""));
    assert_eq!(state_pid(None, Some("7")), 7);
    assert_eq!(state_pid(Some(br#"{"pid": 9}"#), Some("7")), 9);
    assert_eq!(state_pid(Some(b"torn"), Some("7")), 0);
    match cmd_state("c", false, None, None, false) {
        Ok(_) => panic!("there"),
        Err(e) => assert_eq!(e.message(), "container c does not exist"),
    }
    assert!(cmd_state("c", true, Some(b"torn"), None, false).is_err());
}

#[test]
fn containers_are_listed_in_a_table() {
    let ls = vec![
        Listed { name: "a".to_string(), state: Some(write_state("a", 5, "/b", "running", None)) },
        Listed { name: "torn".to_string(), state: Some(b"{".to_vec()) },
        Listed { name: "none".to_string(), state: None },
        Listed { name: "bare".to_string(), state: Some(b"{}".to_vec()) },
    ];
    assert_eq!(
        cmd_list(&ls),
        "ID\tPID\tSTATUS\tBUNDLE\tCREATED\tOWNER\na\t5\trunning\t/b\t\t\nbare\t0\t\t\t\t\n"
    );
    assert_eq!(cmd_list(&Vec::new()), "ID\tPID\tSTATUS\tBUNDLE\tCREATED\tOWNER\n");
}

#[test]
fn pausing_takes_a_cgroup() {
    match cmd_pause("c", true) {
        Ok(q) => {
            assert_eq!(q.file, "/sys/fs/cgroup/rsrun-c/cgroup.freeze");
            assert!(q.content == "1" && q.status == "paused");
        }
        Err(e) => panic!("{}", e.message()),
    }
    match cmd_resume("c", true) {
        Ok(q) => assert!(q.content == "0" && q.status == "running"),
        Err(e) => panic!("{}", e.message()),
    }
    match cmd_pause("c", false) {
        Ok(_) => panic!("paused"),
        Err(e) => assert_eq!(
            e.message(),
            "container c has no cgroup (was it created without resources?)"
        ),
    }
    assert!(cmd_resume("c", false).is_err());
}

fn files(cpu: &str) -> StatsFiles {
    StatsFiles {
        cpu_stat: cpu.to_string(),
        memory_current: "4096\n".to_string(),
        pids_current: "nonsense".to_string(),
    }
}

#[test]
fn metrics_are_one_line() {
    let line = cmd_stats("c", true, &files("user_usec 1\nusage_usec 7\n")).unwrap();
    assert_eq!(
        String::from_utf8(line).unwrap(),
        "{\"data\":{\"cpu\":{\"usage\":{\"total\":7000}},\"memory\":{\"usage\":{\"usage\":4096}},\
         \"pids\":{\"current\":0}},\"id\":\"c\",\"type\":\"stats\"}\n"
    );
    assert_eq!(
        cmd_events("c", false, &files("")).unwrap_err().message(),
        "container c has no cgroup"
    );
    assert_eq!(cpu_usage_usec("usage_usec 7\r\nx"), 7);
    assert_eq!(cpu_usage_usec("usage_usec 7\r"), 0);
    assert_eq!(cpu_usage_usec("usage_usec  7\nusage_usec 8"), 8);
    assert_eq!(cpu_usage_usec(""), 0);
}

#[test]
fn limits_of_a_running_container_are_rewritten() {
    let r = br#"{
        "memory": {"limit": 100, "swap": 150},
        "cpu": {"quota": -1, "period": 5, "shares": 262144},
        "pids": {"limit": -1}
    }"#;
    let w = cmd_update("c", r, true).unwrap();
    let expected: Vec<(String, Vec<u8>)> = vec![
        ("memory.max".to_string(), b"100\n".to_vec()),
        ("memory.swap.max".to_string(), b"50\n".to_vec()),
        ("cpu.max".to_string(), b"max 5\n".to_vec()),
        ("cpu.weight".to_string(), b"10000\n".to_vec()),
        ("pids.max".to_string(), b"max\n".to_vec()),
    ];
    assert_eq!(w, expected);
    assert_eq!(cmd_update("c", r, false).unwrap_err().message(), "container c has no cgroup");
    assert!(cmd_update("c", b"{", false).unwrap_err().message() != "container c has no cgroup");
    let zero = parse_json(br#"{"memory": {"limit": 0}, "cpu": {"quota": 7}}"#).unwrap();
    let w = compile_resources_to_writes(&zero);
    assert_eq!(w[0].1, b"0\n");
    assert_eq!(w[1].1, b"7 100000\n");
}

#[test]
fn systemd_is_asked_for_a_scope() {
    let words = systemd_create_scope("c");
    assert_eq!(words[0], "systemd-run");
    assert_eq!(words[4], "rsrun-c.scope");
    assert_eq!(words.len(), 10);
}

#[test]
fn nothing_works_elsewhere() {
    let message = "rsrun is Linux-only — namespaces, cgroups, capabilities, and pivot_root are Linux kernel features. Build and run on Linux.";
    assert_eq!(unsupported::cmd_create("c", "/b", None).unwrap_err().message(), message);
    assert_eq!(unsupported::cmd_start("c").unwrap_err().message(), message);
    assert_eq!(unsupported::cmd_delete("c", true).unwrap_err().message(), message);
    assert_eq!(unsupported::cmd_state("c").unwrap_err().message(), message);
    assert_eq!(unsupported::cmd_kill("c", "TERM").unwrap_err().message(), message);
    assert_eq!(unsupported::cmd_exec("c", "/p", None, false).unwrap_err().message(), message);
    assert_eq!(unsupported::cmd_list().unwrap_err().message(), message);
}

#[test]
fn a_resume_undoes_a_pause() {
    let bytes = write_state("c", 7, "/b", "running", Some("sh"));
    let pause = match cmd_pause("c", true) {
        Ok(q) => q,
        Err(e) => panic!("{}", e.message()),
    };
    let paused = update_status(&bytes, &pause.status).unwrap().unwrap();
    assert_eq!(parse_json(&paused).unwrap().get("status").unwrap().as_str(), Some("paused"));
    let resume = match cmd_resume("c", true) {
        Ok(q) => q,
        Err(e) => panic!("{}", e.message()),
    };
    assert_eq!(resume.content, "0");
    let resumed = update_status(&paused, &resume.status).unwrap().unwrap();
    let (was, is) = (parse_json(&bytes).unwrap(), parse_json(&resumed).unwrap());
    assert_eq!(render_json(&is), render_json(&was));
}

#[test]
fn a_stopped_container_stays_stopped_whoever_has_its_pid() {
    let text = br#"{"status":"running","pid":7,"extra":{"deep":[1,-2,"x"]}}"#;
    let first = match cmd_state("c", true, Some(text), None, false) {
        Ok(r) => r,
        Err(e) => panic!("{}", e.message()),
    };
    let kept = first.corrected.unwrap();
    let second = match cmd_state("c", true, Some(&kept), None, true) {
        Ok(r) => r,
        Err(e) => panic!("{}", e.message()),
    };
    assert_eq!(second.line, first.line);
    assert!(second.corrected.is_none());
    let (was, is) = (parse_json(text).unwrap(), parse_json(&kept).unwrap());
    assert_eq!(
        render_json(is.get("extra").unwrap()),
        render_json(was.get("extra").unwrap())
    );
}

#[test]
fn fractions_in_a_state_file_are_kept() {
    let text = br#"{"a":0.1,"b":1e300,"c":-0.0,"d":[2.5],"pid":7,"status":"running"}"#;
    let paused = update_status(text, "paused").unwrap().unwrap();
    assert_eq!(
        String::from_utf8(paused.clone()).unwrap(),
        r#"{"a":0.1,"b":1e+300,"c":-0.0,"d":[2.5],"pid":7,"status":"paused"}"#
    );
    let resumed = update_status(&paused, "running").unwrap().unwrap();
    let (was, is) = (parse_json(text).unwrap(), parse_json(&resumed).unwrap());
    assert_eq!(render_json(&is), render_json(&was));
    let first = match cmd_state("c", true, Some(text), None, false) {
        Ok(r) => r,
        Err(e) => panic!("{}", e.message()),
    };
    let kept = first.corrected.unwrap();
    match cmd_state("c", true, Some(&kept), None, true) {
        Ok(r) => assert_eq!(r.line, first.line),
        Err(e) => panic!("{}", e.message()),
    }
}
