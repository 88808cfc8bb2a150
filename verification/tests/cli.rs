use rsrun::args::{dispatch, Command};
use rsrun::json::parse_json;
use rsrun::options::{
    command_needs_sealed_reexec, create_with_ext, exec_form, parse_duration_ms,
    parse_optional_duration_ms, stored_bundle_for_container, CommandKind, CreateWords, ExecForm,
};
use rsrun::reexec::{
    copy_self_exe_to_memfd, reexec_env, reexec_from_sealed_memfd, reexec_words, write_all_raw_fd,
    CopyNext, ReexecOp,
};
use rsrun::report::{failure_message, sub_features, timestamp, CalendarTime};
use rsrun::seccomp::Arch;
use rsrun::validate::{
    bundle_verdict, collect_validation_reasons, is_recursive_mount_attr, validate_bundle,
    validation_result,
};

fn words(line: &str) -> Vec<String> {
    line.split(' ').map(|w| w.to_string()).collect()
}

#[test]
fn parses_duration_suffixes() {
    assert_eq!(parse_duration_ms("250ms").unwrap(), 250);
    assert_eq!(parse_duration_ms("2s").unwrap(), 2_000);
    assert_eq!(parse_duration_ms("3m").unwrap(), 180_000);
    assert_eq!(parse_duration_ms("4").unwrap(), 4_000);
    assert!(parse_duration_ms("abc").is_err());
}

#[test]
fn bad_durations_say_why() {
    assert_eq!(parse_duration_ms("  ").unwrap_err().message(), "empty duration");
    assert_eq!(parse_duration_ms(" 1h ").unwrap_err().message(), "bad duration: 1h");
    assert_eq!(
        parse_duration_ms("18446744073709551615s").unwrap_err().message(),
        "duration too large: 18446744073709551615s"
    );
    assert_eq!(parse_duration_ms("18446744073709551615ms").unwrap(), u64::MAX);
    assert_eq!(parse_duration_ms(" +7s ").unwrap(), 7_000);
    assert_eq!(parse_optional_duration_ms(None).unwrap(), None);
    assert_eq!(parse_optional_duration_ms(Some("5ms")).unwrap(), Some(5));
    assert!(parse_optional_duration_ms(Some("s")).is_err());
}

#[test]
fn sealed_reexec_only_wraps_container_entry_paths() {
    assert!(command_needs_sealed_reexec(CommandKind::Create));
    assert!(command_needs_sealed_reexec(CommandKind::Exec));
    assert!(!command_needs_sealed_reexec(CommandKind::State));
    assert!(!command_needs_sealed_reexec(CommandKind::Features));
}

#[test]
fn activation_enters_a_container_too() {
    assert!(command_needs_sealed_reexec(CommandKind::Activate));
    assert!(!command_needs_sealed_reexec(CommandKind::Start));
}

#[test]
fn validation_reports_unsupported_and_conflicting_fields() {
    let spec = parse_json(
        br#"{
            "hostname": "demo",
            "process": {
                "consoleSize": {"height": 24, "width": 80},
                "rlimits": [{"type": "RLIMIT_NOFILE", "soft": 9, "hard": 8}]
            },
            "mounts": [{
                "destination": "/cfg",
                "type": "tmpfs",
                "source": "tmpfs",
                "options": ["tmpcopyup", "rro"]
            }],
            "linux": {
                "mountLabel": "system_u:object_r:container_file_t:s0",
                "sysctl": {"kernel.hostname": "other", "net.ipv4.ip_forward": "1"},
                "namespaces": [{"type": "mount"}]
            }
        }"#,
    )
    .unwrap();
    let mut reasons = Vec::new();
    collect_validation_reasons(&spec, true, &mut reasons);
    assert!(reasons.iter().any(|r| r.contains("linux.mountLabel")));
    assert!(reasons.iter().any(|r| r.contains("process.consoleSize")));
    assert!(reasons.iter().any(|r| r.contains("soft greater than hard")));
    assert!(reasons.iter().any(|r| r.contains("kernel.hostname conflicts")));
    assert!(reasons.iter().any(|r| r.contains("requires a network namespace")));
    assert!(reasons.iter().any(|r| r.contains("tmpcopyup")));
    assert!(reasons.iter().any(|r| r.contains("recursive mount option rro")));
}

#[test]
fn reasons_come_in_order_and_word_for_word() {
    let spec = parse_json(
        br#"{
            "process": {"ioPriority": {}, "rlimits": [{"soft": 2, "hard": 1}]},
            "mounts": [{"options": ["rdev"]}],
            "linux": {
                "resources": {},
                "intelRdt": {},
                "sysctl": {"kernel.domainname": "x"},
                "namespaces": [{"type": "network"}]
            }
        }"#,
    )
    .unwrap();
    let mut reasons = vec!["first".to_string()];
    collect_validation_reasons(&spec, false, &mut reasons);
    assert_eq!(
        reasons,
        vec![
            "first",
            "cgroup v2 is not available on this host",
            "linux.intelRdt is not supported",
            "process.ioPriority is not supported",
            "process.rlimits[unknown] has soft greater than hard",
            "linux.sysctl.kernel.domainname requires a UTS namespace",
            "recursive mount option rdev is not supported for <unknown>",
        ]
    );
    assert!(is_recursive_mount_attr("rdiratime"));
    assert!(!is_recursive_mount_attr("ro"));
}

#[test]
fn verdicts_are_printed_both_ways() {
    let config = br#"{"process": {"args": ["/bin/true"]}, "root": {"path": "r"}}"#;
    let good = bundle_verdict("/b", Some(config), "", Arch::X86_64, true);
    assert!(good.is_empty());
    assert!(validation_result(&good).is_ok());
    assert_eq!(validate_bundle(&good, false), b"supported\n");
    assert_eq!(
        validate_bundle(&good, true),
        b"{\"reasons\":[],\"safe_to_fallback\":false,\"supported\":true}\n"
    );

    let bad = bundle_verdict("/b", None, "not found", Arch::X86_64, true);
    assert_eq!(
        bad,
        vec!["config.json is not supported: not found", "config.json is missing or invalid JSON"]
    );
    assert_eq!(
        validation_result(&bad).unwrap_err().message(),
        "bundle is not fully supported"
    );
    assert_eq!(
        validate_bundle(&bad, false),
        b"unsupported\n- config.json is not supported: not found\n- config.json is missing or invalid JSON\n"
    );
    assert_eq!(
        validate_bundle(&vec!["r".to_string()], true),
        b"{\"reasons\":[\"r\"],\"safe_to_fallback\":true,\"supported\":false}\n"
    );

    let config = br#"{"process": {"args": ["/bin/true"]}, "root": {"path": "r"},
        "hooks": {"prestart": [{}]}}"#;
    let hooks = bundle_verdict("/b", Some(config), "", Arch::X86_64, true);
    assert_eq!(hooks.len(), 1);
    assert!(hooks[0].starts_with("extension plan compile failed: "));
}

#[test]
fn one_way_to_name_a_process() {
    match exec_form(true, false, false, &None).unwrap() {
        ExecForm::Command => {}
        ExecForm::Process(_) => panic!("a process file"),
    }
    match exec_form(false, true, true, &Some("p.json".to_string())).unwrap() {
        ExecForm::Process(p) => assert_eq!(p, "p.json"),
        ExecForm::Command => panic!("a command"),
    }
    assert_eq!(
        exec_form(true, true, false, &None).unwrap_err().message(),
        "direct exec command form does not support --detach"
    );
    assert_eq!(
        exec_form(true, false, true, &None).unwrap_err().message(),
        "direct exec command form does not support --console-socket"
    );
    assert_eq!(
        exec_form(false, false, false, &None).unwrap_err().message(),
        "exec requires either -p/--process or a command after --"
    );
}

#[test]
fn stored_bundle_must_be_there() {
    assert_eq!(stored_bundle_for_container(br#"{"bundle": "/b"}"#).unwrap(), "/b");
    assert_eq!(
        stored_bundle_for_container(br#"{"bundle": ""}"#).unwrap_err().message(),
        "activate requires --bundle because stored bundle is empty"
    );
    assert!(stored_bundle_for_container(b"").is_err());
}

#[test]
fn a_bundle_is_compiled_for_its_container() {
    let w = CreateWords {
        id: "c1".to_string(),
        bundle: "b".to_string(),
        pid_file: Some("/p".to_string()),
        console_socket: None,
        preserve_fds: 2,
        no_pivot: true,
        timeout_ms: Some(9),
    };
    let config = br#"{"process": {"args": ["/bin/true"]}, "root": {"path": "r"},
        "linux": {"resources": {"pids": {"limit": 3}}}}"#;
    match create_with_ext(&w, config, "/abs/b", Arch::X86_64, true) {
        Ok(q) => {
            assert_eq!(q.bundle, "b");
            assert_eq!(q.ext.cgroup_v2_path.as_deref(), Some("/sys/fs/cgroup/rsrun-c1"));
            assert_eq!(q.opts.preserve_fds, 2);
            assert!(q.opts.no_pivot);
            assert_eq!(q.timeout_ms, Some(9));
        }
        Err(e) => panic!("{}", e.message()),
    }
    assert!(create_with_ext(&w, b"{}", "/abs/b", Arch::X86_64, true).is_err());
}

#[test]
fn command_lines_are_read() {
    let d = dispatch(&words("rsrun --root /r --debug --log-format json create -b /b --pid-file /p c1"));
    assert_eq!(d.globals.root.as_deref(), Some("/r"));
    assert!(d.globals.json_log);
    assert!(d.redirect && !d.usage);
    match d.outcome.unwrap() {
        Command::Create { id, bundle, pid_file } => {
            assert_eq!(id, "c1");
            assert_eq!(bundle, "/b");
            assert_eq!(pid_file.as_deref(), Some("/p"));
        }
        other => panic!("{other:?}"),
    }
    match dispatch(&words("rsrun delete --force c2")).outcome.unwrap() {
        Command::Delete { id, force } => assert!(id == "c2" && force),
        other => panic!("{other:?}"),
    }
    match dispatch(&words("rsrun kill c3")).outcome.unwrap() {
        Command::Kill { id, signal } => assert!(id == "c3" && signal == "TERM"),
        other => panic!("{other:?}"),
    }
    match dispatch(&words("rsrun kill c3 KILL")).outcome.unwrap() {
        Command::Kill { id: _, signal } => assert_eq!(signal, "KILL"),
        other => panic!("{other:?}"),
    }
    match dispatch(&words("rsrun exec --env A=1 -d -p /proc.json --strange value c4 extra")).outcome.unwrap() {
        Command::Exec { id, process, pid_file, detach } => {
            assert_eq!(id, "c4");
            assert_eq!(process, "/proc.json");
            assert!(pid_file.is_none() && detach);
        }
        other => panic!("{other:?}"),
    }
    match dispatch(&words("rsrun start c5")).outcome.unwrap() {
        Command::Start { id } => assert_eq!(id, "c5"),
        other => panic!("{other:?}"),
    }
    match dispatch(&words("rsrun state c6")).outcome.unwrap() {
        Command::State { id } => assert_eq!(id, "c6"),
        other => panic!("{other:?}"),
    }
    assert!(matches!(dispatch(&words("rsrun -v")).outcome, Ok(Command::Version)));
    assert!(matches!(dispatch(&words("rsrun features")).outcome, Ok(Command::Features)));
    assert!(matches!(dispatch(&words("rsrun list")).outcome, Ok(Command::List)));
    let help = dispatch(&words("rsrun help"));
    assert!(help.usage && matches!(help.outcome, Ok(Command::Help)));
}

#[test]
fn bad_command_lines_say_why() {
    let message = |line: &str| dispatch(&words(line)).outcome.unwrap_err().message().to_string();
    assert_eq!(message("rsrun"), "missing subcommand");
    assert_eq!(message("rsrun --debug"), "missing subcommand");
    assert_eq!(message("rsrun --root"), "--root needs an argument");
    assert_eq!(message("rsrun --log"), "--log needs an argument");
    assert_eq!(message("rsrun frobnicate"), "unknown subcommand: frobnicate");
    assert_eq!(message("rsrun spec"), "spec subcommand not implemented");
    assert_eq!(message("rsrun create"), "create: missing container ID");
    assert_eq!(message("rsrun create -b"), "--bundle needs an argument");
    assert_eq!(message("rsrun create --pid-file"), "--pid-file needs an argument");
    assert_eq!(message("rsrun start -x"), "start: missing container ID");
    assert_eq!(message("rsrun delete -f"), "delete: missing container ID");
    assert_eq!(message("rsrun state"), "state: missing container ID");
    assert_eq!(message("rsrun kill"), "kill: need <id>");
    assert_eq!(message("rsrun exec -p /x"), "exec: missing container ID");
    assert_eq!(message("rsrun exec c1"), "exec: --process required");
    assert_eq!(message("rsrun exec -p"), "--process needs an argument");
    assert_eq!(message("rsrun exec --pid-file"), "--pid-file needs an argument");
    assert!(dispatch(&words("rsrun frobnicate")).usage);
    assert!(!dispatch(&words("rsrun spec")).usage);
    assert!(!dispatch(&words("rsrun --log")).redirect);
    assert!(dispatch(&Vec::new()).usage);
}

#[test]
fn ignored_options_change_nothing() {
    for line in ["rsrun --debug start c", "rsrun --systemd-cgroup start c", "rsrun --rootless auto start c"] {
        match dispatch(&words(line)).outcome.unwrap() {
            Command::Start { id } => assert_eq!(id, "c"),
            other => panic!("{other:?}"),
        }
    }
}

#[test]
fn failures_are_told_as_text_or_json() {
    assert_eq!(failure_message(false, None, "no \"x\""), "rsrun: no \"x\"\n");
    let t = CalendarTime { year: 126, month: 6, day: 4, hour: 3, minute: 2, second: 1 };
    assert_eq!(timestamp(Some(t)), "2026-07-04T03:02:01Z");
    assert_eq!(timestamp(None), "1970-01-01T00:00:00Z");
    assert_eq!(
        failure_message(true, Some(t), "no \"x\""),
        "{\"level\":\"error\",\"time\":\"2026-07-04T03:02:01Z\",\"msg\":\"no \\\"x\\\"\"}\n"
    );
    assert_eq!(
        failure_message(true, None, "plain"),
        "{\"level\":\"error\",\"time\":\"1970-01-01T00:00:00Z\",\"msg\":\"plain\"}\n"
    );
    let early = CalendarTime { year: -1905, month: 0, day: 1, hour: 0, minute: 0, second: 0 };
    assert_eq!(timestamp(Some(early)), "-005-01-01T00:00:00Z");
}

#[test]
fn features_are_one_line() {
    assert_eq!(
        String::from_utf8(sub_features()).unwrap(),
        "{\"annotations\":null,\"linux\":{\"apparmor\":null,\"capabilities\":null,\"cgroup\":{},\
         \"intelRdt\":null,\"mountExtensions\":null,\"namespaces\":[\"mount\",\"pid\",\"ipc\",\"uts\",\
         \"network\",\"cgroup\",\"user\"],\"seccomp\":null,\"selinux\":null},\"ociVersionMax\":\"1.0.2\",\
         \"ociVersionMin\":\"1.0.0\",\"potentiallyUnsafeConfigAnnotations\":null}\n"
    );
}

#[test]
fn the_copy_is_sealed_before_it_runs() {
    let steps = reexec_from_sealed_memfd(false);
    let at = |op: ReexecOp| steps.iter().position(|s| *s == op).unwrap();
    assert!(at(ReexecOp::Copy) < at(ReexecOp::Seal));
    assert!(at(ReexecOp::Seal) < at(ReexecOp::Run));
    assert!(reexec_from_sealed_memfd(true).is_empty());
}

#[test]
fn copying_goes_on_until_it_cannot() {
    assert!(matches!(copy_self_exe_to_memfd(10, 0), CopyNext::More));
    assert!(matches!(copy_self_exe_to_memfd(-1, libc::EINTR), CopyNext::More));
    assert!(matches!(copy_self_exe_to_memfd(-1, libc::EINVAL), CopyNext::Buffered));
    assert!(matches!(copy_self_exe_to_memfd(-1, libc::ENOSYS), CopyNext::Buffered));
    assert!(matches!(copy_self_exe_to_memfd(-1, libc::EIO), CopyNext::CallError));
    match copy_self_exe_to_memfd(0, 0) {
        CopyNext::Error(e) => assert_eq!(e.message(), "sendfile copied a partial executable"),
        other => panic!("{other:?}"),
    }
    assert!(matches!(write_all_raw_fd(1, 0), CopyNext::More));
    assert!(matches!(write_all_raw_fd(-1, libc::EINTR), CopyNext::More));
    assert!(matches!(write_all_raw_fd(-1, libc::EINVAL), CopyNext::CallError));
    match write_all_raw_fd(0, 0) {
        CopyNext::Error(e) => assert_eq!(e.message(), "write returned 0"),
        other => panic!("{other:?}"),
    }
}

#[test]
fn the_copy_gets_the_environment_and_a_marker() {
    let vars = vec![(b"A".to_vec(), b"1".to_vec()), (b"B".to_vec(), b"".to_vec())];
    let env = reexec_env(&vars).unwrap();
    assert_eq!(env, vec![b"RSRUN_MEMFD_REEXEC=1".to_vec(), b"A=1".to_vec(), b"B=".to_vec()]);
    let bad = vec![(b"A".to_vec(), b"1\0".to_vec())];
    assert_eq!(reexec_env(&bad).unwrap_err().message(), "environment contains NUL");
    assert!(reexec_words(&vec![b"rsrun".to_vec()]).is_ok());
    assert_eq!(
        reexec_words(&vec![b"a\0b".to_vec()]).unwrap_err().message(),
        "argv contains NUL"
    );
}
