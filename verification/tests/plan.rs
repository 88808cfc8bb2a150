use rsrun::child::{child_run, ChildOp};
use rsrun::create::{create_after_clone, create_before_clone, CreateOp};
use rsrun::json::{parse_json, Json};
use rsrun::overlay::{prepare_overlay_rootfs, PrepareOp};
use rsrun::plan::{
    cap_bit, cap_bit_for_name, cap_mask, CompiledPlan, CreateOpts, HookCmd, Hooks, CLONE_NEWNET,
    CLONE_NEWNS, CLONE_NEWPID, CLONE_NEWUSER,
};
use rsrun::spec::{NamespaceKind, Spec};

fn doc(text: &str) -> Json {
    parse_json(text.as_bytes()).unwrap()
}

fn parse(text: &str) -> Spec {
    match Spec::from_value(doc(text), "/bundle") {
        Ok(s) => s,
        Err(e) => panic!("{}", e.message()),
    }
}

fn plan_of(text: &str) -> CompiledPlan {
    match CompiledPlan::from_spec(&parse(text)) {
        Ok(p) => p,
        Err(e) => panic!("{}", e.message()),
    }
}

fn minimal_with(rest: &str) -> String {
    format!(
        "{{\"process\":{{\"args\":[\"/bin/true\"]}},\"root\":{{\"path\":\"rootfs\"}}{rest}}}"
    )
}

#[test]
fn cap_bit_table_covers_known_names() {
    assert_eq!(cap_bit("CAP_CHOWN"), Some(0));
    assert_eq!(cap_bit("CAP_DAC_OVERRIDE"), Some(1));
    assert_eq!(cap_bit("CAP_NET_BIND_SERVICE"), Some(10));
    assert_eq!(cap_bit("CAP_SYS_ADMIN"), Some(21));
    assert_eq!(cap_bit("CHOWN"), Some(0));
    assert_eq!(cap_bit("CAP_NOT_REAL"), None);
}

#[test]
fn cap_mask_or_combines_bits() {
    let mask = cap_mask(&vec!["CAP_CHOWN".to_string(), "CAP_NET_BIND_SERVICE".to_string()]);
    assert_eq!(mask, (1u64 << 0) | (1u64 << 10));
}

#[test]
fn namespaces_split_into_clone_flags_and_join_paths() {
    let plan = plan_of(
        r#"{
            "process": {"args": ["/bin/true"]},
            "root": {"path": "rootfs"},
            "linux": {
                "namespaces": [
                    {"type": "pid"},
                    {"type": "mount"},
                    {"type": "network", "path": "/var/run/netns/red"}
                ]
            }
        }"#,
    );
    assert_ne!(plan.clone_flags & CLONE_NEWPID, 0);
    assert_ne!(plan.clone_flags & CLONE_NEWNS, 0);
    assert_eq!(plan.clone_flags & CLONE_NEWNET, 0);
    assert_eq!(plan.join_namespaces.len(), 1);
    assert_eq!(plan.join_namespaces[0].0, NamespaceKind::Network);
    assert_eq!(plan.join_namespaces[0].1, "/var/run/netns/red");
}

#[test]
fn clone_flags_are_those_of_the_kernel() {
    assert_eq!(CLONE_NEWPID, nix::sched::CloneFlags::CLONE_NEWPID.bits() as u64);
    assert_eq!(CLONE_NEWNS, nix::sched::CloneFlags::CLONE_NEWNS.bits() as u64);
    assert_eq!(CLONE_NEWNET, nix::sched::CloneFlags::CLONE_NEWNET.bits() as u64);
    assert_eq!(CLONE_NEWUSER, nix::sched::CloneFlags::CLONE_NEWUSER.bits() as u64);
}

#[test]
fn user_namespace_sets_wants_userns() {
    let plan = plan_of(&minimal_with(",\"linux\":{\"namespaces\":[{\"type\":\"user\"}]}"));
    assert!(plan.wants_userns);
    assert_ne!(plan.clone_flags & CLONE_NEWUSER, 0);
}

#[test]
fn rootful_skips_uid_map_buffers() {
    let plan = plan_of(&minimal_with(""));
    assert!(!plan.wants_userns);
    assert!(plan.uid_map_data.is_empty());
    assert!(plan.gid_map_data.is_empty());
}

#[test]
fn rootless_pre_formats_id_map_lines() {
    let plan = plan_of(
        r#"{
            "process": {"args": ["/bin/true"]},
            "root": {"path": "rootfs"},
            "linux": {
                "namespaces": [{"type": "user"}],
                "uidMappings": [{"containerID": 0, "hostID": 1000, "size": 1}],
                "gidMappings": [{"containerID": 0, "hostID": 1000, "size": 1}]
            }
        }"#,
    );
    assert_eq!(plan.uid_map_data, b"0 1000 1\n");
    assert_eq!(plan.gid_map_data, b"0 1000 1\n");
}

#[test]
fn empty_hostname_disables_sethostname() {
    let plan = plan_of(&minimal_with(",\"hostname\":\"\""));
    assert!(!plan.set_hostname);
}

#[test]
fn nonempty_hostname_enables_sethostname() {
    let plan = plan_of(&minimal_with(",\"hostname\":\"mybox\""));
    assert!(plan.set_hostname);
    assert_eq!(plan.hostname, "mybox");
}

#[test]
fn ext_plan_default_is_empty() {
    let plan = plan_of(&minimal_with(""));
    assert!(plan.ext.seccomp_bpf.is_empty());
    assert!(plan.ext.cgroup_v2_path.is_none());
    assert!(plan.ext.cgroup_v2_writes.is_empty());
    assert!(plan.ext.hooks.is_empty());
}

#[test]
fn hooks_to_from_json_roundtrip() {
    let hooks = Hooks {
        prestart: vec![HookCmd {
            path: "/usr/bin/true".to_string(),
            args: vec!["true".to_string()],
            env: vec!["FOO=bar".to_string()],
            timeout_ms: Some(5000),
        }],
        ..Default::default()
    };
    let v = hooks.to_json();
    let restored = Hooks::from_json(&v);
    assert_eq!(restored.prestart.len(), 1);
    assert_eq!(restored.prestart[0].path, "/usr/bin/true");
    assert_eq!(restored.prestart[0].args.len(), 1);
    assert_eq!(restored.prestart[0].args[0], "true");
    assert_eq!(restored.prestart[0].env[0], "FOO=bar");
    assert_eq!(restored.prestart[0].timeout_ms, Some(5000));
}

#[test]
fn hooks_is_empty_correctly() {
    let empty = Hooks::default();
    assert!(empty.is_empty());

    let with_one = Hooks {
        poststop: vec![HookCmd {
            path: "/x".to_string(),
            args: vec![],
            env: vec![],
            timeout_ms: None,
        }],
        ..Default::default()
    };
    assert!(!with_one.is_empty());
}

#[test]
fn nul_in_an_argument_is_refused() {
    let s = parse(&minimal_with(",\"hostname\":\"a\\u0000b\""));
    match CompiledPlan::from_spec(&s) {
        Ok(_) => panic!("accepted"),
        Err(e) => assert_eq!(e.message(), "string contains NUL byte"),
    }
}

#[test]
fn layers_are_validated_before_they_are_made() {
    assert!(prepare_overlay_rootfs(&parse(&minimal_with(""))).is_empty());
    let layered = parse(&minimal_with(r#","rsrun":{"rootfs":{"backend":"overlayfs"}}"#));
    let ops = prepare_overlay_rootfs(&layered);
    assert_eq!(ops[2], PrepareOp::Validate);
    assert_eq!(ops[3], PrepareOp::MakeUpper);
    assert_eq!(ops[6], PrepareOp::Mount);
    assert_eq!(ops.len(), 7);
}

#[test]
fn only_a_joined_pid_namespace_costs_another_fork() {
    let forks = |text: &str| {
        let p = plan_of(&minimal_with(text));
        let steps = child_run(&p, &Vec::new(), false);
        steps
            .iter()
            .filter(|s| s.op == ChildOp::ForkIntoPidNamespace)
            .count()
    };
    assert_eq!(forks(""), 0);
    assert_eq!(forks(r#","linux":{"namespaces":[{"type":"pid"}]}"#), 0);
    assert_eq!(
        forks(r#","linux":{"namespaces":[{"type":"pid","path":"/proc/7/ns/pid"}]}"#),
        1
    );
}

#[test]
fn a_plain_bundle_is_made_with_few_steps() {
    let p = plan_of(&minimal_with(""));
    assert_eq!(
        create_before_clone(&p, &CreateOpts::default()),
        vec![
            CreateOp::OpenFifo,
            CreateOp::OpenErrors,
            CreateOp::CreateRuntimeHooks,
            CreateOp::PrestartHooks,
            CreateOp::CheckDeadlineAgain,
            CreateOp::SpawnIdmapHelpers,
            CreateOp::Clone,
        ]
    );
    assert_eq!(
        create_after_clone(&p, false, false),
        vec![
            CreateOp::WriteInitPid,
            CreateOp::WriteCreating,
            CreateOp::WriteCreated,
        ]
    );
}

#[test]
fn one_prefix_of_a_capability_is_stripped_and_case_matters() {
    assert_eq!(cap_bit_for_name("CHECKPOINT_RESTORE"), Some(40));
    assert_eq!(cap_bit_for_name("CAP_CHECKPOINT_RESTORE"), Some(40));
    for none in ["CAP_CAP_CHOWN", "CAP_", "", "chown", "cap_chown", "CAP_chown", "Chown"] {
        assert_eq!(cap_bit_for_name(none), None, "{none}");
        assert_eq!(cap_bit(none), None, "{none}");
    }
}
