use rsrun::json::{parse_json, Json};
use rsrun::spec::{NamespaceKind, RLimitKind, Spec};

fn doc(text: &str) -> Json {
    parse_json(text.as_bytes()).unwrap()
}

fn minimal() -> Json {
    doc(r#"{"process": {"args": ["/bin/true"]}, "root": {"path": "rootfs"}}"#)
}

fn read(v: Json) -> Spec {
    match Spec::from_value(v, "/bundle") {
        Ok(s) => s,
        Err(e) => panic!("{}", e.message()),
    }
}

#[test]
fn defaults_when_optional_fields_missing() {
    let spec = read(minimal());
    assert_eq!(spec.args, vec!["/bin/true".to_string()]);
    assert!(spec.env.is_empty());
    assert_eq!(spec.cwd, "/");
    assert!(!spec.terminal);
    assert!(!spec.no_new_privileges);
    assert!(!spec.root_readonly);
    assert_eq!(spec.hostname, "rsrun");
    assert!(spec.namespaces.is_empty());
    assert_eq!(spec.user_uid, 0);
    assert_eq!(spec.user_gid, 0);
}

#[test]
fn missing_required_field_errors() {
    let no_process = doc(r#"{"root": {"path": "rootfs"}}"#);
    assert!(Spec::from_value(no_process, "/bundle").is_err());

    let no_root = doc(r#"{"process": {"args": ["/bin/true"]}}"#);
    assert!(Spec::from_value(no_root, "/bundle").is_err());

    let no_args = doc(r#"{"process": {}, "root": {"path": "rootfs"}}"#);
    assert!(Spec::from_value(no_args, "/bundle").is_err());
}

#[test]
fn missing_field_is_named() {
    match Spec::from_value(doc(r#"{"process": {}, "root": {"path": "rootfs"}}"#), "/bundle") {
        Ok(_) => panic!("accepted"),
        Err(e) => assert_eq!(e.message(), "missing OCI field: process.args"),
    }
    match Spec::from_value(doc(r#"{"process": {"args": []}, "root": {}}"#), "/bundle") {
        Ok(_) => panic!("accepted"),
        Err(e) => assert_eq!(e.message(), "missing OCI field: root.path"),
    }
}

#[test]
fn relative_rootfs_resolves_against_bundle() {
    assert_eq!(read(minimal()).root_path, "/bundle/rootfs");
}

#[test]
fn absolute_rootfs_unchanged() {
    let v = doc(r#"{"process": {"args": ["/bin/true"]}, "root": {"path": "/abs/rootfs"}}"#);
    assert_eq!(read(v).root_path, "/abs/rootfs");
}

#[test]
fn namespaces_with_and_without_path() {
    let v = doc(
        r#"{
            "process": {"args": ["/bin/true"]},
            "root": {"path": "rootfs"},
            "linux": {
                "namespaces": [
                    {"type": "pid"},
                    {"type": "network", "path": "/var/run/netns/red"},
                    {"type": "user", "path": ""}
                ]
            }
        }"#,
    );
    let spec = read(v);
    assert_eq!(spec.namespaces.len(), 3);
    assert_eq!(spec.namespaces[0].kind, NamespaceKind::Pid);
    assert!(spec.namespaces[0].path.is_none());
    assert_eq!(spec.namespaces[1].kind, NamespaceKind::Network);
    assert_eq!(spec.namespaces[1].path.as_deref(), Some("/var/run/netns/red"));
    assert_eq!(spec.namespaces[2].kind, NamespaceKind::User);
    assert!(spec.namespaces[2].path.is_none());
}

#[test]
fn rlimits_and_capabilities() {
    let v = doc(
        r#"{
            "process": {
                "args": ["/bin/true"],
                "rlimits": [
                    {"type": "RLIMIT_NOFILE", "soft": 1024, "hard": 4096},
                    {"type": "RLIMIT_NOTAREAL", "soft": 1, "hard": 1}
                ],
                "capabilities": {
                    "bounding": ["CAP_NET_BIND_SERVICE"],
                    "effective": ["CAP_NET_BIND_SERVICE"],
                    "permitted": ["CAP_NET_BIND_SERVICE"],
                    "inheritable": [],
                    "ambient": []
                }
            },
            "root": {"path": "rootfs"}
        }"#,
    );
    let spec = read(v);
    assert_eq!(spec.rlimits.len(), 1);
    assert_eq!(spec.rlimits[0].kind, RLimitKind::Nofile);
    assert_eq!(spec.rlimits[0].soft, 1024);
    let caps = spec.capabilities.unwrap();
    assert_eq!(caps.bounding, vec!["CAP_NET_BIND_SERVICE".to_string()]);
    assert!(caps.inheritable.is_empty());
}

#[test]
fn empty_hostname_uses_rsrun_default() {
    let v = doc(
        r#"{"process": {"args": ["/bin/true"]}, "root": {"path": "rootfs"}, "hostname": ""}"#,
    );
    assert_eq!(read(v).hostname, "");
}

#[test]
fn configuration_that_is_no_json_is_refused() {
    assert!(Spec::from_bundle(b"{", "/bundle").is_err());
    let bytes = br#"{"process": {"args": ["/bin/sh", "-c"]}, "root": {"path": "r"}}"#;
    match Spec::from_bundle(bytes, "/b") {
        Ok(s) => {
            assert_eq!(s.args, vec!["/bin/sh".to_string(), "-c".to_string()]);
            assert_eq!(s.root_path, "/b/r");
        }
        Err(e) => panic!("{}", e.message()),
    }
}
