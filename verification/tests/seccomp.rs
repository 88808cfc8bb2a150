use rsrun::json::{parse_json, Json};
use rsrun::seccomp::{
    compile, host_audit_arch, parse_action, syscall_nr, Arch, SockFilter, SECCOMP_RET_ALLOW,
    SECCOMP_RET_ERRNO,
};
use rsrun::syscall_table_aarch64::syscall_nr_aarch64;
use rsrun::syscall_table_x86_64::syscall_nr_x86_64;

fn doc(text: &str) -> Json {
    parse_json(text.as_bytes()).unwrap()
}

fn compiled(text: &str) -> Vec<SockFilter> {
    match compile(Some(&doc(text)), Arch::X86_64) {
        Ok(p) => p,
        Err(e) => panic!("{}", e.message()),
    }
}

#[test]
fn none_profile_returns_empty() {
    match compile(None, Arch::X86_64) {
        Ok(p) => assert!(p.is_empty()),
        Err(e) => panic!("{}", e.message()),
    }
}

#[test]
fn empty_syscalls_array_returns_empty() {
    assert!(compiled(r#"{"defaultAction": "SCMP_ACT_ALLOW", "syscalls": []}"#).is_empty());
}

#[test]
fn unknown_action_errors() {
    let v = doc(r#"{"defaultAction": "SCMP_ACT_NEW_NOT_REAL", "syscalls": []}"#);
    assert!(compile(Some(&v), Arch::X86_64).is_err());
}

#[test]
fn valid_actions_all_accepted() {
    for action in [
        "SCMP_ACT_ALLOW",
        "SCMP_ACT_ERRNO",
        "SCMP_ACT_KILL",
        "SCMP_ACT_KILL_THREAD",
        "SCMP_ACT_KILL_PROCESS",
        "SCMP_ACT_LOG",
        "SCMP_ACT_TRAP",
    ] {
        assert!(parse_action(Some(action), None).is_ok(), "action {action} rejected");
    }
}

#[test]
fn errno_action_preserves_errno_ret() {
    assert_eq!(
        parse_action(Some("SCMP_ACT_ERRNO"), Some(38)).unwrap(),
        SECCOMP_RET_ERRNO | 38
    );
}

#[test]
fn known_syscall_names_resolve_on_aarch64() {
    assert_eq!(syscall_nr_aarch64("read"), Some(63));
    assert_eq!(syscall_nr_aarch64("write"), Some(64));
    assert_eq!(syscall_nr_aarch64("execve"), Some(221));
    assert_eq!(syscall_nr_aarch64("openat"), Some(56));
    assert_eq!(syscall_nr_aarch64("fcntl"), Some(25));
    assert_eq!(syscall_nr_aarch64("mmap"), Some(222));
    assert_eq!(syscall_nr_aarch64("newfstatat"), Some(79));
    assert_eq!(syscall_nr_aarch64("fstat"), Some(80));
    assert_eq!(syscall_nr_aarch64("fadvise64"), Some(223));
    assert_eq!(syscall_nr_aarch64("not_a_real_syscall"), None);
}

#[test]
fn known_syscall_names_resolve_on_x86_64() {
    assert_eq!(syscall_nr_x86_64("read"), Some(0));
    assert_eq!(syscall_nr_x86_64("write"), Some(1));
    assert_eq!(syscall_nr_x86_64("execve"), Some(59));
    assert_eq!(syscall_nr_x86_64("openat"), Some(257));
    assert_eq!(syscall_nr_x86_64("clone3"), Some(435));
    assert_eq!(syscall_nr_x86_64("not_a_real_syscall"), None);
}

#[test]
fn small_allowlist_compiles_to_nontrivial_program() {
    let prog = compiled(
        r#"{
            "defaultAction": "SCMP_ACT_ERRNO",
            "syscalls": [
                {
                    "names": ["read", "write", "exit", "exit_group"],
                    "action": "SCMP_ACT_ALLOW"
                }
            ]
        }"#,
    );
    assert!(prog.len() >= 4);
    assert!(prog.iter().any(|ins| ins.k == SECCOMP_RET_ALLOW));
    assert!(prog.iter().any(|ins| ins.k == (SECCOMP_RET_ERRNO | libc::EPERM as u32)));
}

#[test]
fn per_syscall_errno_action_is_emitted() {
    let prog = compiled(
        r#"{
            "defaultAction": "SCMP_ACT_ERRNO",
            "defaultErrnoRet": 1,
            "syscalls": [
                {
                    "names": ["read"],
                    "action": "SCMP_ACT_ALLOW"
                },
                {
                    "names": ["clone3"],
                    "action": "SCMP_ACT_ERRNO",
                    "errnoRet": 38
                }
            ]
        }"#,
    );
    assert!(prog.iter().any(|ins| ins.k == SECCOMP_RET_ALLOW));
    assert!(prog.iter().any(|ins| ins.k == (SECCOMP_RET_ERRNO | 38)));
    assert!(prog.iter().any(|ins| ins.k == (SECCOMP_RET_ERRNO | 1)));
}

#[test]
fn empty_deny_profile_still_emits_filter() {
    let prog = compiled(
        r#"{"defaultAction": "SCMP_ACT_ERRNO", "defaultErrnoRet": 13, "syscalls": []}"#,
    );
    assert!(!prog.is_empty());
    assert_eq!(prog.last().unwrap().k, SECCOMP_RET_ERRNO | 13);
}

fn run(prog: &[SockFilter], arch: u32, nr: u32) -> Option<u32> {
    let mut pc = 0usize;
    let mut a = 0u32;
    while pc < prog.len() {
        let i = &prog[pc];
        pc += 1;
        match i.code {
            0x20 => a = if i.k == 0 { nr } else { arch },
            0x15 => pc += if a == i.k { i.jt as usize } else { i.jf as usize },
            0x06 => return Some(i.k),
            _ => return None,
        }
    }
    None
}

#[test]
fn a_filter_answers_each_call_by_its_rule() {
    let prog = compiled(
        r#"{
            "defaultAction": "SCMP_ACT_ERRNO",
            "defaultErrnoRet": 5,
            "syscalls": [
                {"names": ["read", "no_such_call"], "action": "SCMP_ACT_ALLOW"},
                {"names": ["execve"], "action": "SCMP_ACT_KILL_PROCESS"}
            ]
        }"#,
    );
    let arch = host_audit_arch(Arch::X86_64).unwrap();
    assert_eq!(run(&prog, arch, 0), Some(SECCOMP_RET_ALLOW));
    assert_eq!(run(&prog, arch, 59), Some(0x8000_0000));
    assert_eq!(run(&prog, arch, 1), Some(SECCOMP_RET_ERRNO | 5));
    assert_eq!(run(&prog, arch + 1, 0), Some(0x8000_0000));
}

#[test]
fn names_resolve_by_machine() {
    assert_eq!(syscall_nr(Arch::X86_64, "read"), Some(0));
    assert_eq!(syscall_nr(Arch::Aarch64, "read"), Some(63));
    assert_eq!(syscall_nr(Arch::Other, "read"), None);
    assert!(host_audit_arch(Arch::Other).is_err());
}
