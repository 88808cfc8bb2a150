use rsrun::child::Cause;
use rsrun::create::{recover, CreateOp, Recovery};
use rsrun::hook_run::{
    after_hook_failure, await_hook, hook_error, hook_input, run_hooks, wait_hook_with_timeout,
    AfterFailure, HookNext, HookStep, Phase, WaitOp,
};
use rsrun::hooks::{compile, load_hooks, save_hooks};
use rsrun::json::{parse_json, Json};
use rsrun::lifecycle::{after_delete_failure, after_start_failure, DeleteOp, Failure, StartOp};
use rsrun::plan::{HookCmd, Hooks};

fn doc(text: &str) -> Json {
    parse_json(text.as_bytes()).unwrap()
}

fn compiled(text: &str) -> Hooks {
    match compile(Some(&doc(text)), "/bundle") {
        Ok(h) => h,
        Err(e) => panic!("{}", e.message()),
    }
}

#[test]
fn no_hooks_returns_empty() {
    match compile(None, "/bundle") {
        Ok(h) => assert!(h.is_empty()),
        Err(e) => panic!("{}", e.message()),
    }
}

#[test]
fn parses_all_six_phases() {
    let h = compiled(
        r#"{
            "prestart":         [{"path": "/p1"}],
            "createRuntime":    [{"path": "/p2"}],
            "createContainer":  [{"path": "/p3"}],
            "startContainer":   [{"path": "/p4"}],
            "poststart":        [{"path": "/p5"}],
            "poststop":         [{"path": "/p6"}]
        }"#,
    );
    assert_eq!(h.prestart.len(), 1);
    assert_eq!(h.create_runtime.len(), 1);
    assert_eq!(h.create_container.len(), 1);
    assert_eq!(h.start_container.len(), 1);
    assert_eq!(h.poststart.len(), 1);
    assert_eq!(h.poststop.len(), 1);
    assert_eq!(h.prestart[0].path, "/p1");
}

#[test]
fn missing_args_defaults_to_path() {
    let h = compiled(r#"{"prestart": [{"path": "/usr/bin/true"}]}"#);
    assert_eq!(h.prestart[0].args.len(), 1);
    assert_eq!(h.prestart[0].args[0], "/usr/bin/true");
}

#[test]
fn args_and_env_lists_are_threaded_through() {
    let h = compiled(
        r#"{
            "prestart": [{
                "path": "/h",
                "args": ["h", "-x"],
                "env": ["A=1", "B=2"],
                "timeout": 10
            }]
        }"#,
    );
    let cmd = &h.prestart[0];
    assert_eq!(cmd.args.len(), 2);
    assert_eq!(cmd.env.len(), 2);
    assert_eq!(cmd.timeout_ms, Some(10_000));
}

#[test]
fn missing_path_errors() {
    assert!(compile(Some(&doc(r#"{"prestart": [{"args": ["foo"]}]}"#)), "/bundle").is_err());
}

#[test]
fn nul_byte_in_path_errors() {
    assert!(compile(Some(&doc("{\"prestart\": [{\"path\": \"/with\\u0000nul\"}]}")), "/bundle")
        .is_err());
}

#[test]
fn saved_hooks_are_loaded_again() {
    let h = compiled(r#"{"poststop": [{"path": "/p", "args": ["p", "q"], "timeout": 3}]}"#);
    let again = load_hooks(Some(&save_hooks(&h)));
    assert_eq!(again.poststop.len(), 1);
    assert_eq!(again.poststop[0].path, "/p");
    assert_eq!(again.poststop[0].args, vec!["p".to_string(), "q".to_string()]);
    assert_eq!(again.poststop[0].timeout_ms, Some(3_000));
    assert!(load_hooks(None).is_empty());
    assert!(load_hooks(Some(b"nonsense")).is_empty());
}

#[test]
fn hooks_read_the_state_on_their_input() {
    assert_eq!(
        hook_input("c1"),
        "{\"ociVersion\":\"1.0.2\",\"id\":\"c1\",\"status\":\"creating\",\"pid\":0,\"bundle\":\"\"}"
    );
}

#[test]
fn hook_failures_say_what_happened() {
    assert_eq!(
        hook_error(Cause::HookTimeout, 250).unwrap().message(),
        "hook exceeded 250 ms timeout, killed"
    );
    assert_eq!(hook_error(Cause::HookExit, 0).unwrap().message(), "hook exited nonzero");
    assert_eq!(hook_error(Cause::HookSignal, 0).unwrap().message(), "hook killed by signal");
    assert!(hook_error(Cause::HookWait, 0).is_none());
}

#[test]
fn late_hooks_cannot_abort() {
    assert_eq!(recover(CreateOp::PrestartHooks), Recovery::TearDown);
    assert_eq!(recover(CreateOp::CreateRuntimeHooks), Recovery::TearDown);
    assert!(matches!(after_start_failure(StartOp::Poststart, "c1"), Failure::PassOver));
    assert!(matches!(after_delete_failure(DeleteOp::Poststop), Failure::PassOver));
}

#[test]
fn hooks_run_one_after_the_other() {
    let hook = |name: &str| HookCmd {
        path: name.to_string(),
        args: vec![name.to_string()],
        env: Vec::new(),
        timeout_ms: None,
    };
    assert_eq!(
        run_hooks(&vec![hook("/a"), hook("/b")]),
        vec![
            HookStep::CheckTime(0),
            HookStep::Fork(0),
            HookStep::Await(0),
            HookStep::CheckTime(1),
            HookStep::Fork(1),
            HookStep::Await(1),
        ]
    );
    assert!(run_hooks(&Vec::new()).is_empty());
}

#[test]
fn a_hook_that_overruns_is_killed_and_reaped() {
    assert_eq!(await_hook(None), WaitOp::Wait);
    assert_eq!(await_hook(Some(5)), WaitOp::Watch);
    let next = |op: WaitOp, rc: i32, errno: i32, status: i32| {
        wait_hook_with_timeout(Phase::StartContainer, op, rc, errno, status)
    };
    assert_eq!(next(WaitOp::Watch, 7, 0, 0), HookNext::Do(WaitOp::Poll));
    assert_eq!(next(WaitOp::Watch, -1, 38, 0), HookNext::Do(WaitOp::Wait));
    assert_eq!(next(WaitOp::Poll, -1, 4, 0), HookNext::Do(WaitOp::Poll));
    assert_eq!(next(WaitOp::Poll, 1, 0, 0), HookNext::Do(WaitOp::Wait));
    assert_eq!(next(WaitOp::Poll, 0, 0, 0), HookNext::Do(WaitOp::Kill));
    assert_eq!(next(WaitOp::Poll, -1, 12, 0), HookNext::Fail(Cause::HookPoll));
    assert_eq!(next(WaitOp::Kill, 0, 0, 0), HookNext::Do(WaitOp::Reap));
    assert_eq!(next(WaitOp::Reap, 9, 0, 9), HookNext::Fail(Cause::HookTimeout));
    assert_eq!(next(WaitOp::Wait, -1, 4, 0), HookNext::Do(WaitOp::Wait));
    assert_eq!(next(WaitOp::Wait, 9, 0, 0), HookNext::Over);
    assert_eq!(next(WaitOp::Wait, 9, 0, 1 << 8), HookNext::Fail(Cause::HookExit));
    assert_eq!(next(WaitOp::Wait, 9, 0, 15), HookNext::Fail(Cause::HookSignal));
    assert_eq!(next(WaitOp::Wait, -1, 10, 0), HookNext::Fail(Cause::HookWait));
}

#[test]
fn an_interruption_outside_fails_a_limited_wait() {
    let next = |op: WaitOp, rc: i32, errno: i32, status: i32| {
        wait_hook_with_timeout(Phase::Prestart, op, rc, errno, status)
    };
    assert_eq!(next(WaitOp::Watch, -1, 38, 0), HookNext::Do(WaitOp::WaitOnce));
    assert_eq!(next(WaitOp::Poll, -1, 4, 0), HookNext::Do(WaitOp::Poll));
    assert_eq!(next(WaitOp::Poll, 1, 0, 0), HookNext::Do(WaitOp::WaitOnce));
    assert_eq!(next(WaitOp::WaitOnce, -1, 4, 0), HookNext::Fail(Cause::HookWait));
    assert_eq!(next(WaitOp::WaitOnce, -1, 10, 0), HookNext::Fail(Cause::HookWait));
    assert_eq!(next(WaitOp::WaitOnce, 9, 0, 0), HookNext::Over);
    assert_eq!(next(WaitOp::WaitOnce, 9, 0, 1 << 8), HookNext::Fail(Cause::HookExit));
    assert_eq!(next(WaitOp::Wait, -1, 4, 0), HookNext::Do(WaitOp::Wait));
}

#[test]
fn late_hooks_go_on_after_one_that_ended_badly() {
    for phase in [Phase::Poststart, Phase::Poststop] {
        assert_eq!(after_hook_failure(phase, Cause::HookExit), AfterFailure::GoOn);
        assert_eq!(after_hook_failure(phase, Cause::HookSignal), AfterFailure::GoOn);
        for cause in [Cause::HookTimeout, Cause::HookFork, Cause::HookPoll, Cause::HookWait] {
            assert_eq!(after_hook_failure(phase, cause), AfterFailure::EndList);
        }
    }
    for phase in [
        Phase::CreateRuntime,
        Phase::Prestart,
        Phase::CreateContainer,
        Phase::StartContainer,
    ] {
        assert_eq!(after_hook_failure(phase, Cause::HookExit), AfterFailure::EndList);
        assert_eq!(after_hook_failure(phase, Cause::HookSignal), AfterFailure::EndList);
    }
}
