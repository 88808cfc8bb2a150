use rsrun::deadline::Deadline;
use rsrun::error::{Error, ErrorKind};
use rsrun::exec::cmd_exec;
use rsrun::json::parse_json;
use rsrun::lifecycle::{after_start_failure, cmd_kill, cmd_state, Failure, StartOp};
use rsrun::markers::read_marker;
use rsrun::options::stored_bundle_for_container;
use rsrun::overlay::read_overlay_state;
use rsrun::plan::CompiledPlan;
use rsrun::reexec::{copy_self_exe_to_memfd, write_all_raw_fd, CopyNext};
use rsrun::rollout::note_reset;
use rsrun::signal::parse_signal;
use rsrun::snapshot::{read_checkpoint_meta, read_snapshot_meta};
use rsrun::spec::Spec;
use rsrun::state::{mark_failed, read_bundle, read_pid, update_status};
use rsrun::stats::cmd_update;

fn bundle_fault(text: &[u8]) -> (ErrorKind, String) {
    match Spec::from_bundle(text, "/bundle") {
        Ok(_) => panic!("a bundle without a fault"),
        Err(e) => (e.kind, e.message().to_string()),
    }
}

#[test]
fn a_bundle_that_is_refused_is_invalid_data() {
    for text in [
        &b"{"[..],
        b"{}",
        b"{\"process\": {}, \"root\": {\"path\": \"r\"}}",
        b"{\"process\": {\"args\": []}}",
        b"{\"process\": {\"args\": []}, \"root\": {\"path\": 7}}",
        b"{\"process\": {\"args\": [], \"scheduler\": {\"policy\": \"x\"}}, \"root\": {\"path\": \"r\"}}",
    ] {
        assert_eq!(bundle_fault(text).0, ErrorKind::InvalidData);
    }
    assert_eq!(bundle_fault(b"{}").1, "missing OCI field: process");
    let v = parse_json(b"{\"process\": {\"args\": []}}").unwrap();
    match Spec::from_value(v, "/bundle") {
        Ok(_) => panic!("a bundle without a root"),
        Err(e) => assert_eq!(e.kind, ErrorKind::InvalidData),
    }
}

#[test]
fn a_nul_in_a_plan_is_invalid_input() {
    let text = b"{\"process\": {\"args\": [\"a\\u0000b\"]}, \"root\": {\"path\": \"r\"}}";
    let spec = match Spec::from_bundle(text, "/bundle") {
        Ok(s) => s,
        Err(e) => panic!("{}", e.message()),
    };
    match CompiledPlan::from_spec(&spec) {
        Ok(_) => panic!("a plan with a NUL"),
        Err(e) => {
            assert_eq!(e.kind, ErrorKind::InvalidInput);
            assert_eq!(e.message(), "string contains NUL byte");
        }
    }
}

#[test]
fn a_pid_file_without_a_pid_is_invalid_data() {
    for text in ["", "x", "99999999999", "-99999999999", "+99999999999"] {
        assert_eq!(read_pid(text).unwrap_err().kind, ErrorKind::InvalidData);
    }
    assert_eq!(cmd_kill("x", "TERM").unwrap_err().kind, ErrorKind::InvalidData);
    assert_eq!(parse_signal("NOPE").unwrap_err().kind, ErrorKind::Other);
}

#[test]
fn a_passed_deadline_is_timed_out() {
    let d = Deadline::from_timeout_ms(Some(5), 10);
    assert_eq!(d.check("start", 15).unwrap_err().kind, ErrorKind::TimedOut);
    assert_eq!(d.remaining_ms("start", 15).unwrap_err().kind, ErrorKind::TimedOut);
    assert_eq!(d.hook_timeout_ms(Some(1), 15).unwrap_err().kind, ErrorKind::TimedOut);
    match after_start_failure(StartOp::CheckTime, "c") {
        Failure::Error(e) => assert_eq!(e.kind, ErrorKind::TimedOut),
        other => panic!("{other:?}"),
    }
    match after_start_failure(StartOp::FindContainer, "c") {
        Failure::Error(e) => assert_eq!(e.kind, ErrorKind::Other),
        other => panic!("{other:?}"),
    }
}

#[test]
fn a_copy_that_stops_short_says_how() {
    match copy_self_exe_to_memfd(0, 0) {
        CopyNext::Error(e) => assert_eq!(e.kind, ErrorKind::UnexpectedEof),
        other => panic!("{other:?}"),
    }
    match write_all_raw_fd(0, 0) {
        CopyNext::Error(e) => assert_eq!(e.kind, ErrorKind::WriteZero),
        other => panic!("{other:?}"),
    }
}

fn kind_of<T>(r: Result<T, Error>) -> ErrorKind {
    match r {
        Ok(_) => panic!("no fault"),
        Err(e) => e.kind,
    }
}

#[test]
fn a_file_that_is_no_document_says_whether_it_is_cut_short() {
    for (text, kind) in [
        (&b"{\"id\": "[..], ErrorKind::UnexpectedEof),
        (b"", ErrorKind::UnexpectedEof),
        (b"torn", ErrorKind::InvalidData),
        (b"{\"a\": 1} 2", ErrorKind::InvalidData),
    ] {
        assert_eq!(kind_of(parse_json(text)), kind);
        assert_eq!(kind_of(read_bundle(text)), kind);
        assert_eq!(kind_of(update_status(text, "paused")), kind);
        assert_eq!(kind_of(mark_failed(text, "why")), kind);
        assert_eq!(kind_of(note_reset(text, 1)), kind);
        assert_eq!(kind_of(cmd_state("c", true, Some(text), None, false)), kind);
        assert_eq!(kind_of(read_overlay_state(text)), kind);
        assert_eq!(kind_of(read_snapshot_meta(text)), kind);
        assert_eq!(kind_of(read_checkpoint_meta(text)), kind);
        assert_eq!(kind_of(read_marker(text)), kind);
        assert_eq!(kind_of(cmd_update("c", text, true)), kind);
        assert_eq!(kind_of(cmd_exec("c", text, &None, false)), kind);
        assert_eq!(kind_of(stored_bundle_for_container(text)), kind);
        assert_eq!(bundle_fault(text).0, ErrorKind::InvalidData);
    }
    assert_eq!(kind_of(read_overlay_state(b"{}")), ErrorKind::Other);
    assert_eq!(kind_of(read_snapshot_meta(b"{}")), ErrorKind::Other);
    assert_eq!(kind_of(read_checkpoint_meta(b"{}")), ErrorKind::Other);
    assert_eq!(kind_of(read_marker(b"{}")), ErrorKind::Other);
    assert_eq!(kind_of(cmd_update("c", b"{}", false)), ErrorKind::Other);
    assert_eq!(kind_of(cmd_exec("c", b"{}", &None, false)), ErrorKind::Other);
    assert_eq!(kind_of(stored_bundle_for_container(b"{}")), ErrorKind::Other);
}
