use rsrun::diff::{
    changed_files_json, cmd_changed_files, cmd_diff, cmd_export_diff, descends, diff_fingerprint,
    diff_json, is_overlay_opaque_dir, is_overlay_whiteout, is_sensitive_path, lower_metadata,
    scan_overlay_diff, slash_path, DiffEntry, DiffKind, ExportFormat, FileKind, FileMeta, LowerLook,
    Seen, UpperLook,
};
use rsrun::json::parse_json;
use rsrun::markers::{
    bytes_written, cmd_effects, cmd_mark, effects_json, effects_since, marked_entries,
    marker_entries_from_diff, marker_path, read_marker, write_marker, MarkEntry,
};
use rsrun::overlay::{
    absolute_lexical, mount_overlay, read_overlay_state, unmount_overlay, validate_overlay_paths,
    write_overlay_state, OverlayRootfs,
};
use rsrun::rollout::{
    checkpoint_report, cmd_checkpoint, cmd_fork, cmd_fork_checkpoint, cmd_reset, cmd_restore,
    cmd_snapshot, fails, fork_checkpoint_report, fork_report, next_reset_count, note_reset,
    reset_report, restore_report, rollout_steps, taken, undo, RolloutKind, RolloutOp, Undo,
};
use rsrun::snapshot::{
    branch_layers, check_layers, checkpoint_layers, checkpoint_paths, clone_path, clone_upperdir,
    enforce_snapshot_limits, ensure_checkpoint_quiescent, ensure_stopped_for_fs_state, list_xattrs,
    make_tree_readonly, measure_upperdir, no_attributes, owner_optional, read_checkpoint_meta,
    read_snapshot_meta, readonly_mode, snapshot_limit_env, snapshot_paths, validate_state_name,
    write_checkpoint_meta, write_snapshot_meta, CopyOp, SealOp, SnapshotStats,
};
use rsrun::state::{write_state, RootEnv, StatusPidComm};
use rsrun::tar::{
    pad_tar, tar_whiteout_path, write_octal, write_overlay_tar, write_tar_header, write_tar_name,
    write_tar_path, TarSource,
};

fn s(t: &str) -> String {
    t.to_string()
}

fn overlay_at(root: &str) -> OverlayRootfs {
    OverlayRootfs {
        lowerdirs: vec![format!("{root}/lower")],
        upperdir: format!("{root}/overlay/upper"),
        workdir: format!("{root}/overlay/work"),
        merged: format!("{root}/overlay/merged"),
    }
}

fn meta(kind: FileKind, len: u64) -> FileMeta {
    FileMeta {
        kind,
        mode: 0o100644,
        uid: 1,
        gid: 2,
        rdev: 0,
        len,
        mtime: 10,
        mtime_nsec: 11,
        ctime: 12,
        ctime_nsec: 13,
    }
}

fn seen(kind: FileKind, len: u64) -> Seen {
    Seen { meta: meta(kind, len), whiteout: None, opaque: None }
}

fn look(rel: &str, it: Seen, lower: Vec<Option<Seen>>) -> UpperLook {
    UpperLook {
        rel: s(rel),
        seen: it,
        lower: lower.into_iter().map(|own| LowerLook { ancestors: vec![], own }).collect(),
    }
}

fn round_trips_paths_and_reset_count() {
    let overlay = overlay_at("/tmp/overlay-state");
    let bytes = write_overlay_state(&overlay, 7);
    let (read, reset_count) = match read_overlay_state(&bytes) {
        Ok(r) => r,
        Err(e) => panic!("{}", e.message()),
    };
    assert_eq!(reset_count, 7);
    assert_eq!(read.lowerdirs, overlay.lowerdirs);
    assert_eq!(read.upperdir, overlay.upperdir);
    assert_eq!(read.workdir, overlay.workdir);
    assert_eq!(read.merged, overlay.merged);
    assert!(validate_overlay_paths(&read, &vec![true], "/tmp/overlay-state", "/").is_ok());
}

#[test]
fn rollout_overlay_state_round_trips_paths_and_reset_count() {
    round_trips_paths_and_reset_count();
}

#[test]
fn runtime_overlay_state_round_trips_paths_and_reset_count() {
    round_trips_paths_and_reset_count();
}

fn state_error(root: &str, upper: &str) -> String {
    let text = format!(
        "{{\"backend\":\"overlayfs\",\"lowerdir\":\"{root}/lower\",\"upperdir\":\"{upper}\",\
         \"workdir\":\"{root}/overlay/work\",\"merged\":\"{root}/overlay/merged\",\"resetCount\":0}}"
    );
    let (read, _) = match read_overlay_state(text.as_bytes()) {
        Ok(r) => r,
        Err(e) => panic!("{}", e.message()),
    };
    validate_overlay_paths(&read, &vec![true], root, "/").unwrap_err().message().to_string()
}

#[test]
fn rollout_overlay_state_rejects_reset_paths_outside_state_root() {
    let err = state_error("/tmp/overlay-outside", "/tmp/rsrun-not-owned-upper");
    assert!(err.contains("must be under rsrun state"));
}

#[test]
fn runtime_overlay_state_rejects_reset_paths_outside_state_root() {
    let err = state_error("/tmp/overlay-outside", "/tmp/rsrun-not-owned-upper");
    assert!(err.contains("must be under rsrun state"));
}

#[test]
fn rollout_overlay_state_rejects_parent_dir_escape() {
    let err = state_error("/tmp/overlay-parent-dir", "/tmp/overlay-parent-dir/../upper-escape");
    assert!(err.contains("must be under rsrun state"));
}

#[test]
fn runtime_overlay_state_rejects_parent_dir_escape() {
    let err = state_error("/tmp/overlay-parent-dir", "/tmp/overlay-parent-dir/../upper-escape");
    assert!(err.contains("must be under rsrun state"));
}

fn reports_added_and_modified_from_upper_only() {
    let looks = vec![
        look("etc", seen(FileKind::Directory, 0), vec![Some(seen(FileKind::Directory, 0))]),
        look("etc/config", seen(FileKind::File, 5), vec![Some(seen(FileKind::File, 3))]),
        look("added", seen(FileKind::File, 5), vec![None]),
    ];
    let entries = scan_overlay_diff("/upper", &looks);
    let added = entries.iter().find(|e| e.path == "added").unwrap();
    assert_eq!(added.kind, DiffKind::Added);
    assert_eq!(added.size_delta, Some(5));
    let modified = entries.iter().find(|e| e.path == "etc/config").unwrap();
    assert_eq!(modified.kind, DiffKind::Modified);
    assert_eq!(modified.size, Some(5));
    assert_eq!(modified.lower_size, Some(3));
    assert_eq!(modified.size_delta, Some(2));
}

#[test]
fn rollout_scan_overlay_diff_reports_added_and_modified_from_upper_only() {
    reports_added_and_modified_from_upper_only();
}

#[test]
fn runtime_scan_overlay_diff_reports_added_and_modified_from_upper_only() {
    reports_added_and_modified_from_upper_only();
}

fn branches_keep_empty_independent_uppers() {
    assert!(scan_overlay_diff("/branch-a/upper", &vec![]).is_empty());
    assert!(scan_overlay_diff("/branch-b/upper", &vec![]).is_empty());

    let chain = vec![Some(seen(FileKind::File, 8)), Some(seen(FileKind::File, 9)), None];
    let looks = vec![look("shared.txt", seen(FileKind::File, 8), chain)];
    let a_entries = scan_overlay_diff("/branch-a/upper", &looks);
    let changed = a_entries.iter().find(|e| e.path == "shared.txt").unwrap();
    assert_eq!(changed.kind, DiffKind::Modified);
    assert_eq!(changed.lower_size, Some(8));
    assert!(scan_overlay_diff("/branch-b/upper", &vec![]).is_empty());
}

#[test]
fn rollout_checkpoint_lower_chain_branches_keep_empty_independent_uppers() {
    branches_keep_empty_independent_uppers();
}

#[test]
fn runtime_checkpoint_lower_chain_branches_keep_empty_independent_uppers() {
    branches_keep_empty_independent_uppers();
}

fn report_only_changes_since_marker() {
    let before = vec![look("before_marker", seen(FileKind::File, 3), vec![None])];
    let marked = marker_entries_from_diff(&scan_overlay_diff("/upper", &before));
    let after = vec![look("after_marker", seen(FileKind::File, 3), vec![None])];
    let current = marker_entries_from_diff(&scan_overlay_diff("/upper", &after));
    let effects = effects_since(&marked, &current);
    let changed = effects.iter().map(|e| e.path.as_str()).collect::<Vec<_>>();
    assert_eq!(changed, vec!["after_marker", "before_marker"]);
    assert!(effects.iter().any(|e| e.path == "after_marker"
        && e.before.is_none()
        && e.after.as_deref() == Some("added")));
    assert!(effects.iter().any(|e| e.path == "before_marker"
        && e.before.as_deref() == Some("added")
        && e.after.is_none()));
    let total = bytes_written(&effects).unwrap();
    let line = effects_json("c", "step_1", &effects, total);
    assert!(parse_json(&line)
        .unwrap()
        .get("persistent_fs_change")
        .and_then(|v| v.as_bool())
        .unwrap());
}

#[test]
fn rollout_effects_report_only_changes_since_marker() {
    report_only_changes_since_marker();
}

#[test]
fn runtime_effects_report_only_changes_since_marker() {
    report_only_changes_since_marker();
}

fn deleted() -> DiffEntry {
    DiffEntry {
        path: s("dir/deleted"),
        kind: DiffKind::Deleted,
        file_type: s("whiteout"),
        size: None,
        lower_size: Some(10),
        size_delta: Some(-10),
        sensitive: false,
        fingerprint: s("whiteout"),
        upper_path: None,
    }
}

fn exports_whiteout_entries() {
    let tar = write_overlay_tar(&vec![deleted()], &vec![None]).unwrap();
    assert!(tar.windows(b"dir/.wh.deleted".len()).any(|w| w == b"dir/.wh.deleted"));
    assert_eq!(tar.len() % 512, 0);
}

#[test]
fn rollout_tar_writer_exports_whiteout_entries() {
    exports_whiteout_entries();
}

#[test]
fn runtime_tar_writer_exports_whiteout_entries() {
    exports_whiteout_entries();
}

#[test]
fn layers_that_must_not_be_mounted_are_named() {
    let message = |o: &OverlayRootfs, dirs: Vec<bool>| {
        validate_overlay_paths(o, &dirs, "/st", "/").unwrap_err().message().to_string()
    };
    let mut o = overlay_at("/st");
    o.lowerdirs = vec![];
    assert_eq!(message(&o, vec![]), "overlay lowerdir chain is empty");
    let o = overlay_at("/st");
    assert_eq!(message(&o, vec![false]), "overlay lowerdir /st/lower is not a directory");
    let mut o = overlay_at("/st");
    o.merged = o.upperdir.clone();
    assert_eq!(
        message(&o, vec![true]),
        "overlay upperdir, workdir, and merged must be distinct"
    );
    let mut o = overlay_at("/st");
    o.upperdir = s("/st/a,b");
    assert!(validate_overlay_paths(&o, &vec![true], "/st", "/").is_err());
    assert_eq!(
        absolute_lexical("a/../b/./c", "/w").unwrap(),
        vec![s("w"), s("b"), s("c")]
    );
    assert_eq!(absolute_lexical("/..", "/").unwrap_err().message(), "path /.. escapes its root");
    assert_eq!(
        mount_overlay(&overlay_at("/st")),
        "lowerdir=/st/lower,upperdir=/st/overlay/upper,workdir=/st/overlay/work"
    );
    assert!(unmount_overlay(libc::EINVAL) && unmount_overlay(libc::ENOENT));
    assert!(!unmount_overlay(libc::EBUSY));
}

#[test]
fn whiteouts_and_opaque_directories_are_seen() {
    assert!(is_overlay_whiteout(&seen(FileKind::CharDevice, 0)));
    let mut null = seen(FileKind::CharDevice, 0);
    null.meta.rdev = libc::makedev(1, 3);
    assert!(!is_overlay_whiteout(&null));
    let mut far = seen(FileKind::CharDevice, 0);
    far.meta.rdev = libc::makedev(0x12345, 0);
    assert!(!is_overlay_whiteout(&far));
    let mut minor = seen(FileKind::CharDevice, 0);
    minor.meta.rdev = libc::makedev(0, 0x12300);
    assert!(!is_overlay_whiteout(&minor));
    let mut marked = seen(FileKind::File, 0);
    assert!(!is_overlay_whiteout(&marked));
    marked.whiteout = Some(b"y".to_vec());
    assert!(is_overlay_whiteout(&marked));
    let mut dir = seen(FileKind::Directory, 0);
    assert!(!is_overlay_opaque_dir(&dir) && descends(&dir));
    dir.opaque = Some(b"y".to_vec());
    assert!(is_overlay_opaque_dir(&dir));
    dir.opaque = Some(b"n".to_vec());
    assert!(!is_overlay_opaque_dir(&dir));
}

#[test]
fn the_first_lower_layer_with_the_file_decides() {
    let own = |o: Option<Seen>| LowerLook { ancestors: vec![], own: o };
    let m = lower_metadata(&vec![own(None), own(Some(seen(FileKind::File, 4))), own(Some(seen(FileKind::File, 5)))]);
    assert_eq!(m.unwrap().len, 4);
    let gone = lower_metadata(&vec![own(Some(seen(FileKind::CharDevice, 0))), own(Some(seen(FileKind::File, 5)))]);
    assert!(gone.is_none());
    let mut hiding = seen(FileKind::Directory, 0);
    hiding.opaque = Some(b"y".to_vec());
    let hidden = lower_metadata(&vec![
        LowerLook { ancestors: vec![Some(hiding)], own: None },
        own(Some(seen(FileKind::File, 5))),
    ]);
    assert!(hidden.is_none());
}

#[test]
fn changes_are_printed_and_exported() {
    let looks = vec![
        look("b", seen(FileKind::File, 2), vec![None]),
        look("a/id_rsa", seen(FileKind::CharDevice, 0), vec![Some(seen(FileKind::File, 7))]),
    ];
    let es = scan_overlay_diff("/u", &looks);
    assert_eq!(es.len(), 2);
    assert_eq!(es[0].path, "a/id_rsa");
    assert_eq!(es[0].kind, DiffKind::Deleted);
    assert_eq!(es[0].size_delta, Some(-7));
    assert!(es[0].sensitive && es[0].upper_path.is_none());
    assert_eq!(es[1].upper_path.as_deref(), Some("/u/b"));
    assert!(cmd_changed_files(&es).contains("a/id_rsa"));
    assert!(cmd_diff(&es).contains("added"));
    let files = parse_json(&changed_files_json("c", &es)).unwrap();
    assert_eq!(files.get("id").unwrap().as_str(), Some("c"));
    let doc = parse_json(&diff_json("c", &es)).unwrap();
    assert_eq!(doc.get("id").unwrap().as_str(), Some("c"));
    assert!(matches!(cmd_export_diff("tar"), Ok(ExportFormat::Tar)));
    assert!(matches!(cmd_export_diff("json"), Ok(ExportFormat::Json)));
    assert!(cmd_export_diff("zip").is_err());
    assert!(is_sensitive_path("/etc/shadow") && is_sensitive_path("x/.ssh/y"));
    assert!(!is_sensitive_path("etc/hosts"));
    assert_eq!(slash_path("./a//b/../c"), "a/b/c");
    assert_eq!(
        diff_fingerprint("file", &meta(FileKind::File, 9)),
        "type=file:mode=100644:uid=1:gid=2:rdev=0:size=9:mtime=10.11:ctime=12.13"
    );
}

#[test]
fn a_marker_is_read_back() {
    let es = scan_overlay_diff("/u", &vec![look("f", seen(FileKind::File, 2), vec![None])]);
    let bytes = write_marker("c", "m1", 3, &es);
    let doc = match read_marker(&bytes) {
        Ok(d) => d,
        Err(e) => panic!("{}", e.message()),
    };
    let back = match marked_entries(&doc, "m1", 3) {
        Ok(v) => v,
        Err(e) => panic!("{}", e.message()),
    };
    let now = marker_entries_from_diff(&es);
    assert_eq!(back.len(), 1);
    assert_eq!(back[0].path, now[0].path);
    assert_eq!(back[0].fingerprint, now[0].fingerprint);
    assert!(effects_since(&back, &now).is_empty());
    match marked_entries(&doc, "m1", next_reset_count(3)) {
        Ok(_) => panic!("a marker from before a reset"),
        Err(e) => assert_eq!(
            e.message(),
            "marker m1 was created before reset count 4; create a new marker"
        ),
    }
    assert!(read_marker(b"{}").is_err());
    assert!(cmd_mark("c", "ok").is_ok());
    assert!(cmd_mark("c", "../x").is_err());
    assert!(marker_path("/st", "m1").starts_with("/st/"));
    assert_eq!(cmd_effects(&vec![]), "");
}

fn mark_at(path: &str, kind: &str, fingerprint: &str) -> MarkEntry {
    MarkEntry {
        path: s(path),
        kind: s(kind),
        sensitive: false,
        size: Some(4),
        fingerprint: s(fingerprint),
    }
}

#[test]
fn each_difference_is_listed_once_whatever_the_order() {
    let before = || vec![mark_at("b", "added", "1"), mark_at("a", "added", "1")];
    let after = || {
        vec![
            mark_at("c", "deleted", "3"),
            mark_at("a", "added", "2"),
            mark_at("b", "added", "1"),
        ]
    };
    let found = effects_since(&before(), &after());
    let listed = found
        .iter()
        .map(|e| (e.path.as_str(), e.before.as_deref(), e.after.as_deref(), e.bytes_written))
        .collect::<Vec<_>>();
    assert_eq!(
        listed,
        vec![("a", Some("added"), Some("added"), 4), ("c", None, Some("deleted"), 4)]
    );
    let mut old = before();
    let mut new = after();
    old.reverse();
    new.reverse();
    let again = effects_since(&old, &new);
    assert_eq!(cmd_effects(&again), cmd_effects(&found));
    assert!(effects_since(&new, &new).is_empty());
}

#[test]
fn only_files_have_a_size_limit_in_an_archive() {
    let huge = |kind: FileKind| TarSource {
        kind,
        mode: 0o755,
        len: u64::MAX,
        link: s("t"),
        content: Vec::new(),
    };
    assert_eq!(write_tar_path("d", &huge(FileKind::Directory)).unwrap().len(), 512);
    assert_eq!(write_tar_path("l", &huge(FileKind::Symlink)).unwrap().len(), 512);
    assert!(write_tar_path("p", &huge(FileKind::Fifo)).unwrap().is_empty());
}

#[test]
fn names_lead_nowhere_else() {
    assert!(validate_state_name("snap-1_a.b", "snapshot").is_ok());
    for bad in ["", ".", "..", "a/b"] {
        assert!(validate_state_name(bad, "snapshot").is_err(), "{bad}");
    }
    assert!(cmd_snapshot("a/b").is_err());
    assert!(cmd_restore("ok", "..").is_err());
    assert!(cmd_restore("ok", "fine").is_ok());
    assert!(cmd_fork("").is_err());
    assert!(cmd_checkpoint("cp1").is_ok());
    assert!(cmd_fork_checkpoint("..", "c").is_err());
    assert_eq!(cmd_fork_checkpoint("cp1", "c").unwrap()[0], RolloutOp::ReadMeta);
    let env = RootEnv { rsrun_root: Some(s("/r")), euid: 0, xdg_runtime_dir: None };
    assert!(snapshot_paths(&env, "s1").root.starts_with("/r"));
    assert!(checkpoint_paths(&env, "c1").layer.starts_with("/r"));
}

#[test]
fn snapshots_have_limits() {
    let zero = SnapshotStats { entries: 0, bytes: 0 };
    let one = measure_upperdir(zero, FileKind::File, 10);
    assert_eq!((one.entries, one.bytes), (1, 10));
    let two = measure_upperdir(one, FileKind::Directory, 4096);
    assert_eq!((two.entries, two.bytes), (2, 10));
    assert!(enforce_snapshot_limits(two, 10, 2).is_ok());
    assert!(enforce_snapshot_limits(two, 9, 2).is_err());
    assert!(enforce_snapshot_limits(two, 10, 1).is_err());
    assert_eq!(snapshot_limit_env(&None, 5), 5);
    assert_eq!(snapshot_limit_env(&Some(s("7")), 5), 7);
    assert_eq!(snapshot_limit_env(&Some(s("x")), 5), 5);
    assert_eq!(readonly_mode(0o755), 0o555);
    assert_eq!(readonly_mode(0o4222), 0o4000);
}

#[test]
fn files_are_copied_by_their_kind() {
    assert!(clone_path(FileKind::File).contains(&CopyOp::CopyFile));
    assert!(clone_path(FileKind::Symlink).contains(&CopyOp::MakeLink));
    assert!(clone_path(FileKind::Fifo).contains(&CopyOp::MakeFifo));
    assert!(clone_path(FileKind::Directory).contains(&CopyOp::Descend));
    assert!(owner_optional(libc::EPERM) && !owner_optional(libc::EIO));
    assert!(no_attributes(libc::EOPNOTSUPP) && !no_attributes(libc::EIO));
    assert_eq!(list_xattrs(b"user.a\0user.b\0"), vec![s("user.a"), s("user.b")]);
    assert!(list_xattrs(b"").is_empty());
}

#[test]
fn layers_are_kept_only_of_what_stands_still() {
    let known = |status: Option<&str>, pid: i32| StatusPidComm {
        status: status.map(s),
        pid,
        comm: None,
    };
    assert!(ensure_stopped_for_fs_state("c", "fork", true, &known(Some("stopped"), 0), false).is_ok());
    assert_eq!(
        ensure_stopped_for_fs_state("c", "reset", true, &known(Some("running"), 4), true)
            .unwrap_err()
            .message(),
        "cannot reset container c in state running; stop it first"
    );
    assert_eq!(
        ensure_stopped_for_fs_state("c", "fork", false, &known(None, 0), false).unwrap_err().message(),
        "container c does not exist"
    );
    assert!(ensure_checkpoint_quiescent("c", true, &known(Some("created"), 4), true).is_ok());
    assert!(ensure_checkpoint_quiescent("c", true, &known(Some("paused"), 4), true).is_err());
    assert_eq!(
        ensure_checkpoint_quiescent("c", true, &known(Some("running"), 4), true)
            .unwrap_err()
            .message(),
        "cannot checkpoint container c in state running; stop it first"
    );
}

#[test]
fn kept_layers_are_read_back() {
    let stats = SnapshotStats { entries: 1, bytes: 2 };
    let bytes = write_snapshot_meta("s1", "c", &vec![s("/l1"), s("/l2")], "/b", 3, stats);
    match read_snapshot_meta(&bytes) {
        Ok(m) => {
            assert_eq!(m.lowerdirs, vec![s("/l1"), s("/l2")]);
            assert_eq!(m.bundle, "/b");
            assert_eq!(m.reset_count, 3);
        }
        Err(e) => panic!("{}", e.message()),
    }
    let bytes = write_checkpoint_meta("k1", "c", "/layer", &vec![s("/l1")], "/b", 3, stats);
    match read_checkpoint_meta(&bytes) {
        Ok(m) => assert_eq!(m.lowerdirs, vec![s("/layer"), s("/l1")]),
        Err(e) => panic!("{}", e.message()),
    }
    assert!(read_checkpoint_meta(b"{}").is_err());
    assert!(read_snapshot_meta(b"{}").is_err());
    assert_eq!(checkpoint_layers("/layer", &vec![s("/l1")]), vec![s("/layer"), s("/l1")]);
    assert!(check_layers("snapshot", &vec![s("/l1")], &vec![true]).is_ok());
    assert!(check_layers("snapshot", &vec![s("/l1")], &vec![false]).is_err());
    let a = branch_layers("/st/a", &vec![s("/l1")]);
    let b = branch_layers("/st/b", &vec![s("/l1")]);
    assert_eq!(a.upperdir, "/st/a/overlay/upper");
    assert_ne!(a.upperdir, b.upperdir);
    assert_eq!(a.lowerdirs, b.lowerdirs);
}

#[test]
fn branches_are_made_whole_or_not_at_all() {
    for kind in [RolloutKind::Restore, RolloutKind::Fork, RolloutKind::ForkCheckpoint] {
        let steps = rollout_steps(kind);
        let made = steps.iter().position(|o| *o == RolloutOp::MakeState).unwrap();
        for op in &steps[made + 1..] {
            assert_eq!(undo(kind, *op), Undo::TearDown);
        }
        assert_eq!(undo(kind, RolloutOp::FindFree), Undo::Nothing);
    }
    assert_eq!(undo(RolloutKind::Snapshot, RolloutOp::CopyLayer), Undo::RemoveStore);
    assert_eq!(cmd_snapshot("s1").unwrap(), rollout_steps(RolloutKind::Snapshot));
    assert_eq!(cmd_reset().last(), Some(&RolloutOp::NoteReset));
    assert!(!fails(RolloutOp::ReadBundle) && fails(RolloutOp::Mount));
    assert!(taken(RolloutKind::Fork, "c").message().contains("c"));
    assert_eq!(next_reset_count(1), 2);
    assert_eq!(next_reset_count(u64::MAX), u64::MAX);
    let noted = note_reset(&write_state("c", 0, "/b", "running", None), 4).unwrap().unwrap();
    let v = parse_json(&noted).unwrap();
    assert_eq!(v.get("status").unwrap().as_str(), Some("stopped"));
    assert_eq!(v.get("rootfsResetCount").unwrap().as_u64(), Some(4));
}

#[test]
fn reports_are_lines_of_json() {
    assert_eq!(
        String::from_utf8(reset_report("c", 2, "/u", "/w", "/m")).unwrap(),
        "{\"backend\":\"overlayfs\",\"id\":\"c\",\"merged\":\"/m\",\"reset\":true,\"resetCount\":2,\
         \"upperdir\":\"/u\",\"workdir\":\"/w\"}\n"
    );
    assert_eq!(
        String::from_utf8(restore_report("c", "s", "/m")).unwrap(),
        "{\"backend\":\"overlayfs\",\"id\":\"c\",\"merged\":\"/m\",\"restored\":true,\"snapshot\":\"s\"}\n"
    );
    assert_eq!(
        String::from_utf8(fork_report("c", "d", "/m")).unwrap(),
        "{\"backend\":\"overlayfs\",\"forked\":true,\"id\":\"c\",\"merged\":\"/m\",\"source\":\"d\"}\n"
    );
    assert!(String::from_utf8(checkpoint_report("k", "c", "/l", &vec![s("/b")], 1, 2))
        .unwrap()
        .contains("\"checkpointed\":true"));
    assert!(String::from_utf8(fork_checkpoint_report("c", "k", "/m", "/u", &vec![s("/b")]))
        .unwrap()
        .contains("\"lowerdirs\":[\"/b\"]"));
}

#[test]
fn archives_are_made_of_blocks() {
    assert_eq!(write_octal(0o644, 8), b"0000644\0");
    assert_eq!(write_octal(0o7777_7777, 8), b"7777777\0");
    let h = write_tar_header("dir/f", 0o644, 5, b'0', "").unwrap();
    assert_eq!(h.len(), 512);
    assert_eq!(&h[0..6], b"dir/f\0");
    assert_eq!(&h[100..108], b"0000644\0");
    assert_eq!(&h[124..136], b"00000000005\0");
    assert_eq!(&h[257..265], b"ustar\x0000");
    let mut blanked = h.clone();
    for b in &mut blanked[148..156] {
        *b = b' ';
    }
    let sum: u64 = blanked.iter().map(|b| *b as u64).sum();
    assert_eq!(&h[148..156], format!("{sum:07o}\0").as_bytes());

    let long = format!("{}/{}", "d".repeat(120), "f".repeat(90));
    let (suffix, prefix) = write_tar_name(&long).unwrap();
    assert_eq!(suffix, "f".repeat(90).into_bytes());
    assert_eq!(prefix, "d".repeat(120).into_bytes());
    let too_long = "x".repeat(256);
    assert_eq!(
        write_tar_name(&too_long).unwrap_err().message(),
        format!("tar path too long for ustar header: {too_long}")
    );
    assert!(write_tar_name(&"x".repeat(101)).is_err());
    assert_eq!(
        write_tar_header("l", 0, 0, b'2', &"y".repeat(101)).unwrap_err().message(),
        "tar header field too long"
    );
    assert_eq!(tar_whiteout_path("a/b/c"), "a/b/.wh.c");
    assert_eq!(tar_whiteout_path("c"), ".wh.c");
    assert_eq!((pad_tar(0), pad_tar(1), pad_tar(512)), (0, 511, 0));
}

#[test]
fn archives_hold_files_links_and_directories() {
    let entry = |path: &str, kind: DiffKind| DiffEntry {
        path: s(path),
        kind,
        file_type: s("file"),
        size: None,
        lower_size: None,
        size_delta: None,
        sensitive: false,
        fingerprint: s(""),
        upper_path: Some(format!("/u/{path}")),
    };
    let source = |kind: FileKind, content: &[u8], link: &str| {
        Some(TarSource {
            kind,
            mode: 0o100755,
            len: content.len() as u64,
            link: s(link),
            content: content.to_vec(),
        })
    };
    let es = vec![
        entry("d", DiffKind::Added),
        entry("d/f", DiffKind::Modified),
        entry("l", DiffKind::Added),
        entry("p", DiffKind::Added),
        entry("o", DiffKind::OpaqueDir),
    ];
    let sources = vec![
        source(FileKind::Directory, b"", ""),
        source(FileKind::File, b"hello", ""),
        source(FileKind::Symlink, b"", "/target"),
        source(FileKind::Fifo, b"", ""),
        None,
    ];
    let t = write_overlay_tar(&es, &sources).unwrap();
    assert_eq!(t.len(), 512 * 5 + 1024);
    assert_eq!(&t[0..3], b"d/\0");
    assert_eq!(t[156], b'5');
    assert_eq!(&t[512..516], b"d/f\0");
    assert_eq!(&t[612..620], b"0000755\0");
    assert_eq!(&t[1024..1029], b"hello");
    assert_eq!(t[1536 + 156], b'2');
    assert_eq!(&t[1536 + 157..1536 + 164], b"/target");
    assert_eq!(&t[2048..2062], b"o/.wh..wh..opq");
    assert!(t[2560..].iter().all(|b| *b == 0));
}

#[test]
fn a_sealed_tree_is_sealed_from_the_inside_out() {
    assert_eq!(
        make_tree_readonly(FileKind::Directory),
        vec![SealOp::Descend, SealOp::TakeWrite]
    );
    assert_eq!(make_tree_readonly(FileKind::File), vec![SealOp::TakeWrite]);
    assert_eq!(make_tree_readonly(FileKind::Fifo), vec![SealOp::TakeWrite]);
    assert!(make_tree_readonly(FileKind::Symlink).is_empty());
}

#[test]
fn a_layer_is_copied_to_a_free_place_only() {
    assert_eq!(
        clone_upperdir("/run/rsrun/a/overlay/upper", false).unwrap(),
        clone_path(FileKind::Directory)
    );
    assert_eq!(
        clone_upperdir("/run/rsrun/a/overlay/upper", true).unwrap_err().message(),
        "destination /run/rsrun/a/overlay/upper already exists"
    );
}
