use hurry_cargo::fingerprint::{Fingerprint, QualifiedPath, RewriteError};
use hurry_cargo::save::{
    counters_take, prepare_unit, Blob, Key, OutputFile, Restored, SaveProgress, SaveUnitRequest,
    SavedFile, SavedUnit, UnitFiles, UnitKind,
};
use hurry_cargo::session::{
    has_fingerprint_files, save_units, SaveAction, SaveEvent, SaveSession, UnitPlan,
};
use hurry_cargo::target::{RustcTarget, RustcTargetPlatform};

const HOST: &str = "x86_64-unknown-linux-gnu";

fn platform(triple: &str) -> RustcTargetPlatform {
    RustcTargetPlatform::Supported(triple.to_string())
}

fn plan(kind: UnitKind, hash: &str, uses_glibc: bool) -> UnitPlan {
    UnitPlan {
        kind,
        unit_hash: hash.to_string(),
        target_arch: RustcTarget::ImplicitHost,
        uses_glibc,
        src_path: Some(QualifiedPath::RelativeCargoHome(format!("{hash}.rs"))),
    }
}

fn restored(units: &[&str], files: &[&str]) -> Restored {
    Restored {
        units: units.iter().map(|unit| unit.to_string()).collect(),
        files: files.iter().map(|file| Key(file.to_string())).collect(),
    }
}

fn session(units: Vec<UnitPlan>, restored: Restored) -> SaveSession {
    SaveSession::new(units, restored, platform(HOST))
}

fn step(session: SaveSession, event: SaveEvent) -> (SaveSession, SaveAction) {
    assert!(session.has_room_for(&event));
    save_units(session, event)
}

fn fingerprint(hash: u64, deps: &[u64]) -> Fingerprint {
    Fingerprint { hash, deps: deps.to_vec() }
}

fn blob(key: &str, contents: &[u8]) -> Blob {
    Blob {
        key: Key(key.to_string()),
        contents: contents.to_vec(),
    }
}

fn output(key: &str, contents: &[u8], executable: bool) -> OutputFile {
    OutputFile {
        blob: blob(key, contents),
        executable,
        path: format!("\"{key}.path\""),
    }
}

fn library_files() -> UnitFiles {
    UnitFiles::LibraryCrate {
        output_files: vec![output("rlib", b"12345", false), output("so", b"1", true)],
        dep_info_file: blob("d", b"22"),
        encoded_dep_info_file: blob("e", b"333"),
    }
}

fn progress(uploaded_units: u64, total_units: u64, uploaded_files: u64, uploaded_bytes: u64) -> SaveProgress {
    SaveProgress {
        uploaded_units,
        total_units,
        uploaded_files,
        uploaded_bytes,
    }
}

fn keys(blobs: &[Blob]) -> Vec<String> {
    blobs.iter().map(|blob| blob.key.0.clone()).collect()
}

fn reported(action: SaveAction) -> SaveProgress {
    match action {
        SaveAction::Report(progress) => progress,
        other => panic!("no report but {other:?}"),
    }
}

fn rewritten(action: SaveAction) -> Vec<u64> {
    match action {
        SaveAction::Rewrite(steps) => steps.iter().map(|step| step.hash).collect(),
        other => panic!("nothing to rewrite but {other:?}"),
    }
}

fn submitted(action: SaveAction) -> Vec<SaveUnitRequest> {
    match action {
        SaveAction::Submit(requests) => requests,
        other => panic!("nothing to submit but {other:?}"),
    }
}

/// Leads a session to the first unit: all units have their fingerprint files.
fn scan(session: SaveSession, fingerprints: Vec<Fingerprint>) -> (SaveSession, SaveAction) {
    let (mut session, mut action) = step(session, SaveEvent::Begin);
    for (index, fingerprint) in fingerprints.into_iter().enumerate() {
        assert!(matches!(action, SaveAction::CheckFingerprintFiles { unit } if unit == index));
        let (after, read) = step(session, SaveEvent::FingerprintFiles { json: true, hash: true });
        assert!(matches!(read, SaveAction::ReadFingerprint { unit } if unit == index));
        (session, action) = step(after, SaveEvent::FingerprintRead(fingerprint));
    }
    (session, action)
}

fn saved_files(files: &[SavedFile]) -> Vec<(String, bool, String)> {
    files
        .iter()
        .map(|file| (file.object_key.0.clone(), file.executable, file.path.clone()))
        .collect()
}

#[test]
fn both_fingerprint_files_are_needed() {
    assert!(has_fingerprint_files(true, true));
    assert!(!has_fingerprint_files(true, false));
    assert!(!has_fingerprint_files(false, true));
    assert!(!has_fingerprint_files(false, false));
}

#[test]
fn restored_units_and_files_are_found() {
    let restored = restored(&["a", "b"], &["k"]);
    assert!(restored.contains_unit("b"));
    assert!(!restored.contains_unit("k"));
    assert!(restored.contains_file(&Key(String::from("k"))));
    assert!(!restored.contains_file(&Key(String::from("a")).duplicate()));
}

#[test]
fn library_objects_are_stored_in_order() {
    let mut counters = progress(1, 5, 10, 100);
    let (saved, uploads) = prepare_unit(
        &mut counters,
        &restored(&[], &["so", "d"]),
        library_files(),
        String::from("fp"),
    );
    assert_eq!(keys(&uploads), vec!["rlib", "e"]);
    assert_eq!(uploads[0].contents, b"12345");
    assert_eq!(counters, progress(1, 5, 12, 108));
    match saved {
        SavedUnit::LibraryCrate {
            output_files,
            dep_info_file,
            encoded_dep_info_file,
            fingerprint,
        } => {
            assert_eq!(
                saved_files(&output_files),
                vec![
                    (String::from("rlib"), false, String::from("\"rlib.path\"")),
                    (String::from("so"), true, String::from("\"so.path\"")),
                ]
            );
            assert_eq!(dep_info_file.0, "d");
            assert_eq!(encoded_dep_info_file.0, "e");
            assert_eq!(fingerprint, "fp");
        }
        other => panic!("no library but {other:?}"),
    }
}

#[test]
fn build_script_objects_are_stored_in_order() {
    let mut counters = progress(0, 1, 0, 0);
    let files = UnitFiles::BuildScriptCompilation {
        compiled_program: blob("p", b"4444"),
        dep_info_file: blob("d", b"22"),
        encoded_dep_info_file: blob("e", b"333"),
    };
    let (saved, uploads) = prepare_unit(&mut counters, &restored(&[], &[]), files, String::from("fp"));
    assert_eq!(keys(&uploads), vec!["p", "d", "e"]);
    assert_eq!(counters, progress(0, 1, 3, 9));
    assert!(matches!(
        saved,
        SavedUnit::BuildScriptCompilation { compiled_program, dep_info_file, encoded_dep_info_file, fingerprint }
            if compiled_program.0 == "p" && dep_info_file.0 == "d"
                && encoded_dep_info_file.0 == "e" && fingerprint == "fp"
    ));
}

#[test]
fn build_script_outputs_are_stored_in_order() {
    let mut counters = progress(0, 1, 0, 0);
    let files = UnitFiles::BuildScriptExecution {
        out_dir_files: vec![output("o", b"1", false)],
        stdout: blob("out", b"22"),
        stderr: blob("err", b""),
    };
    let (saved, uploads) = prepare_unit(&mut counters, &restored(&[], &["out"]), files, String::from("fp"));
    assert_eq!(keys(&uploads), vec!["o", "err"]);
    assert_eq!(counters, progress(0, 1, 2, 1));
    match saved {
        SavedUnit::BuildScriptExecution {
            out_dir_files,
            stdout,
            stderr,
            fingerprint,
        } => {
            assert_eq!(
                saved_files(&out_dir_files),
                vec![(String::from("o"), false, String::from("\"o.path\""))]
            );
            assert_eq!(stdout.0, "out");
            assert_eq!(stderr.0, "err");
            assert_eq!(fingerprint, "fp");
        }
        other => panic!("no build script but {other:?}"),
    }
}

#[test]
fn one_object_twice_is_stored_twice() {
    let mut counters = progress(0, 1, 0, 0);
    let files = UnitFiles::BuildScriptExecution {
        out_dir_files: vec![output("o", b"1", false), output("o", b"1", false)],
        stdout: blob("o", b"1"),
        stderr: blob("o", b"1"),
    };
    let (_, uploads) = prepare_unit(&mut counters, &restored(&[], &[]), files, String::new());
    assert_eq!(keys(&uploads), vec!["o", "o", "o", "o"]);
    assert_eq!(counters, progress(0, 1, 4, 4));
}

#[test]
fn full_counters_take_nothing_more() {
    let nothing = restored(&[], &[]);
    assert!(counters_take(&progress(0, 1, 0, 0), &nothing, &library_files()));
    assert!(counters_take(&progress(0, 1, u64::MAX - 4, u64::MAX - 11), &nothing, &library_files()));
    assert!(!counters_take(&progress(0, 1, u64::MAX - 3, 0), &nothing, &library_files()));
    assert!(!counters_take(&progress(0, 1, 0, u64::MAX - 10), &nothing, &library_files()));
    let all = restored(&[], &["rlib", "so", "d", "e"]);
    assert!(counters_take(&progress(0, 1, u64::MAX, u64::MAX), &all, &library_files()));
}

#[test]
fn no_units_are_submitted_at_once() {
    let (session, action) = step(session(vec![], restored(&[], &[])), SaveEvent::Begin);
    assert!(submitted(action).is_empty());
    let (session, action) = step(session, SaveEvent::Submitted);
    assert!(matches!(action, SaveAction::Finish));
    let (_, action) = step(session, SaveEvent::Begin);
    assert!(matches!(action, SaveAction::Ignore));
}

#[test]
fn units_without_fingerprint_files_do_not_count() {
    let units = vec![
        plan(UnitKind::LibraryCrate, "a", false),
        plan(UnitKind::LibraryCrate, "b", false),
    ];
    let (session, action) = step(session(units, restored(&["b"], &[])), SaveEvent::Begin);
    assert!(matches!(action, SaveAction::CheckFingerprintFiles { unit: 0 }));
    let (session, action) = step(session, SaveEvent::FingerprintFiles { json: true, hash: false });
    assert!(matches!(action, SaveAction::CheckFingerprintFiles { unit: 1 }));
    let (session, action) = step(session, SaveEvent::FingerprintFiles { json: true, hash: true });
    assert!(matches!(action, SaveAction::ReadFingerprint { unit: 1 }));
    let (_, action) = step(session, SaveEvent::FingerprintRead(fingerprint(2, &[])));
    assert_eq!(reported(action), progress(0, 0, 0, 0));
}

#[test]
fn complete_units_are_requested() {
    let units = vec![plan(UnitKind::LibraryCrate, "a", true)];
    let (session, action) = scan(session(units, restored(&[], &["so"])), vec![fingerprint(1, &[])]);
    assert!(matches!(action, SaveAction::AskHostGlibc));
    let (session, action) = step(session, SaveEvent::HostGlibc(Some(String::from("2.39"))));
    assert!(matches!(action, SaveAction::ReadUnitFiles { unit: 0 }));
    let (session, action) = step(session, SaveEvent::UnitFilesRead(fingerprint(1, &[])));
    match &action {
        SaveAction::Rewrite(steps) => {
            assert_eq!(steps[0].src_path, Some(String::from("/cargo_home/a.rs")));
        }
        other => panic!("nothing to rewrite but {other:?}"),
    }
    assert_eq!(rewritten(action), vec![1]);
    let (session, action) = step(session, SaveEvent::Rewritten);
    assert!(matches!(action, SaveAction::RenderFingerprint { hash: 1 }));
    let (session, action) = step(session, SaveEvent::FingerprintText(String::from("{}")));
    assert!(matches!(action, SaveAction::PrepareFiles { unit: 0 }));
    let (session, action) = step(session, SaveEvent::FilesPrepared(library_files()));
    match action {
        SaveAction::Store(blobs) => assert_eq!(keys(&blobs), vec!["rlib", "d", "e"]),
        other => panic!("nothing to store but {other:?}"),
    }
    let (session, action) = step(session, SaveEvent::Stored);
    assert!(matches!(action, SaveAction::EncodeUnit { unit: 0 }));
    let (session, action) = step(session, SaveEvent::Encoded);
    assert_eq!(reported(action), progress(1, 1, 3, 10));
    let (session, action) = step(session, SaveEvent::Reported);
    let requests = submitted(action);
    assert_eq!(requests.len(), 1);
    assert_eq!(requests[0].unit, 0);
    assert_eq!(requests[0].resolved_target, HOST);
    assert_eq!(requests[0].linux_glibc_version, Some(String::from("2.39")));
    assert!(matches!(&requests[0].saved, SavedUnit::LibraryCrate { fingerprint, .. } if fingerprint == "{}"));
    let (_, action) = step(session, SaveEvent::Submitted);
    assert!(matches!(action, SaveAction::Finish));
}

#[test]
fn nothing_is_stored_where_all_came_from_the_cache() {
    let units = vec![plan(UnitKind::BuildScriptExecution, "a", false)];
    let (session, action) = scan(
        session(units, restored(&[], &["o", "out", "err"])),
        vec![fingerprint(1, &[])],
    );
    assert!(matches!(action, SaveAction::ReadUnitFiles { unit: 0 }));
    let (session, action) = step(session, SaveEvent::UnitFilesRead(fingerprint(1, &[])));
    match action {
        SaveAction::Rewrite(steps) => assert_eq!(steps[0].src_path, None),
        other => panic!("nothing to rewrite but {other:?}"),
    }
    let (session, _) = step(session, SaveEvent::Rewritten);
    let (session, _) = step(session, SaveEvent::FingerprintText(String::from("{}")));
    let wrong = step(session, SaveEvent::FilesPrepared(library_files()));
    assert!(matches!(wrong.1, SaveAction::Ignore));
    let files = UnitFiles::BuildScriptExecution {
        out_dir_files: vec![output("o", b"1", false)],
        stdout: blob("out", b"22"),
        stderr: blob("err", b""),
    };
    let (session, action) = step(wrong.0, SaveEvent::FilesPrepared(files));
    assert!(matches!(action, SaveAction::EncodeUnit { unit: 0 }));
    let (session, action) = step(session, SaveEvent::Encoded);
    assert_eq!(reported(action), progress(1, 1, 0, 0));
    let (_, action) = step(session, SaveEvent::Reported);
    let requests = submitted(action);
    assert_eq!(requests[0].linux_glibc_version, None);
}

#[test]
fn restored_units_are_rewritten_but_not_saved() {
    let units = vec![
        plan(UnitKind::LibraryCrate, "a", false),
        plan(UnitKind::BuildScriptCompilation, "b", false),
    ];
    let (session, action) = scan(
        session(units, restored(&["a"], &[])),
        vec![fingerprint(1, &[]), fingerprint(2, &[1])],
    );
    assert_eq!(reported(action), progress(0, 1, 0, 0));
    let (session, action) = step(session, SaveEvent::Reported);
    assert!(matches!(action, SaveAction::ReadFingerprint { unit: 0 }));
    let (session, action) = step(session, SaveEvent::FingerprintRead(fingerprint(1, &[])));
    assert_eq!(rewritten(action), vec![1]);
    let (session, action) = step(session, SaveEvent::Rewritten);
    assert!(matches!(action, SaveAction::RenderFingerprint { hash: 1 }));
    let (session, action) = step(session, SaveEvent::FingerprintText(String::from("{}")));
    assert!(matches!(action, SaveAction::ReadUnitFiles { unit: 1 }));
    let (session, action) = step(session, SaveEvent::UnitFilesRead(fingerprint(2, &[1])));
    assert_eq!(rewritten(action), vec![2]);
    let (session, _) = step(session, SaveEvent::Rewritten);
    let (session, _) = step(session, SaveEvent::FingerprintText(String::from("{}")));
    let files = UnitFiles::BuildScriptCompilation {
        compiled_program: blob("p", b"4444"),
        dep_info_file: blob("d", b"22"),
        encoded_dep_info_file: blob("e", b"333"),
    };
    let (session, action) = step(session, SaveEvent::FilesPrepared(files));
    assert!(matches!(action, SaveAction::Store(_)));
    let (session, _) = step(session, SaveEvent::Stored);
    let (session, action) = step(session, SaveEvent::Encoded);
    assert_eq!(reported(action), progress(1, 1, 3, 9));
    let (_, action) = step(session, SaveEvent::Reported);
    let requests = submitted(action);
    assert_eq!(requests.len(), 1);
    assert_eq!(requests[0].unit, 1);
}

#[test]
fn restored_units_serve_units_before_them() {
    let units = vec![
        plan(UnitKind::LibraryCrate, "b", false),
        plan(UnitKind::LibraryCrate, "a", false),
    ];
    let (session, action) = scan(
        session(units, restored(&["a"], &[])),
        vec![fingerprint(2, &[1]), fingerprint(1, &[])],
    );
    assert!(matches!(action, SaveAction::ReadUnitFiles { unit: 0 }));
    let (session, action) = step(session, SaveEvent::UnitFilesRead(fingerprint(2, &[1])));
    match &action {
        SaveAction::Rewrite(steps) => {
            assert_eq!(steps[0].src_path, Some(String::from("/cargo_home/a.rs")));
            assert_eq!(steps[1].src_path, Some(String::from("/cargo_home/b.rs")));
        }
        other => panic!("nothing to rewrite but {other:?}"),
    }
    assert_eq!(rewritten(action), vec![1, 2]);
    let (session, action) = step(session, SaveEvent::Rewritten);
    assert!(matches!(action, SaveAction::RenderFingerprint { hash: 2 }));
    let (session, _) = step(session, SaveEvent::FingerprintText(String::from("{}")));
    let (session, _) = step(session, SaveEvent::FilesPrepared(library_files()));
    let (session, _) = step(session, SaveEvent::Stored);
    let (session, action) = step(session, SaveEvent::Encoded);
    assert_eq!(reported(action), progress(1, 2, 4, 11));
    let (session, action) = step(session, SaveEvent::Reported);
    assert_eq!(reported(action), progress(1, 1, 4, 11));
    let (session, _) = step(session, SaveEvent::Reported);
    let (session, action) = step(session, SaveEvent::FingerprintRead(fingerprint(1, &[])));
    assert!(rewritten(action).is_empty());
    let (session, action) = step(session, SaveEvent::Rewritten);
    assert!(matches!(action, SaveAction::RenderFingerprint { hash: 1 }));
    let (session, action) = step(session, SaveEvent::FingerprintText(String::from("other")));
    let requests = submitted(action);
    assert_eq!(requests.len(), 1);
    assert_eq!(requests[0].unit, 0);
    assert!(matches!(&requests[0].saved, SavedUnit::LibraryCrate { fingerprint, .. } if fingerprint == "{}"));
    let (_, action) = step(session, SaveEvent::Submitted);
    assert!(matches!(action, SaveAction::Finish));
}

#[test]
fn cross_compiled_units_with_glibc_are_skipped() {
    let mut unit = plan(UnitKind::LibraryCrate, "a", true);
    unit.target_arch = RustcTarget::Specified(platform("aarch64-unknown-linux-gnu"));
    let (session, action) = scan(session(vec![unit], restored(&[], &[])), vec![fingerprint(1, &[])]);
    assert_eq!(reported(action), progress(0, 0, 0, 0));
    let (_, action) = step(session, SaveEvent::Reported);
    assert!(submitted(action).is_empty());
}

#[test]
fn cross_compiled_units_without_glibc_are_saved() {
    let mut unit = plan(UnitKind::LibraryCrate, "a", false);
    unit.target_arch = RustcTarget::Specified(platform("aarch64-apple-darwin"));
    let (session, action) = scan(session(vec![unit], restored(&[], &[])), vec![fingerprint(1, &[])]);
    assert!(matches!(action, SaveAction::ReadUnitFiles { unit: 0 }));
    let (session, _) = step(session, SaveEvent::UnitFilesRead(fingerprint(1, &[])));
    let (session, _) = step(session, SaveEvent::Rewritten);
    let (session, _) = step(session, SaveEvent::FingerprintText(String::new()));
    let (session, _) = step(session, SaveEvent::FilesPrepared(library_files()));
    let (session, _) = step(session, SaveEvent::Stored);
    let (session, _) = step(session, SaveEvent::Encoded);
    let (_, action) = step(session, SaveEvent::Reported);
    let requests = submitted(action);
    assert_eq!(requests[0].resolved_target, "aarch64-apple-darwin");
    assert_eq!(requests[0].linux_glibc_version, None);
}

#[test]
fn units_with_missing_files_are_skipped() {
    let units = vec![plan(UnitKind::LibraryCrate, "a", false)];
    let (session, _) = scan(session(units, restored(&[], &[])), vec![fingerprint(1, &[])]);
    let report = String::from("read rlib: No such file or directory (os error 2)");
    let (session, action) = step(session, SaveEvent::UnitFilesFailed(report));
    assert_eq!(reported(action), progress(0, 0, 0, 0));
    let (_, action) = step(session, SaveEvent::Reported);
    assert!(submitted(action).is_empty());
}

#[test]
fn unreadable_files_fail_the_whole() {
    let units = vec![plan(UnitKind::LibraryCrate, "a", false)];
    let (session, _) = scan(session(units, restored(&[], &[])), vec![fingerprint(1, &[])]);
    let report = String::from("Permission denied (os error 13)");
    let (session, action) = step(session, SaveEvent::UnitFilesFailed(report));
    assert!(matches!(action, SaveAction::Abort));
    let (_, action) = step(session, SaveEvent::Reported);
    assert!(matches!(action, SaveAction::Ignore));
}

#[test]
fn units_with_missing_dependencies_are_skipped() {
    let units = vec![plan(UnitKind::LibraryCrate, "a", false)];
    let (session, _) = scan(session(units, restored(&[], &[])), vec![fingerprint(1, &[5])]);
    let (session, action) = step(session, SaveEvent::UnitFilesRead(fingerprint(1, &[5])));
    assert!(rewritten(action).is_empty());
    let (session, action) = step(session, SaveEvent::Rewritten);
    assert_eq!(reported(action), progress(0, 0, 0, 0));
    let (_, action) = step(session, SaveEvent::Reported);
    assert!(submitted(action).is_empty());
}

#[test]
fn restored_units_with_missing_dependencies_are_passed_over() {
    let units = vec![plan(UnitKind::LibraryCrate, "a", false)];
    let (session, action) = scan(session(units, restored(&["a"], &[])), vec![fingerprint(1, &[5])]);
    assert_eq!(reported(action), progress(0, 0, 0, 0));
    let (session, _) = step(session, SaveEvent::Reported);
    let (session, action) = step(session, SaveEvent::FingerprintRead(fingerprint(1, &[5])));
    assert!(rewritten(action).is_empty());
    let (_, action) = step(session, SaveEvent::Rewritten);
    assert!(submitted(action).is_empty());
}

#[test]
fn cycles_fail_the_whole() {
    let units = vec![plan(UnitKind::LibraryCrate, "a", false)];
    let (session, _) = scan(session(units, restored(&[], &[])), vec![fingerprint(1, &[1])]);
    let (session, _) = step(session, SaveEvent::UnitFilesRead(fingerprint(1, &[1])));
    let (session, action) = step(session, SaveEvent::Rewritten);
    assert!(matches!(action, SaveAction::Fail(RewriteError::Cycle)));
    let (_, action) = step(session, SaveEvent::Begin);
    assert!(matches!(action, SaveAction::Ignore));
}

#[test]
fn failed_rewriting_keeps_what_was_rewritten() {
    let units = vec![
        plan(UnitKind::LibraryCrate, "a", false),
        plan(UnitKind::LibraryCrate, "b", false),
        plan(UnitKind::LibraryCrate, "c", false),
    ];
    let (session, _) = scan(
        session(units, restored(&[], &[])),
        vec![fingerprint(1, &[2]), fingerprint(2, &[]), fingerprint(3, &[1, 2])],
    );
    let (session, action) = step(session, SaveEvent::UnitFilesRead(fingerprint(1, &[2])));
    assert_eq!(rewritten(action), vec![2, 1]);
    let report = String::from("dependency fingerprint hash not found");
    let (session, action) = step(session, SaveEvent::RewriteFailed { done: 1, report });
    assert_eq!(reported(action), progress(0, 2, 0, 0));
    let (session, _) = step(session, SaveEvent::Reported);
    let (session, action) = step(session, SaveEvent::UnitFilesRead(fingerprint(2, &[])));
    assert!(rewritten(action).is_empty());
    let (session, action) = step(session, SaveEvent::Rewritten);
    assert!(matches!(action, SaveAction::RenderFingerprint { hash: 2 }));
    let report = String::from("broken");
    let (session, action) = step(session, SaveEvent::RewriteFailed { done: 0, report });
    assert!(matches!(action, SaveAction::Ignore));
    let (session, _) = step(session, SaveEvent::FingerprintText(String::new()));
    let (session, _) = step(session, SaveEvent::FilesPrepared(library_files()));
    let (session, _) = step(session, SaveEvent::Stored);
    let (session, action) = step(session, SaveEvent::Encoded);
    assert_eq!(reported(action), progress(1, 2, 4, 11));
    let (session, _) = step(session, SaveEvent::Reported);
    let (session, action) = step(session, SaveEvent::UnitFilesRead(fingerprint(3, &[1, 2])));
    assert_eq!(rewritten(action), vec![1, 3]);
    let report = String::from("fingerprint cannot be rewritten");
    let (_, action) = step(session, SaveEvent::RewriteFailed { done: 0, report });
    assert!(matches!(action, SaveAction::Abort));
}

#[test]
fn answers_to_other_questions_are_ignored() {
    let units = vec![plan(UnitKind::LibraryCrate, "a", false)];
    let (session, action) = step(session(units, restored(&[], &[])), SaveEvent::Reported);
    assert!(matches!(action, SaveAction::Ignore));
    let (_, action) = step(session, SaveEvent::Begin);
    assert!(matches!(action, SaveAction::CheckFingerprintFiles { unit: 0 }));
}

/// What came of a course.
struct Course {
    reports: Vec<SaveProgress>,
    stored: Vec<Blob>,
    submissions: Vec<Vec<SaveUnitRequest>>,
}

/// Leads a session to its end: unit `i` has the fingerprint `i + 1`, which depends on
/// nothing, and `files` gives the files of each unit, if it has any.
fn run(mut session: SaveSession, files: Vec<Option<UnitFiles>>) -> Course {
    let mut files = files;
    let mut course = Course {
        reports: vec![],
        stored: vec![],
        submissions: vec![],
    };
    let mut event = SaveEvent::Begin;
    loop {
        let (next, action) = step(session, event);
        session = next;
        event = match action {
            SaveAction::CheckFingerprintFiles { unit } => SaveEvent::FingerprintFiles {
                json: true,
                hash: unit != 1,
            },
            SaveAction::ReadFingerprint { unit } => {
                SaveEvent::FingerprintRead(fingerprint(unit as u64 + 1, &[]))
            }
            SaveAction::Report(progress) => {
                course.reports.push(progress);
                SaveEvent::Reported
            }
            SaveAction::AskHostGlibc => SaveEvent::HostGlibc(None),
            SaveAction::ReadUnitFiles { unit } => match &files[unit] {
                Some(_) => SaveEvent::UnitFilesRead(fingerprint(unit as u64 + 1, &[])),
                None => SaveEvent::UnitFilesFailed(String::from("No such file or directory")),
            },
            SaveAction::Rewrite(_) => SaveEvent::Rewritten,
            SaveAction::RenderFingerprint { .. } => SaveEvent::FingerprintText(String::new()),
            SaveAction::PrepareFiles { unit } => {
                SaveEvent::FilesPrepared(files[unit].take().expect("the files of the unit"))
            }
            SaveAction::Store(blobs) => {
                course.stored.extend(blobs);
                SaveEvent::Stored
            }
            SaveAction::EncodeUnit { .. } => SaveEvent::Encoded,
            SaveAction::Submit(requests) => {
                course.submissions.push(requests);
                SaveEvent::Submitted
            }
            SaveAction::Finish => return course,
            other => panic!("unexpected {other:?}"),
        };
    }
}

fn named(request: &SaveUnitRequest) -> Vec<String> {
    match &request.saved {
        SavedUnit::LibraryCrate {
            output_files,
            dep_info_file,
            encoded_dep_info_file,
            ..
        } => {
            let mut keys: Vec<String> =
                output_files.iter().map(|file| file.object_key.0.clone()).collect();
            keys.push(dep_info_file.0.clone());
            keys.push(encoded_dep_info_file.0.clone());
            keys
        }
        other => panic!("no library but {other:?}"),
    }
}

#[test]
fn reports_and_stored_objects_account_for_the_units() {
    let hashes = ["saved", "incomplete", "restored", "missing", "saved too"];
    let units = hashes.iter().map(|hash| plan(UnitKind::LibraryCrate, hash, false)).collect();
    let other = UnitFiles::LibraryCrate {
        output_files: vec![output("x", b"7777777", false)],
        dep_info_file: blob("d", b"22"),
        encoded_dep_info_file: blob("y", b""),
    };
    let course = run(
        session(units, restored(&["restored"], &["so", "d"])),
        vec![Some(library_files()), None, None, None, Some(other)],
    );
    assert_eq!(
        course.reports,
        vec![
            progress(1, 4, 2, 8),
            progress(1, 3, 2, 8),
            progress(1, 2, 2, 8),
            progress(2, 2, 4, 15),
        ]
    );
    for (k, report) in course.reports.iter().enumerate() {
        assert_eq!(report.total_units - report.uploaded_units, 4 - (k as u64 + 1));
    }
    assert_eq!(keys(&course.stored), vec!["rlib", "e", "x", "y"]);
    let bytes: usize = course.stored.iter().map(|blob| blob.contents.len()).sum();
    assert_eq!(bytes, 15);
    assert_eq!(course.submissions.len(), 1);
    let requests = &course.submissions[0];
    assert_eq!(requests.iter().map(|request| request.unit).collect::<Vec<usize>>(), vec![0, 4]);
    let new: Vec<String> = requests
        .iter()
        .flat_map(named)
        .filter(|key| key != "so" && key != "d")
        .collect();
    assert_eq!(new, keys(&course.stored));
}
