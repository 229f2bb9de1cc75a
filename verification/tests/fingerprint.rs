use std::collections::{HashMap, HashSet};

use hurry_cargo::fingerprint::{
    rewrite_fingerprint, rewrite_src_path, Fingerprint, FingerprintRewriteInput, QualifiedPath,
    RewriteError, RewritePlan,
};
use hurry_cargo::session::{
    is_missing_dependency_fingerprint, is_missing_unit_file, rewrite_fingerprint_for_save,
};

fn home(path: &str) -> Option<QualifiedPath> {
    Some(QualifiedPath::RelativeCargoHome(path.to_string()))
}

fn fingerprint(hash: u64, deps: &[u64]) -> Fingerprint {
    Fingerprint { hash, deps: deps.to_vec() }
}

fn inputs(list: &[(u64, &[u64])]) -> HashMap<u64, FingerprintRewriteInput> {
    list.iter()
        .map(|(hash, deps)| {
            let input = FingerprintRewriteInput {
                src_path: home(&format!("src/{hash}.rs")),
                fingerprint: fingerprint(*hash, deps),
            };
            (*hash, input)
        })
        .collect()
}

fn steps(plan: &RewritePlan) -> Vec<(u64, Option<String>)> {
    plan.steps.iter().map(|step| (step.hash, step.src_path.clone())).collect()
}

fn below(hash: u64) -> (u64, Option<String>) {
    (hash, Some(format!("/cargo_home/src/{hash}.rs")))
}

#[test]
fn source_paths_are_rooted_at_one_cargo_home() {
    assert_eq!(
        rewrite_src_path(&home("registry/src/serde-1.0.0/src/lib.rs")).unwrap(),
        Some(String::from("/cargo_home/registry/src/serde-1.0.0/src/lib.rs"))
    );
    assert_eq!(rewrite_src_path(&None).unwrap(), None);
}

#[test]
fn source_paths_elsewhere_are_refused() {
    let message = |path: QualifiedPath| rewrite_src_path(&Some(path)).unwrap_err().message();
    assert_eq!(
        message(QualifiedPath::Rootless(String::from("a/b.rs"))),
        "impossible: fingerprint path is not absolute: a/b.rs"
    );
    assert_eq!(
        message(QualifiedPath::RelativeTargetProfile(String::from("build/x/out.rs"))),
        "unexpected fingerprint path root: build/x/out.rs"
    );
    assert_eq!(
        message(QualifiedPath::Absolute(String::from("/w/src/lib.rs"))),
        "unexpected fingerprint path root: /w/src/lib.rs"
    );
    assert_eq!(
        rewrite_src_path(&Some(home("x").unwrap().duplicate())).unwrap(),
        Some(String::from("/cargo_home/x"))
    );
}

#[test]
fn dependencies_are_rewritten_first_and_once() {
    let known = inputs(&[(1, &[]), (2, &[1]), (3, &[1, 2]), (9, &[8])]);
    let plan = rewrite_fingerprint(&None, &known, &HashSet::new(), &fingerprint(4, &[3, 2, 3]));
    assert!(plan.outcome.is_ok());
    assert_eq!(steps(&plan), vec![below(1), below(2), below(3), (4, None)]);
}

#[test]
fn what_was_rewritten_before_is_left_alone() {
    let known = inputs(&[(1, &[]), (2, &[1]), (3, &[1, 2])]);
    let done: HashSet<u64> = [2, 7].into_iter().collect();
    let plan = rewrite_fingerprint(&home("x"), &known, &done, &fingerprint(4, &[7, 3]));
    assert!(plan.outcome.is_ok());
    assert_eq!(
        steps(&plan),
        vec![below(1), below(3), (4, Some(String::from("/cargo_home/x")))]
    );
    let plan = rewrite_fingerprint(&home("x"), &known, &done, &fingerprint(7, &[99]));
    assert!(plan.outcome.is_ok());
    assert!(plan.steps.is_empty());
}

#[test]
fn cycles_are_reported() {
    let known = inputs(&[(1, &[2]), (2, &[3, 1]), (3, &[])]);
    let plan = rewrite_fingerprint(&None, &known, &HashSet::new(), &fingerprint(1, &[2]));
    assert_eq!(steps(&plan), vec![below(3)]);
    let error = plan.outcome.unwrap_err();
    assert!(matches!(error, RewriteError::Cycle));
    assert_eq!(error.message(), "cycle in fingerprint dependencies");
}

#[test]
fn missing_dependencies_are_reported() {
    let known = inputs(&[(1, &[]), (2, &[1, 5])]);
    let plan = rewrite_fingerprint(&None, &known, &HashSet::new(), &fingerprint(3, &[2]));
    assert_eq!(steps(&plan), vec![below(1)]);
    let error = plan.outcome.unwrap_err();
    assert!(matches!(error, RewriteError::DependencyNotFound));
    assert_eq!(error.message(), "dependency fingerprint hash not found");
}

#[test]
fn paths_of_dependencies_are_reported_after_what_they_depend_on() {
    let mut known = inputs(&[(1, &[]), (2, &[1])]);
    known.get_mut(&2).unwrap().src_path = Some(QualifiedPath::Absolute(String::from("/w/x.rs")));
    let plan = rewrite_fingerprint(&None, &known, &HashSet::new(), &fingerprint(3, &[2]));
    assert_eq!(steps(&plan), vec![below(1)]);
    assert!(matches!(
        plan.outcome,
        Err(RewriteError::UnexpectedPathRoot(path)) if path == "/w/x.rs"
    ));
}

#[test]
fn missing_dependencies_are_forgiven_but_cycles_are_not() {
    assert_eq!(rewrite_fingerprint_for_save(Ok(())).unwrap(), true);
    assert_eq!(
        rewrite_fingerprint_for_save(Err(RewriteError::DependencyNotFound)).unwrap(),
        false
    );
    assert!(matches!(
        rewrite_fingerprint_for_save(Err(RewriteError::Cycle)),
        Err(RewriteError::Cycle)
    ));
    assert!(matches!(
        rewrite_fingerprint_for_save(Err(RewriteError::PathNotAbsolute(String::from("x")))),
        Err(RewriteError::PathNotAbsolute(path)) if path == "x"
    ));
}

#[test]
fn reports_tell_what_is_missing() {
    assert!(is_missing_dependency_fingerprint(
        "rewriting\n\nCaused by:\n  0: dependency fingerprint hash not found\n"
    ));
    assert!(!is_missing_dependency_fingerprint("dependency fingerprint hash"));
    assert!(is_missing_unit_file("read: No such file or directory (os error 2)"));
    assert!(!is_missing_unit_file("Permission denied (os error 13)"));
}

#[test]
fn plans_for_the_same_places_are_the_same() {
    let plan = |known: &HashMap<u64, FingerprintRewriteInput>| {
        rewrite_fingerprint(&home("x.rs"), known, &HashSet::new(), &fingerprint(3, &[2]))
    };
    let one = plan(&inputs(&[(1, &[]), (2, &[1])]));
    let other = plan(&inputs(&[(2, &[1]), (1, &[])]));
    assert!(one.outcome.is_ok() && other.outcome.is_ok());
    assert_eq!(steps(&one), steps(&other));
    assert_eq!(
        steps(&one),
        vec![below(1), below(2), (3, Some(String::from("/cargo_home/x.rs")))]
    );
}
