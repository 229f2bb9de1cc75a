use std::hash::{Hash, Hasher};

use hurry_cargo::hasher::UnitHasher;
use hurry_cargo::target::{CargoCompileMode, TargetKind};
use hurry_cargo::unit_graph::{
    Target, UnitGraphDependency, UnitGraphError, UnitGraphProfile, UnitGraphProfilePanicStrategy,
    UnitGraphUnit,
};
use hurry_cargo::unit_hash::{
    compile_kind_fingerprint_hash, compute, compute_all, hash_package_id, hash_rustc_version,
    hash_source_id, Metadata, METADATA_VERSION,
};
use hurry_cargo::unit_walk::does_walk_end;
use rustc_stable_hash::StableSipHasher128;

const VERSION: &str = "rustc 1.80.0 (051478957 2024-07-21)\nbinary: rustc\nhost: x86_64-unknown-linux-gnu\r\nrelease: 1.80.0\n";

const REGISTRY: &str = "registry+https://github.com/rust-lang/crates.io-index#serde@1.0.219";

fn unit(pkg_id: &str, dependencies: &[usize]) -> UnitGraphUnit {
    UnitGraphUnit {
        pkg_id: pkg_id.to_string(),
        target: Target {
            name: String::from("serde"),
            kind: vec![TargetKind::Lib],
            src_path: String::from("/src/lib.rs"),
        },
        profile: UnitGraphProfile {
            name: String::from("release"),
            opt_level: String::from("3"),
            lto: String::from("thin"),
            codegen_backend: Some(String::from("llvm")),
            codegen_units: None,
            debuginfo: None,
            split_debuginfo: None,
            debug_assertions: false,
            overflow_checks: false,
            rpath: false,
            incremental: false,
            panic: UnitGraphProfilePanicStrategy::Unwind,
            strip: None,
        },
        platform: None,
        mode: CargoCompileMode::Build,
        features: vec![String::from("std")],
        is_std: false,
        dependencies: dependencies
            .iter()
            .map(|index| UnitGraphDependency {
                index: *index,
                extern_crate_name: String::from("dep"),
                public: false,
                noprelude: false,
            })
            .collect(),
    }
}

/// What all hashes of the unit above with the package id [`REGISTRY`] begin with.
fn shared(host_lines: &[&str], platform: Option<&str>) -> StableSipHasher128 {
    let mut state = StableSipHasher128::new();
    2u8.hash(&mut state);
    "serde".hash(&mut state);
    "1.0.219".hash(&mut state);
    "registry".hash(&mut state);
    "https://github.com/rust-lang/crates.io-index".hash(&mut state);
    vec![String::from("std")].hash(&mut state);
    String::from("release").hash(&mut state);
    String::from("3").hash(&mut state);
    String::from("thin").hash(&mut state);
    Some(String::from("llvm")).hash(&mut state);
    None::<u64>.hash(&mut state);
    None::<u64>.hash(&mut state);
    None::<String>.hash(&mut state);
    false.hash(&mut state);
    false.hash(&mut state);
    false.hash(&mut state);
    false.hash(&mut state);
    0isize.hash(&mut state);
    None::<serde_json::Value>.hash(&mut state);
    1isize.hash(&mut state);
    String::from("thin").hash(&mut state);
    let kind: u64 = match platform {
        None => 0,
        Some(platform) => {
            let mut inner = StableSipHasher128::new();
            platform.hash(&mut inner);
            Hasher::finish(&inner)
        }
    };
    kind.hash(&mut state);
    String::from("serde").hash(&mut state);
    vec![cargo_metadata::TargetKind::Lib].hash(&mut state);
    for line in host_lines {
        line.hash(&mut state);
    }
    false.hash(&mut state);
    state
}

fn expected(mut state: StableSipHasher128, ids: Vec<u64>, crates: Vec<u64>) -> Metadata {
    let mut other = state.clone();
    crates.hash(&mut other);
    ids.hash(&mut state);
    Vec::<String>::new().hash(&mut state);
    Metadata {
        unit_id: Hasher::finish(&state),
        c_metadata: Hasher::finish(&other),
    }
}

const LINES: [&str; 4] = [
    "rustc 1.80.0 (051478957 2024-07-21)",
    "binary: rustc",
    "host: x86_64-unknown-linux-gnu",
    "release: 1.80.0",
];

#[test]
fn unit_hashes_have_sixteen_digits() {
    let metadata = |unit_id: u64| Metadata { unit_id, c_metadata: 7 };
    assert_eq!(metadata(0).unit_hash(), "0000000000000000");
    assert_eq!(metadata(u64::MAX).unit_hash(), "ffffffffffffffff");
    assert_eq!(metadata(0x0123_4567_89ab_cdef).unit_hash(), "0123456789abcdef");
    assert_eq!(metadata(0xfedc_ba98_7654_3210).unit_hash(), "fedcba9876543210");
    for id in [1u64, 15, 16, 0x8000_0000_0000_0000, 0x00de_ad00] {
        assert_eq!(metadata(id).unit_hash(), format!("{:016x}", id));
    }
    assert_ne!(metadata(1).unit_hash(), metadata(16).unit_hash());
}

#[test]
fn computed_hashes_are_those_of_the_stable_hasher() {
    assert_eq!(METADATA_VERSION, 2);
    let computed = compute(&unit(REGISTRY, &[]), &[], VERSION, true, "/w").expect("a source");
    assert_eq!(computed, expected(shared(&LINES, None), vec![], vec![]));
    assert_ne!(computed.unit_id, computed.c_metadata);
}

#[test]
fn dependency_hashes_are_sorted() {
    let deps = [
        Metadata { unit_id: 9, c_metadata: 1 },
        Metadata { unit_id: 3, c_metadata: 8 },
        Metadata { unit_id: 5, c_metadata: 4 },
        Metadata { unit_id: 3, c_metadata: 2 },
    ];
    let computed = compute(&unit(REGISTRY, &[]), &deps, VERSION, true, "/w").expect("a source");
    assert_eq!(
        computed,
        expected(shared(&LINES, None), vec![3, 3, 5, 9], vec![1, 2, 4, 8])
    );
}

#[test]
fn dependency_order_does_not_matter() {
    let a = Metadata { unit_id: 9, c_metadata: 1 };
    let b = Metadata { unit_id: 3, c_metadata: 8 };
    let one = compute(&unit(REGISTRY, &[]), &[a, b], VERSION, true, "/w");
    let other = compute(&unit(REGISTRY, &[]), &[b, a], VERSION, true, "/w");
    assert_eq!(one, other);
    let fewer = compute(&unit(REGISTRY, &[]), &[a], VERSION, true, "/w");
    assert_ne!(one, fewer);
}

#[test]
fn host_does_not_matter_for_cross_compiled_units() {
    let mut cross = unit(REGISTRY, &[]);
    cross.platform = Some(String::from("wasm32-unknown-unknown"));
    let computed = compute(&cross, &[], VERSION, false, "/w").expect("a source");
    let lines = [LINES[0], LINES[1], LINES[3]];
    assert_eq!(
        computed,
        expected(shared(&lines, Some("wasm32-unknown-unknown")), vec![], vec![])
    );
    let elsewhere = VERSION.replace("x86_64-unknown-linux-gnu", "aarch64-apple-darwin");
    assert_eq!(compute(&cross, &[], &elsewhere, false, "/w"), Ok(computed));
    assert_ne!(compute(&cross, &[], &elsewhere, true, "/w"), Ok(computed));
    let moved = "host: a\nrustc 1.80.0 (051478957 2024-07-21)\nhost: b\nbinary: rustc\nrelease: 1.80.0";
    assert_eq!(compute(&cross, &[], moved, false, "/w"), Ok(computed));
}

#[test]
fn workspace_location_does_not_matter() {
    let here = unit("path+file:///home/a/w/crates/x#0.1.0", &[]);
    let there = unit("path+file:///srv/w/crates/x#0.1.0", &[]);
    let one = compute(&here, &[], VERSION, true, "/home/a/w");
    assert_eq!(one, compute(&there, &[], VERSION, true, "/srv/w"));
    assert_ne!(one, compute(&there, &[], VERSION, true, "/home/a/w"));
}

fn source_digest(source: &str, root: &str) -> u64 {
    let mut state = UnitHasher::new();
    hash_source_id(source, root, &mut state);
    state.finish()
}

fn text_digest(texts: &[&str]) -> u64 {
    let mut state = StableSipHasher128::new();
    for text in texts {
        text.hash(&mut state);
    }
    Hasher::finish(&state)
}

#[test]
fn sources_in_the_workspace_count_from_its_root() {
    assert_eq!(
        source_digest("path+file:///w/crates/x", "/w"),
        text_digest(&["path", "crates/x"])
    );
    assert_eq!(
        source_digest("path+file:///w", "/w"),
        text_digest(&["path", "file:///w"])
    );
    assert_eq!(
        source_digest("path+file:///other/x", "/w"),
        text_digest(&["path", "file:///other/x"])
    );
    assert_eq!(
        source_digest("git+file:///w/crates/x", "/w"),
        text_digest(&["git", "file:///w/crates/x"])
    );
    assert_eq!(
        source_digest("registry+https://a+b", "/w"),
        text_digest(&["registry", "https://a+b"])
    );
    assert_eq!(source_digest("local", "/w"), text_digest(&["local", ""]));
}

#[test]
fn package_ids_are_hashed_by_name_version_and_source() {
    let mut state = UnitHasher::new();
    assert_eq!(hash_package_id("registry+u#a@b@1.0.0", "/w", &mut state), Ok(()));
    assert_eq!(state.finish(), text_digest(&["a@b", "1.0.0", "registry", "u"]));

    let mut state = UnitHasher::new();
    assert_eq!(hash_package_id("path+file:///w/x#0.1.0", "/w", &mut state), Ok(()));
    assert_eq!(state.finish(), text_digest(&["0.1.0", "", "path", "x"]));

    let mut state = UnitHasher::new();
    assert_eq!(
        hash_package_id("serde", "/w", &mut state),
        Err(UnitGraphError::PackageIdWithoutSource)
    );
    assert_eq!(state.finish(), text_digest(&[]));
}

#[test]
fn the_host_has_no_platform_hash() {
    assert_eq!(compile_kind_fingerprint_hash(&None), 0);
    assert_eq!(
        compile_kind_fingerprint_hash(&Some(String::from("wasm32-wasip1"))),
        text_digest(&["wasm32-wasip1"])
    );
}

#[test]
fn only_host_units_hash_the_host_line() {
    let mut state = UnitHasher::new();
    hash_rustc_version(VERSION, true, &mut state);
    assert_eq!(state.finish(), text_digest(&LINES));
    let mut state = UnitHasher::new();
    hash_rustc_version(VERSION, false, &mut state);
    assert_eq!(state.finish(), text_digest(&[LINES[0], LINES[1], LINES[3]]));
    let mut state = UnitHasher::new();
    hash_rustc_version("", true, &mut state);
    assert_eq!(state.finish(), text_digest(&[]));
    let mut state = UnitHasher::new();
    hash_rustc_version("\n\nhost:x", false, &mut state);
    assert_eq!(state.finish(), text_digest(&["", "", "host:x"]));
}

#[test]
fn package_ids_without_source_are_refused() {
    let error = compute(&unit("serde", &[]), &[], VERSION, true, "/w");
    assert_eq!(error, Err(UnitGraphError::PackageIdWithoutSource));
    let units = [unit(REGISTRY, &[1]), unit("serde", &[])];
    assert!(does_walk_end(&units));
    assert_eq!(
        compute_all(&units, VERSION, "/w").expect_err("no source"),
        UnitGraphError::PackageIdWithoutSource
    );
}

#[test]
fn all_units_get_the_hashes_of_their_dependencies() {
    let mut cross = unit(REGISTRY, &[0, 1]);
    cross.platform = Some(String::from("wasm32-unknown-unknown"));
    let units = [unit(REGISTRY, &[3]), unit("path+file:///w/x#0.1.0", &[0, 3]), cross, unit(REGISTRY, &[])];
    assert!(does_walk_end(&units));
    let table = compute_all(&units, VERSION, "/w").expect("all have a source");
    assert_eq!(table.len(), 4);
    let last = compute(&units[3], &[], VERSION, true, "/w").unwrap();
    let first = compute(&units[0], &[last], VERSION, true, "/w").unwrap();
    let second = compute(&units[1], &[first, last], VERSION, true, "/w").unwrap();
    let third = compute(&units[2], &[first, second], VERSION, false, "/w").unwrap();
    assert_eq!(table[&3], last);
    assert_eq!(table[&0], first);
    assert_eq!(table[&1], second);
    assert_eq!(table[&2], third);
    let again = compute_all(&units, VERSION, "/w").expect("all have a source");
    assert_eq!(again, table);
    assert!(compute_all(&[], VERSION, "/w").expect("nothing to refuse").is_empty());
}

#[test]
fn walks_over_cycles_and_strangers_do_not_end() {
    assert!(does_walk_end(&[]));
    assert!(!does_walk_end(&[unit(REGISTRY, &[0])]));
    assert!(!does_walk_end(&[unit(REGISTRY, &[1]), unit(REGISTRY, &[0])]));
    assert!(!does_walk_end(&[unit(REGISTRY, &[1])]));
    assert!(does_walk_end(&[unit(REGISTRY, &[1, 2]), unit(REGISTRY, &[2]), unit(REGISTRY, &[])]));
    assert!(!does_walk_end(&[unit(REGISTRY, &[1]), unit(REGISTRY, &[2]), unit(REGISTRY, &[1])]));
}

#[test]
fn a_refused_unit_ends_the_walk_before_a_cycle() {
    let units = [unit("serde", &[]), unit(REGISTRY, &[1]), unit(REGISTRY, &[9])];
    assert!(does_walk_end(&units));
    assert_eq!(
        compute_all(&units, VERSION, "/w").expect_err("no source"),
        UnitGraphError::PackageIdWithoutSource
    );
    assert!(!does_walk_end(&[unit(REGISTRY, &[0]), unit("serde", &[])]));
    assert!(does_walk_end(&[unit("serde", &[1]), unit("serde", &[])]));
}
