use std::hash::{Hash, Hasher};

use hurry_cargo::hasher::UnitHasher;
use hurry_cargo::target::{CargoCompileMode, RustcTarget, RustcTargetPlatform, TargetKind};
use hurry_cargo::unit_graph::{
    parse_package_id_source, Target, UnitGraph, UnitGraphError, UnitGraphProfile,
    UnitGraphProfilePanicStrategy, UnitGraphUnit,
};
use rustc_stable_hash::StableSipHasher128;

fn profile() -> UnitGraphProfile {
    UnitGraphProfile {
        name: String::from("dev"),
        opt_level: String::from("0"),
        lto: String::from("false"),
        codegen_backend: None,
        codegen_units: Some(16),
        debuginfo: Some(2),
        split_debuginfo: Some(String::from("unpacked")),
        debug_assertions: true,
        overflow_checks: true,
        rpath: false,
        incremental: true,
        panic: UnitGraphProfilePanicStrategy::Abort,
        strip: Some(serde_json::from_str("{\"resolved\": {\"Named\": \"debuginfo\"}}").unwrap()),
    }
}

fn unit(pkg_id: &str, name: &str, kind: Vec<TargetKind>, mode: CargoCompileMode) -> UnitGraphUnit {
    UnitGraphUnit {
        pkg_id: pkg_id.to_string(),
        target: Target {
            name: name.to_string(),
            kind,
            src_path: String::from("/src/lib.rs"),
        },
        profile: profile(),
        platform: None,
        mode,
        features: vec![String::from("default"), String::from("std")],
        is_std: false,
        dependencies: vec![],
    }
}

fn named(pkg_id: &str, name: &str) -> UnitGraphUnit {
    unit(pkg_id, name, vec![TargetKind::Lib], CargoCompileMode::Build)
}

fn pair(name: &str, version: &str) -> Result<(String, String), UnitGraphError> {
    Ok((name.to_string(), version.to_string()))
}

#[test]
fn package_ids_tell_name_and_version() {
    let registry = "registry+https://github.com/rust-lang/crates.io-index#serde@1.0.219";
    assert_eq!(
        named(registry, "serde").package_name_version(),
        pair("serde", "1.0.219")
    );
    assert_eq!(
        named("path+file:///w/my-crate#0.1.0", "my_crate").package_name_version(),
        pair("my_crate", "0.1.0")
    );
    assert_eq!(
        named("git+https://x/y?branch=a#b#z@2.0.0", "z").package_name_version(),
        pair("z", "2.0.0")
    );
    assert_eq!(
        named("path+file:///w/a@b#c@d@0.3.0", "t").package_name_version(),
        pair("c@d", "0.3.0")
    );
    assert_eq!(named("1.2.3", "t").package_name_version(), pair("t", "1.2.3"));
    assert_eq!(named("", "t").package_name_version(), pair("t", ""));
    assert_eq!(named("x#", "t").package_name_version(), pair("t", ""));
}

#[test]
fn package_id_source_ends_at_the_last_hash_sign() {
    assert_eq!(
        parse_package_id_source("git+https://x#y#z@1"),
        Ok(("git+https://x#y", "z@1"))
    );
    assert_eq!(
        parse_package_id_source("serde 1.0.0"),
        Err(UnitGraphError::PackageIdWithoutSource)
    );
    assert_eq!(
        UnitGraphError::PackageIdWithoutSource.message(),
        "package id has no source"
    );
}

#[test]
fn crate_names_have_underscores() {
    assert_eq!(named("x#y@1", "my-cool-crate").crate_name(), "my_cool_crate");
    assert_eq!(named("x#y@1", "plain_name").crate_name(), "plain_name");
    assert_eq!(named("x#y@1", "-é-").crate_name(), "_é_");
}

#[test]
fn source_paths_are_absolute() {
    let mut unit = named("x#y@1", "y");
    assert_eq!(unit.src_path().expect("an absolute path").as_str(), "/src/lib.rs");
    unit.target.src_path = String::from("src/lib.rs");
    let error = unit.src_path().expect_err("a relative path");
    assert_eq!(error, UnitGraphError::SrcPathNotAbsolute);
    assert_eq!(error.message(), "parse unit graph target src_path");
}

#[test]
fn target_arch_is_the_platform_or_the_host() {
    let supported = vec![
        String::from("aarch64-apple-darwin"),
        String::from("x86_64-unknown-linux-gnu"),
    ];
    let mut unit = named("x#y@1", "y");
    assert_eq!(unit.target_arch(&supported), RustcTarget::ImplicitHost);
    unit.platform = Some(String::from("x86_64-unknown-linux-gnu"));
    assert_eq!(
        unit.target_arch(&supported),
        RustcTarget::Specified(RustcTargetPlatform::Supported(String::from(
            "x86_64-unknown-linux-gnu"
        )))
    );
    unit.platform = Some(String::from("riscv64gc-unknown-none-elf"));
    assert_eq!(
        unit.target_arch(&supported),
        RustcTarget::Specified(RustcTargetPlatform::Unsupported(String::from(
            "riscv64gc-unknown-none-elf"
        )))
    );
}

#[test]
fn targets_resolve_against_the_host() {
    let host = RustcTargetPlatform::Supported(String::from("x86_64-unknown-linux-gnu"));
    let other = RustcTargetPlatform::Unsupported(String::from("x86_64-unknown-linux-gnu"));
    assert!(RustcTarget::ImplicitHost.resolve(&host).same(&host));
    assert!(!RustcTarget::Specified(other.clone()).resolve(&host).same(&host));
    assert_eq!(
        RustcTarget::Specified(other).resolve(&host).as_str(),
        "x86_64-unknown-linux-gnu"
    );
}

fn kinds_of(unit: &UnitGraphUnit) -> (bool, bool, bool, bool) {
    (
        unit.is_build_script_compilation(),
        unit.is_build_script_execution(),
        unit.is_binary(),
        unit.is_cacheable_library(),
    )
}

#[test]
fn cached_units_are_of_one_kind() {
    let of = |kind: Vec<TargetKind>, mode: CargoCompileMode| kinds_of(&unit("x#y@1", "y", kind, mode));
    let build = CargoCompileMode::Build;
    let run = CargoCompileMode::RunCustomBuild;
    assert_eq!(of(vec![TargetKind::CustomBuild], build), (true, false, false, false));
    assert_eq!(of(vec![TargetKind::CustomBuild], run), (false, true, false, false));
    assert_eq!(
        of(vec![TargetKind::CustomBuild], CargoCompileMode::Check),
        (false, false, false, false)
    );
    assert_eq!(of(vec![TargetKind::Bin], build), (false, false, true, false));
    for kind in [
        TargetKind::Lib,
        TargetKind::RLib,
        TargetKind::CDyLib,
        TargetKind::DyLib,
        TargetKind::StaticLib,
        TargetKind::ProcMacro,
    ] {
        assert_eq!(of(vec![kind.clone()], build), (false, false, false, true));
        assert_eq!(
            of(vec![TargetKind::Test, kind.clone()], build),
            (false, false, false, true)
        );
        assert_eq!(of(vec![kind], run), (false, false, false, false));
    }
    for kind in [TargetKind::Bench, TargetKind::Example, TargetKind::Test] {
        assert_eq!(of(vec![kind], build), (false, false, false, false));
    }
    assert_eq!(of(vec![], build), (false, false, false, false));
    assert_eq!(
        of(vec![TargetKind::CustomBuild, TargetKind::Bin], build),
        (false, false, false, false)
    );
}

/// The panic strategies, hashed as `derive` does it.
#[derive(Hash)]
enum Panic {
    #[allow(dead_code)]
    Unwind,
    Abort,
}

/// The compile modes, hashed as `derive` does it.
#[allow(dead_code)]
#[derive(Hash)]
enum Mode {
    Test,
    Build,
    Check,
    Doc,
    Doctest,
    Docscrape,
    RunCustomBuild,
}

fn hash_profile(state: &mut StableSipHasher128) {
    String::from("dev").hash(state);
    String::from("0").hash(state);
    String::from("false").hash(state);
    None::<String>.hash(state);
    Some(16u64).hash(state);
    Some(2u64).hash(state);
    Some(String::from("unpacked")).hash(state);
    true.hash(state);
    true.hash(state);
    false.hash(state);
    true.hash(state);
    Panic::Abort.hash(state);
    let strip: Option<serde_json::Value> =
        Some(serde_json::from_str("{\"resolved\": {\"Named\": \"debuginfo\"}}").unwrap());
    strip.hash(state);
}

#[test]
fn profiles_are_hashed_field_by_field() {
    let mut state = UnitHasher::new();
    profile().hash(&mut state);
    let mut expected = StableSipHasher128::new();
    hash_profile(&mut expected);
    assert_eq!(state.finish(), Hasher::finish(&expected));

    let mut other = UnitHasher::new();
    let changed = UnitGraphProfile {
        strip: None,
        ..profile()
    };
    changed.hash(&mut other);
    assert_ne!(other.finish(), state.finish());
}

#[test]
fn units_are_hashed_without_their_dependencies() {
    let mut unit = unit(
        "x#y@1",
        "y",
        vec![TargetKind::CustomBuild, TargetKind::Unknown(String::from("odd"))],
        CargoCompileMode::RunCustomBuild,
    );
    unit.platform = Some(String::from("wasm32-unknown-unknown"));
    let mut state = UnitHasher::new();
    unit.hash(&mut state);
    let mut expected = StableSipHasher128::new();
    String::from("x#y@1").hash(&mut expected);
    String::from("y").hash(&mut expected);
    vec![
        cargo_metadata::TargetKind::CustomBuild,
        cargo_metadata::TargetKind::Unknown(String::from("odd")),
    ]
    .hash(&mut expected);
    hash_profile(&mut expected);
    Some(String::from("wasm32-unknown-unknown")).hash(&mut expected);
    Mode::RunCustomBuild.hash(&mut expected);
    vec![String::from("default"), String::from("std")].hash(&mut expected);
    false.hash(&mut expected);
    assert_eq!(state.finish(), Hasher::finish(&expected));
}

#[test]
fn all_target_kinds_are_hashed_as_cargo_metadata_has_them() {
    let kinds = vec![
        (TargetKind::Bench, cargo_metadata::TargetKind::Bench),
        (TargetKind::Bin, cargo_metadata::TargetKind::Bin),
        (TargetKind::CustomBuild, cargo_metadata::TargetKind::CustomBuild),
        (TargetKind::CDyLib, cargo_metadata::TargetKind::CDyLib),
        (TargetKind::DyLib, cargo_metadata::TargetKind::DyLib),
        (TargetKind::Example, cargo_metadata::TargetKind::Example),
        (TargetKind::Lib, cargo_metadata::TargetKind::Lib),
        (TargetKind::ProcMacro, cargo_metadata::TargetKind::ProcMacro),
        (TargetKind::RLib, cargo_metadata::TargetKind::RLib),
        (TargetKind::StaticLib, cargo_metadata::TargetKind::StaticLib),
        (TargetKind::Test, cargo_metadata::TargetKind::Test),
        (
            TargetKind::Unknown(String::from("lib")),
            cargo_metadata::TargetKind::Unknown(String::from("lib")),
        ),
    ];
    for (kind, outside) in kinds {
        let mut state = UnitHasher::new();
        unit("x#y@1", "y", vec![kind], CargoCompileMode::Test).hash(&mut state);
        let mut expected = StableSipHasher128::new();
        String::from("x#y@1").hash(&mut expected);
        String::from("y").hash(&mut expected);
        vec![outside].hash(&mut expected);
        hash_profile(&mut expected);
        None::<String>.hash(&mut expected);
        Mode::Test.hash(&mut expected);
        vec![String::from("default"), String::from("std")].hash(&mut expected);
        false.hash(&mut expected);
        assert_eq!(state.finish(), Hasher::finish(&expected));
    }
}

#[test]
fn an_unknown_kind_with_a_known_name_is_another_kind() {
    let digest = |kind: TargetKind| {
        let mut state = UnitHasher::new();
        unit("x#y@1", "y", vec![kind], CargoCompileMode::Build).hash(&mut state);
        state.finish()
    };
    assert_ne!(
        digest(TargetKind::Unknown(String::from("lib"))),
        digest(TargetKind::Lib)
    );
}

#[test]
fn graphs_hold_units_and_roots() {
    let graph = UnitGraph {
        version: 1,
        units: vec![named("x#y@1", "y")],
        roots: vec![0],
    };
    let copy = graph.clone();
    assert_eq!(copy.version, 1);
    assert_eq!(copy.roots, vec![0]);
    assert_eq!(copy.units[0].pkg_id, graph.units[0].pkg_id);
}
