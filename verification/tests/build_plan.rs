use hurry_cargo::build_plan::{BuildPlan, BuildPlanInvocation, UnitHash, UnitHashError};
use hurry_cargo::string_map::StringMap;
use hurry_cargo::target::{CargoCompileMode, RustcTarget, RustcTargetPlatform, TargetKind};
use serde_json::Value;

fn texts(list: &[&str]) -> Vec<String> {
    list.iter().map(|text| text.to_string()).collect()
}

fn library(outputs: &[&str]) -> BuildPlanInvocation {
    BuildPlanInvocation {
        package_name: String::from("serde"),
        package_version: String::from("1.0.0"),
        target_kind: vec![TargetKind::Lib],
        target_arch: RustcTarget::ImplicitHost,
        compile_mode: CargoCompileMode::Build,
        deps: vec![],
        outputs: texts(outputs),
        links: StringMap::new(),
        program: String::from("rustc"),
        args: vec![],
        env: StringMap::new(),
        cwd: String::from("/cargo/registry/src/serde-1.0.0"),
    }
}

fn build_script(outputs: &[&str]) -> BuildPlanInvocation {
    BuildPlanInvocation {
        target_kind: vec![TargetKind::CustomBuild],
        ..library(outputs)
    }
}

fn build_script_run(out_dir: Option<&str>) -> BuildPlanInvocation {
    let env = StringMap::new().with(String::from("HOME"), String::from("/home/x-1"));
    BuildPlanInvocation {
        target_kind: vec![TargetKind::CustomBuild],
        compile_mode: CargoCompileMode::RunCustomBuild,
        env: match out_dir {
            Some(dir) => env.with(String::from("OUT_DIR"), dir.to_string()),
            None => env,
        },
        ..library(&[])
    }
}

fn hash(text: &str) -> Result<Option<UnitHash>, UnitHashError> {
    Ok(Some(UnitHash(text.to_string())))
}

fn json_texts(value: &Value) -> Vec<String> {
    let list = value.as_array().expect("a list");
    list.iter().map(|item| item.as_str().expect("a text").to_string()).collect()
}

fn json_map(value: &Value) -> StringMap {
    let mut map = StringMap::new();
    for (key, item) in value.as_object().expect("an object") {
        map = map.with(key.clone(), item.as_str().expect("a text").to_string());
    }
    map
}

fn json_kind(name: String) -> TargetKind {
    match name.as_str() {
        "lib" => TargetKind::Lib,
        "bin" => TargetKind::Bin,
        "custom-build" => TargetKind::CustomBuild,
        _ => TargetKind::Unknown(name),
    }
}

fn json_invocation(value: &Value) -> BuildPlanInvocation {
    let text = |key: &str| value[key].as_str().expect("a text").to_string();
    BuildPlanInvocation {
        package_name: text("package_name"),
        package_version: text("package_version"),
        target_kind: json_texts(&value["target_kind"]).into_iter().map(json_kind).collect(),
        target_arch: match &value["kind"] {
            Value::Null => RustcTarget::ImplicitHost,
            triple => RustcTarget::Specified(RustcTargetPlatform::Unsupported(
                triple.as_str().expect("a text").to_string(),
            )),
        },
        compile_mode: match text("compile_mode").as_str() {
            "build" => CargoCompileMode::Build,
            "run-custom-build" => CargoCompileMode::RunCustomBuild,
            other => panic!("unexpected mode {other}"),
        },
        deps: value["deps"]
            .as_array()
            .expect("a list")
            .iter()
            .map(|dep| dep.as_u64().expect("a number") as usize)
            .collect(),
        outputs: json_texts(&value["outputs"]),
        links: json_map(&value["links"]),
        program: text("program"),
        args: json_texts(&value["args"]),
        env: json_map(&value["env"]),
        cwd: text("cwd"),
    }
}

#[test]
fn parse_legacy_build_plan_shape() {
    let value = serde_json::from_str::<Value>(
        r#"{
                "invocations": [{
                    "package_name": "serde",
                    "package_version": "1.0.0",
                    "target_kind": ["lib"],
                    "kind": null,
                    "compile_mode": "build",
                    "deps": [],
                    "outputs": ["/workspace/target/debug/deps/libserde-0123456789abcdef.rlib"],
                    "links": {},
                    "program": "rustc",
                    "args": [],
                    "env": {},
                    "cwd": "/cargo/registry/src/serde-1.0.0"
                }],
                "inputs": []
            }"#,
    )
    .expect("valid JSON");
    let build_plan = BuildPlan {
        invocations: value["invocations"]
            .as_array()
            .expect("a list")
            .iter()
            .map(json_invocation)
            .collect(),
        inputs: json_texts(&value["inputs"]),
    };

    assert!(
        !build_plan.invocations.is_empty(),
        "legacy build plan should have invocations"
    );
    assert_eq!(build_plan.invocations[0].unit_hash(), hash("0123456789abcdef"));
    assert_eq!(build_plan.clone(), build_plan);
}

#[test]
fn library_hash_stands_before_the_first_dot() {
    assert_eq!(
        library(&["/t/deps/libmy_crate-00ff.tar.rlib"]).unit_hash(),
        hash("00ff")
    );
    assert_eq!(
        library(&["/t/deps/lib-with-dashes-abc.rmeta", "/t/deps/other-def.rlib"]).unit_hash(),
        hash("abc")
    );
    for kind in [TargetKind::RLib, TargetKind::CDyLib, TargetKind::ProcMacro] {
        let invocation = BuildPlanInvocation {
            target_kind: vec![TargetKind::Bench, kind],
            compile_mode: CargoCompileMode::Check,
            ..library(&["/t/deps/libx-1.so"])
        };
        assert_eq!(invocation.unit_hash(), hash("1"));
    }
}

#[test]
fn outputs_with_debug_information_only_are_passed_over() {
    assert_eq!(
        library(&["/t/libx-1.dwp", "/t/libx-2.dSYM", "/t/libx-3.rlib"]).unit_hash(),
        hash("3")
    );
    assert_eq!(
        library(&["/t/libx-1.dwp"]).unit_hash(),
        Err(UnitHashError::LibraryWithoutOutputs)
    );
    assert_eq!(
        build_script(&["/t/build_script_build-9.dwp", "/t/build_script_build-9"]).unit_hash(),
        hash("9")
    );
}

#[test]
fn build_script_hash_stands_after_the_last_dash() {
    assert_eq!(
        build_script(&["/t/build/serde-1/build_script_build-0a1b"]).unit_hash(),
        hash("0a1b")
    );
    assert_eq!(build_script(&["/t/build_script-1/."]).unit_hash(), hash("1"));
}

#[test]
fn build_script_run_hash_stands_in_the_directory_around_out_dir() {
    assert_eq!(
        build_script_run(Some("/t/build/serde-json-77aa/out")).unit_hash(),
        hash("77aa")
    );
    assert_eq!(build_script_run(Some("//t-2/out/")).unit_hash(), hash("2"));
}

#[test]
fn uncached_invocations_have_no_hash() {
    let bin = BuildPlanInvocation {
        target_kind: vec![TargetKind::Bin],
        ..library(&["/t/x-1"])
    };
    assert_eq!(bin.unit_hash(), Ok(None));
    for kind in [
        TargetKind::Bench,
        TargetKind::Example,
        TargetKind::Test,
        TargetKind::DyLib,
        TargetKind::StaticLib,
        TargetKind::Unknown(String::from("lib")),
    ] {
        let other = BuildPlanInvocation {
            target_kind: vec![kind],
            ..library(&["/t/libx-1.a"])
        };
        assert_eq!(other.unit_hash(), Ok(None));
    }
    let none = BuildPlanInvocation {
        target_kind: vec![],
        ..library(&["/t/libx-1.a"])
    };
    assert_eq!(none.unit_hash(), Ok(None));
    for mode in [
        CargoCompileMode::Test,
        CargoCompileMode::Check,
        CargoCompileMode::Doc,
        CargoCompileMode::Doctest,
        CargoCompileMode::Docscrape,
    ] {
        let script = BuildPlanInvocation {
            compile_mode: mode,
            ..build_script(&["/t/x-1"])
        };
        assert_eq!(script.unit_hash(), Ok(None));
    }
}

#[test]
fn a_build_script_among_other_kinds_is_none() {
    let invocation = BuildPlanInvocation {
        target_kind: vec![TargetKind::CustomBuild, TargetKind::Lib],
        ..library(&["/t/libx-4.rlib"])
    };
    assert_eq!(invocation.unit_hash(), hash("4"));
    let invocation = BuildPlanInvocation {
        target_kind: vec![TargetKind::Bin, TargetKind::Lib],
        ..library(&["/t/libx-5.rlib"])
    };
    assert_eq!(invocation.unit_hash(), hash("5"));
}

fn error_of(invocation: BuildPlanInvocation) -> String {
    invocation.unit_hash().expect_err("no unit hash").message()
}

#[test]
fn unit_hash_errors_tell_what_is_missing() {
    assert_eq!(
        error_of(build_script(&[])),
        "build script compilation has no outputs"
    );
    assert_eq!(error_of(build_script(&["/"])), "program file has no name");
    assert_eq!(
        error_of(build_script(&["/t/build_script"])),
        "program file has no unit hash"
    );
    assert_eq!(
        error_of(build_script(&["t/build_script-1"])),
        "path is not absolute: t/build_script-1"
    );
    assert_eq!(
        error_of(build_script_run(None)),
        "build script execution should set OUT_DIR"
    );
    assert_eq!(
        error_of(build_script_run(Some("build/x-1/out"))),
        "path is not absolute: build/x-1/out"
    );
    assert_eq!(error_of(build_script_run(Some("/"))), "OUT_DIR should have parent");
    assert_eq!(
        error_of(build_script_run(Some("/out"))),
        "build script execution directory should have name"
    );
    assert_eq!(
        error_of(build_script_run(Some("/build/serde/out"))),
        "build script execution directory should have unit hash"
    );
    assert_eq!(error_of(library(&[])), "library crate has no outputs");
    assert_eq!(error_of(library(&["/t/.."])), "no filename");
    assert_eq!(error_of(library(&["/t/libx-1"])), "no extension");
    assert_eq!(
        error_of(library(&["t/libx-1.rlib"])),
        "path is not absolute: t/libx-1.rlib"
    );
    assert_eq!(
        error_of(library(&["/t/libx.rlib", "/t/\"q\".rmeta"])),
        "no unit hash suffix in filename: libx (outputs: [\"/t/libx.rlib\", \"/t/\\\"q\\\".rmeta\"])"
    );
}

#[test]
fn unit_hash_errors_are_told_apart() {
    assert_eq!(
        build_script(&[]).unit_hash(),
        Err(UnitHashError::BuildScriptWithoutOutputs)
    );
    assert_eq!(
        build_script(&["/.."]).unit_hash(),
        Err(UnitHashError::ProgramWithoutName)
    );
    assert_eq!(
        build_script(&["/x"]).unit_hash(),
        Err(UnitHashError::ProgramWithoutHash)
    );
    assert_eq!(
        build_script_run(None).unit_hash(),
        Err(UnitHashError::OutDirNotSet)
    );
    assert_eq!(
        build_script_run(Some("/")).unit_hash(),
        Err(UnitHashError::OutDirWithoutParent)
    );
    assert_eq!(
        build_script_run(Some("/../out")).unit_hash(),
        Err(UnitHashError::DirectoryWithoutName)
    );
    assert_eq!(
        build_script_run(Some("/x/out")).unit_hash(),
        Err(UnitHashError::DirectoryWithoutHash)
    );
    assert_eq!(
        library(&["/"]).unit_hash(),
        Err(UnitHashError::LibraryWithoutName)
    );
    assert_eq!(
        library(&["/x-1"]).unit_hash(),
        Err(UnitHashError::LibraryWithoutExtension)
    );
    assert_eq!(
        library(&["/x.rlib"]).unit_hash(),
        Err(UnitHashError::LibraryWithoutHash {
            filename: String::from("x"),
            outputs: texts(&["/x.rlib"]),
        })
    );
    assert_eq!(
        library(&["x"]).unit_hash(),
        Err(UnitHashError::PathNotAbsolute(String::from("x")))
    );
}

#[test]
fn maps_of_texts_keep_the_last_value_of_a_key() {
    let empty = StringMap::new();
    assert_eq!(empty.get("a"), None);
    let map = StringMap::new()
        .with(String::from("a"), String::from("1"))
        .with(String::from("b"), String::from("2"))
        .with(String::from("a"), String::from("3"));
    assert_eq!(map.get("a").map(|value| value.as_str()), Some("3"));
    assert_eq!(map.get("b").map(|value| value.as_str()), Some("2"));
    assert_eq!(map.get("c"), None);
    let other = StringMap::new()
        .with(String::from("b"), String::from("2"))
        .with(String::from("a"), String::from("3"));
    assert!(map == other);
    assert!(map.clone() == other);
    assert!(map != empty);
    assert!(map != other.with(String::from("b"), String::from("4")));
}
