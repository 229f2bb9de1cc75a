//! The unit graph of a build, as `cargo build --unit-graph` describes it.
use vstd::prelude::*;

use crate::hasher;
use crate::hasher::UnitHasher;
use crate::path::AbsFilePath;
use crate::target;
use crate::target::{CargoCompileMode, RustcTarget, RustcTargetPlatform, TargetKind};
use crate::text;

verus! {

/// The units of a build, the roots among them by their position.
#[derive(Clone, Debug)]
pub struct UnitGraph {
    pub version: u64,
    pub units: Vec<UnitGraphUnit>,
    pub roots: Vec<usize>,
}

/// The Cargo target that a unit compiles.
#[derive(Clone, Debug)]
pub struct Target {
    pub name: String,
    pub kind: Vec<TargetKind>,
    pub src_path: String,
}

/// A unit of a build.
#[derive(Clone, Debug)]
pub struct UnitGraphUnit {
    pub pkg_id: String,
    pub target: Target,
    pub profile: UnitGraphProfile,
    pub platform: Option<String>,
    pub mode: CargoCompileMode,
    pub features: Vec<String>,
    pub is_std: bool,
    pub dependencies: Vec<UnitGraphDependency>,
}

/// The profile that a unit is compiled with.
#[derive(Clone, Debug)]
pub struct UnitGraphProfile {
    pub name: String,
    pub opt_level: String,
    pub lto: String,
    pub codegen_backend: Option<String>,
    pub codegen_units: Option<u64>,
    pub debuginfo: Option<u64>,
    pub split_debuginfo: Option<String>,
    pub debug_assertions: bool,
    pub overflow_checks: bool,
    pub rpath: bool,
    pub incremental: bool,
    pub panic: UnitGraphProfilePanicStrategy,
    pub strip: Option<serde_json::Value>,
}

/// What a panic does.
#[derive(Clone, Copy, PartialEq, Eq, Debug, Hash, Structural)]
pub enum UnitGraphProfilePanicStrategy {
    Unwind,
    Abort,
}

/// Another unit that a unit depends on, by its position.
#[derive(Clone, Debug)]
pub struct UnitGraphDependency {
    pub index: usize,
    pub extern_crate_name: String,
    pub public: bool,
    pub noprelude: bool,
}

/// What is wrong with a unit.
#[derive(Clone, Copy, PartialEq, Eq, Debug, Structural)]
pub enum UnitGraphError {
    /// The package id does not tell the source of the package.
    PackageIdWithoutSource,
    /// The source path of the target is not absolute.
    SrcPathNotAbsolute,
}

impl UnitGraphError {
    /// The message of the error.
    pub open spec fn text(self) -> Seq<char> {
        match self {
            UnitGraphError::PackageIdWithoutSource => "package id has no source"@,
            UnitGraphError::SrcPathNotAbsolute => "parse unit graph target src_path"@,
        }
    }

    /// The message of the error.
    pub fn message(&self) -> (result: String)
        ensures
            result@ == self.text(),
    {
        match self {
            UnitGraphError::PackageIdWithoutSource => "package id has no source".to_owned(),
            UnitGraphError::SrcPathNotAbsolute => "parse unit graph target src_path".to_owned(),
        }
    }
}

/// The package id tells the source of the package.
pub open spec fn has_source(pkg_id: Seq<char>) -> bool {
    text::rsplit(pkg_id, '#') is Some
}

/// Splits a package id into the source of the package and the package itself, which
/// follows the last `#`.
pub fn parse_package_id_source<'a>(pkg_id: &'a str) -> (result: Result<
    (&'a str, &'a str),
    UnitGraphError,
>)
    ensures
        match result {
            Ok((source, package)) => text::rsplit(pkg_id@, '#') == Some((source@, package@)),
            Err(error) => {
                &&& !has_source(pkg_id@)
                &&& error == UnitGraphError::PackageIdWithoutSource
            },
        },
{
    match text::rsplit_once(pkg_id, '#') {
        Some(parts) => Ok(parts),
        None => Err(UnitGraphError::PackageIdWithoutSource),
    }
}

impl UnitGraphProfilePanicStrategy {
    /// The position of the strategy among the strategies.
    pub open spec fn position(self) -> isize {
        match self {
            UnitGraphProfilePanicStrategy::Unwind => 0,
            UnitGraphProfilePanicStrategy::Abort => 1,
        }
    }

    /// The position of the strategy among the strategies.
    pub fn discriminant(&self) -> (result: isize)
        ensures
            result == self.position(),
    {
        match self {
            UnitGraphProfilePanicStrategy::Unwind => 0,
            UnitGraphProfilePanicStrategy::Abort => 1,
        }
    }
}

impl UnitGraphProfile {
    /// What is hashed for a profile.
    pub open spec fn hash_inputs(self) -> Seq<hasher::HashInput> {
        seq![
            hasher::HashInput::Text(self.name@),
            hasher::HashInput::Text(self.opt_level@),
            hasher::HashInput::Text(self.lto@),
            hasher::HashInput::OptionalText(self.codegen_backend.deep_view()),
            hasher::HashInput::OptionalNumber(self.codegen_units),
            hasher::HashInput::OptionalNumber(self.debuginfo),
            hasher::HashInput::OptionalText(self.split_debuginfo.deep_view()),
            hasher::HashInput::Flag(self.debug_assertions),
            hasher::HashInput::Flag(self.overflow_checks),
            hasher::HashInput::Flag(self.rpath),
            hasher::HashInput::Flag(self.incremental),
            hasher::HashInput::Discriminant(self.panic.position()),
            hasher::HashInput::OptionalJson(self.strip),
        ]
    }

    /// Hashes the profile.
    pub fn hash(&self, state: &mut UnitHasher)
        ensures
            hasher::hashed(*final(state)) == hasher::hashed(*old(state)) + self.hash_inputs(),
    {
        state.hash_text(self.name.as_str());
        state.hash_text(self.opt_level.as_str());
        state.hash_text(self.lto.as_str());
        state.hash_optional_text(&self.codegen_backend);
        state.hash_optional_number(&self.codegen_units);
        state.hash_optional_number(&self.debuginfo);
        state.hash_optional_text(&self.split_debuginfo);
        state.hash_flag(self.debug_assertions);
        state.hash_flag(self.overflow_checks);
        state.hash_flag(self.rpath);
        state.hash_flag(self.incremental);
        state.hash_discriminant(self.panic.discriminant());
        state.hash_optional_json(&self.strip);
        assert(hasher::hashed(*state) =~= hasher::hashed(*old(state)) + self.hash_inputs());
    }
}

/// The name and the version in a package id: around the last `@` after the last `#`.
/// Where there is no `@`, the name is that of the target.
pub open spec fn name_and_version(pkg_id: Seq<char>, target_name: Seq<char>) -> (
    Seq<char>,
    Seq<char>,
) {
    let id = match text::rsplit(pkg_id, '#') {
        Some((_, id)) => id,
        None => pkg_id,
    };
    match text::rsplit(id, '@') {
        Some(parts) => parts,
        None => (target_name, id),
    }
}

impl UnitGraphUnit {
    /// The kinds of the target.
    pub open spec fn kinds(self) -> Seq<target::TargetKindView> {
        target::kinds(self.target.kind@)
    }

    /// The name and the version of the package.
    pub fn package_name_version(&self) -> (result: Result<(String, String), UnitGraphError>)
        ensures
            result matches Ok((name, version)) && (name@, version@) == name_and_version(
                self.pkg_id@,
                self.target.name@,
            ),
    {
        let id: &str = match text::rsplit_once(self.pkg_id.as_str(), '#') {
            Some((_, id)) => id,
            None => self.pkg_id.as_str(),
        };
        match text::rsplit_once(id, '@') {
            Some((name, version)) => Ok((name.to_owned(), version.to_owned())),
            None => Ok((self.target.name.clone(), id.to_owned())),
        }
    }

    /// The name of the crate.
    pub fn crate_name(&self) -> (result: String)
        ensures
            result@ == text::replaced(self.target.name@, '-', '_'),
    {
        text::dashes_to_underscores(self.target.name.as_str())
    }

    /// The path of the root source file.
    pub fn src_path(&self) -> (result: Result<AbsFilePath, UnitGraphError>)
        ensures
            match result {
                Ok(path) => {
                    &&& crate::path::absolute(self.target.src_path@)
                    &&& path@ == self.target.src_path@
                },
                Err(error) => {
                    &&& !crate::path::absolute(self.target.src_path@)
                    &&& error == UnitGraphError::SrcPathNotAbsolute
                },
            },
    {
        match AbsFilePath::try_from_str(self.target.src_path.as_str()) {
            Some(path) => Ok(path),
            None => Err(UnitGraphError::SrcPathNotAbsolute),
        }
    }

    /// What the unit is compiled for, where these are the target triples of the
    /// supported platforms.
    pub fn target_arch(&self, supported: &Vec<String>) -> (result: RustcTarget)
        ensures
            match self.platform {
                None => result is ImplicitHost,
                Some(triple) => {
                    &&& result matches RustcTarget::Specified(platform)
                    &&& platform.triple() == triple@
                    &&& platform is Supported <==> supported.deep_view().contains(triple@)
                },
            },
    {
        match &self.platform {
            None => RustcTarget::ImplicitHost,
            Some(triple) => match RustcTargetPlatform::try_from_str(triple.as_str(), supported) {
                Some(platform) => RustcTarget::Specified(platform),
                None => RustcTarget::Specified(RustcTargetPlatform::Unsupported(triple.clone())),
            },
        }
    }

    /// The unit compiles a build script.
    pub open spec fn compiles_build_script(self) -> bool {
        &&& self.kinds() == seq![target::TargetKindView::CustomBuild]
        &&& self.mode == CargoCompileMode::Build
    }

    /// The unit runs a build script.
    pub open spec fn runs_build_script(self) -> bool {
        &&& self.kinds() == seq![target::TargetKindView::CustomBuild]
        &&& self.mode == CargoCompileMode::RunCustomBuild
    }

    /// The unit compiles a library of some kind.
    pub open spec fn builds_library(self) -> bool {
        &&& self.mode == CargoCompileMode::Build
        &&& {
            ||| self.kinds().contains(target::TargetKindView::Lib)
            ||| self.kinds().contains(target::TargetKindView::RLib)
            ||| self.kinds().contains(target::TargetKindView::CDyLib)
            ||| self.kinds().contains(target::TargetKindView::DyLib)
            ||| self.kinds().contains(target::TargetKindView::StaticLib)
            ||| self.kinds().contains(target::TargetKindView::ProcMacro)
        }
    }

    /// Whether the unit compiles a build script.
    pub fn is_build_script_compilation(&self) -> (result: bool)
        ensures
            result == self.compiles_build_script(),
    {
        target::only_custom_build(&self.target.kind) && self.mode == CargoCompileMode::Build
    }

    /// Whether the unit runs a build script.
    pub fn is_build_script_execution(&self) -> (result: bool)
        ensures
            result == self.runs_build_script(),
    {
        target::only_custom_build(&self.target.kind) && self.mode
            == CargoCompileMode::RunCustomBuild
    }

    /// Whether the target is a binary.
    pub fn is_binary(&self) -> (result: bool)
        ensures
            result == (self.kinds() == seq![target::TargetKindView::Bin]),
    {
        target::only_bin(&self.target.kind)
    }

    /// Whether the unit compiles a library that can be cached.
    pub fn is_cacheable_library(&self) -> (result: bool)
        ensures
            result == self.builds_library(),
    {
        if self.mode != CargoCompileMode::Build {
            return false;
        }
        let mut i: usize = 0;
        while i < self.target.kind.len()
            invariant
                self.mode == CargoCompileMode::Build,
                i <= self.target.kind@.len(),
                forall|j: int|
                    0 <= j < i ==> !target::is_library(#[trigger] self.target.kind@[j]@),
            decreases self.target.kind@.len() - i,
        {
            if matches!(
                self.target.kind[i],
                TargetKind::Lib | TargetKind::RLib | TargetKind::CDyLib | TargetKind::DyLib
                    | TargetKind::StaticLib | TargetKind::ProcMacro
            ) {
                assert(self.kinds()[i as int] == self.target.kind@[i as int]@);
                assert(self.kinds().contains(self.target.kind@[i as int]@));
                return true;
            }
            i = i + 1;
        }
        assert forall|kind: target::TargetKindView| #[trigger]
            self.kinds().contains(kind) implies !target::is_library(kind) by {
            let j = choose|j: int| 0 <= j < self.kinds().len() && self.kinds()[j] == kind;
            assert(kind == self.target.kind@[j]@);
        }
        false
    }

    /// What is hashed for a unit by itself.
    pub open spec fn hash_inputs(self) -> Seq<hasher::HashInput> {
        seq![
            hasher::HashInput::Text(self.pkg_id@),
            hasher::HashInput::Text(self.target.name@),
            hasher::HashInput::TargetKinds(target::kinds(self.target.kind@)),
        ] + self.profile.hash_inputs() + seq![
            hasher::HashInput::OptionalText(self.platform.deep_view()),
            hasher::HashInput::Discriminant(self.mode.position()),
            hasher::HashInput::Texts(self.features.deep_view()),
            hasher::HashInput::Flag(self.is_std),
        ]
    }

    /// Hashes the unit by itself, without its dependencies.
    pub fn hash(&self, state: &mut UnitHasher)
        ensures
            hasher::hashed(*final(state)) == hasher::hashed(*old(state)) + self.hash_inputs(),
    {
        state.hash_text(self.pkg_id.as_str());
        state.hash_text(self.target.name.as_str());
        state.hash_target_kinds(&self.target.kind);
        self.profile.hash(state);
        state.hash_optional_text(&self.platform);
        state.hash_discriminant(self.mode.discriminant());
        state.hash_texts(&self.features);
        state.hash_flag(self.is_std);
        assert(hasher::hashed(*state) =~= hasher::hashed(*old(state)) + self.hash_inputs());
    }
}

/// A unit that is cached is of one kind only: it compiles a build script, or runs one,
/// or compiles a library. No binary is one of these.
pub proof fn cached_units_are_of_one_kind(unit: UnitGraphUnit)
    ensures
        !(unit.compiles_build_script() && unit.runs_build_script()),
        !(unit.compiles_build_script() && unit.builds_library()),
        !(unit.runs_build_script() && unit.builds_library()),
        unit.kinds() == seq![target::TargetKindView::Bin] ==> {
            &&& !unit.compiles_build_script()
            &&& !unit.runs_build_script()
            &&& !unit.builds_library()
        },
{
    assert(seq![target::TargetKindView::CustomBuild][0] == target::TargetKindView::CustomBuild);
    assert(seq![target::TargetKindView::Bin][0] == target::TargetKindView::Bin);
    assert forall|kind: target::TargetKindView|
        unit.kinds().len() == 1 && #[trigger] unit.kinds().contains(kind) implies kind
        == unit.kinds()[0] by {}
}

/// A package id that is made of a source, a name and a version tells the name and the
/// version.
pub proof fn package_id_tells_name_and_version(
    source: Seq<char>,
    name: Seq<char>,
    version: Seq<char>,
    target_name: Seq<char>,
)
    requires
        !name.contains('#'),
        !version.contains('#'),
        !version.contains('@'),
    ensures
        name_and_version(source + seq!['#'] + (name + seq!['@'] + version), target_name) == (
            name,
            version,
        ),
{
    let package = name + seq!['@'] + version;
    assert(!package.contains('#')) by {
        if package.contains('#') {
            let i = choose|i: int| 0 <= i < package.len() && package[i] == '#';
            if i < name.len() {
                assert(name[i] == '#');
            } else if i > name.len() {
                assert(version[i - name.len() - 1] == '#');
            }
        }
    }
    text::rsplit_undoes_join(source, '#', package);
    text::rsplit_undoes_join(name, '@', version);
}

} // verus!
