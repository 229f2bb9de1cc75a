//! The build plan of a build, as `cargo build --build-plan` describes it.
use vstd::prelude::*;

use crate::path;
use crate::string_map::StringMap;
use crate::target;
use crate::target::{CargoCompileMode, RustcTarget, TargetKind};
use crate::text;

verus! {

/// The invocations of a build.
#[derive(Clone, Eq, PartialEq, Debug)]
pub struct BuildPlan {
    pub invocations: Vec<BuildPlanInvocation>,
    pub inputs: Vec<String>,
}

/// One invocation of a program in a build.
#[derive(Clone, Eq, PartialEq, Debug)]
pub struct BuildPlanInvocation {
    pub package_name: String,
    pub package_version: String,
    pub target_kind: Vec<TargetKind>,
    pub target_arch: RustcTarget,
    pub compile_mode: CargoCompileMode,
    pub deps: Vec<usize>,
    pub outputs: Vec<String>,
    /// The hard links to built artifacts, from link to artifact.
    pub links: StringMap,
    pub program: String,
    /// The arguments, mostly for rustc, but not where a build script is run.
    pub args: Vec<String>,
    pub env: StringMap,
    pub cwd: String,
}

/// The hash of a unit, as it stands in file names.
#[derive(Clone, Eq, PartialEq, Hash, Debug)]
pub struct UnitHash(pub String);

/// Why an invocation does not tell the hash of its unit.
#[derive(Clone, Eq, PartialEq, Debug)]
pub enum UnitHashError {
    BuildScriptWithoutOutputs,
    ProgramWithoutName,
    ProgramWithoutHash,
    OutDirNotSet,
    OutDirWithoutParent,
    DirectoryWithoutName,
    DirectoryWithoutHash,
    LibraryWithoutOutputs,
    LibraryWithoutName,
    LibraryWithoutExtension,
    /// The file name of the library, up to its extension, and all outputs.
    LibraryWithoutHash { filename: String, outputs: Vec<String> },
    PathNotAbsolute(String),
}

/// What a [`UnitHashError`] stands for.
pub enum UnitHashErrorView {
    BuildScriptWithoutOutputs,
    ProgramWithoutName,
    ProgramWithoutHash,
    OutDirNotSet,
    OutDirWithoutParent,
    DirectoryWithoutName,
    DirectoryWithoutHash,
    LibraryWithoutOutputs,
    LibraryWithoutName,
    LibraryWithoutExtension,
    LibraryWithoutHash { filename: Seq<char>, outputs: Seq<Seq<char>> },
    PathNotAbsolute(Seq<char>),
}

impl View for UnitHashError {
    type V = UnitHashErrorView;

    open spec fn view(&self) -> UnitHashErrorView {
        match self {
            UnitHashError::BuildScriptWithoutOutputs =>
                UnitHashErrorView::BuildScriptWithoutOutputs,
            UnitHashError::ProgramWithoutName => UnitHashErrorView::ProgramWithoutName,
            UnitHashError::ProgramWithoutHash => UnitHashErrorView::ProgramWithoutHash,
            UnitHashError::OutDirNotSet => UnitHashErrorView::OutDirNotSet,
            UnitHashError::OutDirWithoutParent => UnitHashErrorView::OutDirWithoutParent,
            UnitHashError::DirectoryWithoutName => UnitHashErrorView::DirectoryWithoutName,
            UnitHashError::DirectoryWithoutHash => UnitHashErrorView::DirectoryWithoutHash,
            UnitHashError::LibraryWithoutOutputs => UnitHashErrorView::LibraryWithoutOutputs,
            UnitHashError::LibraryWithoutName => UnitHashErrorView::LibraryWithoutName,
            UnitHashError::LibraryWithoutExtension => UnitHashErrorView::LibraryWithoutExtension,
            UnitHashError::LibraryWithoutHash { filename, outputs } =>
                UnitHashErrorView::LibraryWithoutHash {
                filename: filename@,
                outputs: outputs.deep_view(),
            },
            UnitHashError::PathNotAbsolute(path) => UnitHashErrorView::PathNotAbsolute(path@),
        }
    }
}

/// The list of texts as `Debug` writes it.
pub uninterp spec fn debug_text(list: Seq<Seq<char>>) -> Seq<char>;

/// `Debug` of `Vec<String>`: the texts, quoted, between square brackets. Which
/// characters are escaped is not stated.
#[verifier::external_body]
fn debug_list(list: &Vec<String>) -> (result: String)
    ensures
        result@ == debug_text(list.deep_view()),
{
    format!("{list:?}")
}

impl UnitHashErrorView {
    /// The message of the error.
    pub open spec fn message(self) -> Seq<char> {
        match self {
            UnitHashErrorView::BuildScriptWithoutOutputs =>
                "build script compilation has no outputs"@,
            UnitHashErrorView::ProgramWithoutName => "program file has no name"@,
            UnitHashErrorView::ProgramWithoutHash => "program file has no unit hash"@,
            UnitHashErrorView::OutDirNotSet => "build script execution should set OUT_DIR"@,
            UnitHashErrorView::OutDirWithoutParent => "OUT_DIR should have parent"@,
            UnitHashErrorView::DirectoryWithoutName =>
                "build script execution directory should have name"@,
            UnitHashErrorView::DirectoryWithoutHash =>
                "build script execution directory should have unit hash"@,
            UnitHashErrorView::LibraryWithoutOutputs => "library crate has no outputs"@,
            UnitHashErrorView::LibraryWithoutName => "no filename"@,
            UnitHashErrorView::LibraryWithoutExtension => "no extension"@,
            UnitHashErrorView::LibraryWithoutHash { filename, outputs } =>
                "no unit hash suffix in filename: "@ + filename + " (outputs: "@ + debug_text(
                outputs,
            ) + ")"@,
            UnitHashErrorView::PathNotAbsolute(path) => "path is not absolute: "@ + path,
        }
    }
}

impl UnitHashError {
    /// The message of the error.
    pub fn message(&self) -> (result: String)
        ensures
            result@ == self@.message(),
    {
        match self {
            UnitHashError::BuildScriptWithoutOutputs =>
                "build script compilation has no outputs".to_owned(),
            UnitHashError::ProgramWithoutName => "program file has no name".to_owned(),
            UnitHashError::ProgramWithoutHash => "program file has no unit hash".to_owned(),
            UnitHashError::OutDirNotSet => "build script execution should set OUT_DIR".to_owned(),
            UnitHashError::OutDirWithoutParent => "OUT_DIR should have parent".to_owned(),
            UnitHashError::DirectoryWithoutName =>
                "build script execution directory should have name".to_owned(),
            UnitHashError::DirectoryWithoutHash =>
                "build script execution directory should have unit hash".to_owned(),
            UnitHashError::LibraryWithoutOutputs => "library crate has no outputs".to_owned(),
            UnitHashError::LibraryWithoutName => "no filename".to_owned(),
            UnitHashError::LibraryWithoutExtension => "no extension".to_owned(),
            UnitHashError::LibraryWithoutHash { filename, outputs } =>
                "no unit hash suffix in filename: ".to_owned().concat(filename.as_str()).concat(
                " (outputs: ",
            ).concat(debug_list(outputs).as_str()).concat(")"),
            UnitHashError::PathNotAbsolute(path) => "path is not absolute: ".to_owned().concat(
                path.as_str(),
            ),
        }
    }
}

/// The output holds debug information only.
pub open spec fn only_debug_info(output: Seq<char>) -> bool {
    ".dwp"@.is_suffix_of(output) || ".dSYM"@.is_suffix_of(output)
}

/// `i` is the position of the first output that does not hold debug information only.
pub open spec fn artifact_at(outputs: Seq<Seq<char>>, i: int) -> bool {
    &&& 0 <= i < outputs.len()
    &&& !only_debug_info(outputs[i])
    &&& forall|j: int| 0 <= j < i ==> only_debug_info(#[trigger] outputs[j])
}

/// The first output that does not hold debug information only.
pub open spec fn first_artifact(outputs: Seq<Seq<char>>) -> Option<Seq<char>> {
    if exists|i: int| artifact_at(outputs, i) {
        Some(outputs[choose|i: int| artifact_at(outputs, i)])
    } else {
        None
    }
}

/// The first output that does not hold debug information only.
fn find_artifact(outputs: &Vec<String>) -> (result: Option<&String>)
    ensures
        match result {
            Some(output) => first_artifact(outputs.deep_view()) == Some(output@),
            None => first_artifact(outputs.deep_view()) is None,
        },
{
    let ghost all = outputs.deep_view();
    let mut i: usize = 0;
    while i < outputs.len()
        invariant
            all == outputs.deep_view(),
            i <= outputs@.len(),
            forall|j: int| 0 <= j < i ==> only_debug_info(#[trigger] all[j]),
        decreases outputs@.len() - i,
    {
        let output: &str = outputs[i].as_str();
        assert(all[i as int] == output@);
        if !text::ends_with(output, ".dwp") && !text::ends_with(output, ".dSYM") {
            proof {
                assert(artifact_at(all, i as int));
                let k = choose|k: int| artifact_at(all, k);
                assert(k == i);
            }
            return Some(&outputs[i]);
        }
        i = i + 1;
    }
    None
}

/// The unit hash in the name of a file `{name}-{hash}`, where there is one.
pub open spec fn hash_suffix(filename: Seq<char>) -> Option<Seq<char>> {
    match text::rsplit(filename, '-') {
        Some((_, hash)) => Some(hash),
        None => None,
    }
}

/// The unit hash in the outputs of the compilation of a build script.
pub open spec fn program_hash(outputs: Seq<Seq<char>>) -> Result<
    Option<Seq<char>>,
    UnitHashErrorView,
> {
    match first_artifact(outputs) {
        None => Err(UnitHashErrorView::BuildScriptWithoutOutputs),
        Some(output) => if !path::absolute(output) {
            Err(UnitHashErrorView::PathNotAbsolute(output))
        } else {
            match path::file_name_of(output) {
                None => Err(UnitHashErrorView::ProgramWithoutName),
                Some(filename) => match hash_suffix(filename) {
                    None => Err(UnitHashErrorView::ProgramWithoutHash),
                    Some(hash) => Ok(Some(hash)),
                },
            }
        },
    }
}

/// The unit hash in the name of the directory around the output directory of a build
/// script.
pub open spec fn out_dir_hash(env: Map<Seq<char>, Seq<char>>) -> Result<
    Option<Seq<char>>,
    UnitHashErrorView,
> {
    if !env.contains_key("OUT_DIR"@) {
        Err(UnitHashErrorView::OutDirNotSet)
    } else if !path::absolute(env["OUT_DIR"@]) {
        Err(UnitHashErrorView::PathNotAbsolute(env["OUT_DIR"@]))
    } else {
        let names = path::names_of(env["OUT_DIR"@]);
        if names.len() == 0 {
            Err(UnitHashErrorView::OutDirWithoutParent)
        } else {
            match path::last_name(names.drop_last()) {
                None => Err(UnitHashErrorView::DirectoryWithoutName),
                Some(name) => match hash_suffix(name) {
                    None => Err(UnitHashErrorView::DirectoryWithoutHash),
                    Some(hash) => Ok(Some(hash)),
                },
            }
        }
    }
}

/// The unit hash in the outputs of a library crate, before the first `.` of the file
/// name.
pub open spec fn library_hash(outputs: Seq<Seq<char>>) -> Result<
    Option<Seq<char>>,
    UnitHashErrorView,
> {
    match first_artifact(outputs) {
        None => Err(UnitHashErrorView::LibraryWithoutOutputs),
        Some(output) => if !path::absolute(output) {
            Err(UnitHashErrorView::PathNotAbsolute(output))
        } else {
            match path::file_name_of(output) {
                None => Err(UnitHashErrorView::LibraryWithoutName),
                Some(name) => match text::split(name, '.') {
                    None => Err(UnitHashErrorView::LibraryWithoutExtension),
                    Some((filename, _)) => match hash_suffix(filename) {
                        None => Err(
                            UnitHashErrorView::LibraryWithoutHash { filename, outputs },
                        ),
                        Some(hash) => Ok(Some(hash)),
                    },
                },
            }
        },
    }
}

/// The result of the search for a unit hash.
pub open spec fn hash_result(result: Result<Option<UnitHash>, UnitHashError>) -> Result<
    Option<Seq<char>>,
    UnitHashErrorView,
> {
    match result {
        Ok(Some(hash)) => Ok(Some(hash.0@)),
        Ok(None) => Ok(None),
        Err(error) => Err(error@),
    }
}

impl BuildPlanInvocation {
    /// A library crate of a kind that is cached.
    pub open spec fn builds_cached_library(self) -> bool {
        let kinds = target::kinds(self.target_kind@);
        ||| kinds.contains(target::TargetKindView::Lib)
        ||| kinds.contains(target::TargetKindView::RLib)
        ||| kinds.contains(target::TargetKindView::CDyLib)
        ||| kinds.contains(target::TargetKindView::ProcMacro)
    }

    /// The unit hash of the invocation: none for one that is not cached.
    pub open spec fn cached_hash(self) -> Result<Option<Seq<char>>, UnitHashErrorView> {
        let kinds = target::kinds(self.target_kind@);
        if kinds == seq![target::TargetKindView::CustomBuild] {
            match self.compile_mode {
                CargoCompileMode::Build => program_hash(self.outputs.deep_view()),
                CargoCompileMode::RunCustomBuild => out_dir_hash(self.env@),
                _ => Ok(None),
            }
        } else if kinds == seq![target::TargetKindView::Bin] {
            Ok(None)
        } else if self.builds_cached_library() {
            library_hash(self.outputs.deep_view())
        } else {
            Ok(None)
        }
    }

    /// Whether the target is a library crate of a kind that is cached.
    fn is_cached_library(&self) -> (result: bool)
        ensures
            result == self.builds_cached_library(),
    {
        let ghost kinds = target::kinds(self.target_kind@);
        let mut i: usize = 0;
        while i < self.target_kind.len()
            invariant
                i <= self.target_kind@.len(),
                kinds == target::kinds(self.target_kind@),
                forall|j: int|
                    0 <= j < i ==> !cached_library_kind(#[trigger] kinds[j]),
            decreases self.target_kind@.len() - i,
        {
            assert(kinds[i as int] == self.target_kind@[i as int]@);
            if matches!(
                self.target_kind[i],
                TargetKind::Lib | TargetKind::RLib | TargetKind::CDyLib | TargetKind::ProcMacro
            ) {
                assert(kinds.contains(kinds[i as int]));
                return true;
            }
            i = i + 1;
        }
        assert forall|kind: target::TargetKindView| #[trigger]
            kinds.contains(kind) implies !cached_library_kind(kind) by {}
        false
    }

    /// The unit hash in the outputs of the compilation of a build script.
    fn program_unit_hash(&self) -> (result: Result<Option<UnitHash>, UnitHashError>)
        ensures
            hash_result(result) == program_hash(self.outputs.deep_view()),
    {
        let output: &String = match find_artifact(&self.outputs) {
            Some(output) => output,
            None => {
                return Err(UnitHashError::BuildScriptWithoutOutputs);
            },
        };
        if !path::is_absolute(output.as_str()) {
            return Err(UnitHashError::PathNotAbsolute(output.clone()));
        }
        match path::file_name(output.as_str()) {
            None => Err(UnitHashError::ProgramWithoutName),
            Some(filename) => match text::rsplit_once(filename, '-') {
                None => Err(UnitHashError::ProgramWithoutHash),
                Some((_, hash)) => Ok(Some(UnitHash(hash.to_owned()))),
            },
        }
    }

    /// The unit hash in the output directory of a build script.
    fn out_dir_unit_hash(&self) -> (result: Result<Option<UnitHash>, UnitHashError>)
        ensures
            hash_result(result) == out_dir_hash(self.env@),
    {
        let out_dir: &String = match self.env.get("OUT_DIR") {
            Some(out_dir) => out_dir,
            None => {
                return Err(UnitHashError::OutDirNotSet);
            },
        };
        if !path::is_absolute(out_dir.as_str()) {
            return Err(UnitHashError::PathNotAbsolute(out_dir.clone()));
        }
        let names = path::names(out_dir.as_str());
        if names.len() == 0 {
            return Err(UnitHashError::OutDirWithoutParent);
        }
        assert(text::texts(names@).subrange(0, names@.len() - 1) =~= path::names_of(
            out_dir@,
        ).drop_last());
        match path::last_of(&names, names.len() - 1) {
            None => Err(UnitHashError::DirectoryWithoutName),
            Some(name) => match text::rsplit_once(name, '-') {
                None => Err(UnitHashError::DirectoryWithoutHash),
                Some((_, hash)) => Ok(Some(UnitHash(hash.to_owned()))),
            },
        }
    }

    /// The unit hash in the outputs of a library crate.
    fn library_unit_hash(&self) -> (result: Result<Option<UnitHash>, UnitHashError>)
        ensures
            hash_result(result) == library_hash(self.outputs.deep_view()),
    {
        let output: &String = match find_artifact(&self.outputs) {
            Some(output) => output,
            None => {
                return Err(UnitHashError::LibraryWithoutOutputs);
            },
        };
        if !path::is_absolute(output.as_str()) {
            return Err(UnitHashError::PathNotAbsolute(output.clone()));
        }
        let name: &str = match path::file_name(output.as_str()) {
            Some(name) => name,
            None => {
                return Err(UnitHashError::LibraryWithoutName);
            },
        };
        let filename: &str = match text::split_once(name, '.') {
            Some((filename, _)) => filename,
            None => {
                return Err(UnitHashError::LibraryWithoutExtension);
            },
        };
        match text::rsplit_once(filename, '-') {
            Some((_, hash)) => Ok(Some(UnitHash(hash.to_owned()))),
            None => {
                let outputs = text::duplicate_list(&self.outputs);
                Err(UnitHashError::LibraryWithoutHash { filename: filename.to_owned(), outputs })
            },
        }
    }

    /// The unit hash of the invocation.
    ///
    /// There is none for an invocation that is not cached: for a binary, and for targets
    /// of other kinds. There is one for library crates, for the compilation of build
    /// scripts and for runs of build scripts.
    pub fn unit_hash(&self) -> (result: Result<Option<UnitHash>, UnitHashError>)
        ensures
            hash_result(result) == self.cached_hash(),
    {
        if target::only_custom_build(&self.target_kind) {
            match self.compile_mode {
                CargoCompileMode::Build => self.program_unit_hash(),
                CargoCompileMode::RunCustomBuild => self.out_dir_unit_hash(),
                _ => Ok(None),
            }
        } else if target::only_bin(&self.target_kind) {
            Ok(None)
        } else if self.is_cached_library() {
            self.library_unit_hash()
        } else {
            Ok(None)
        }
    }
}

/// A library of a kind that is cached.
pub open spec fn cached_library_kind(kind: target::TargetKindView) -> bool {
    match kind {
        target::TargetKindView::Lib
        | target::TargetKindView::RLib
        | target::TargetKindView::CDyLib
        | target::TargetKindView::ProcMacro => true,
        _ => false,
    }
}

/// A first output decides which output is looked at, unless it holds debug information
/// only.
proof fn lemma_first_artifact(outputs: Seq<Seq<char>>)
    requires
        outputs.len() > 0,
        !only_debug_info(outputs[0]),
    ensures
        first_artifact(outputs) == Some(outputs[0]),
{
    assert(artifact_at(outputs, 0));
    let k = choose|k: int| artifact_at(outputs, k);
    assert(k == 0);
}

/// The hash in the file name of a library `lib{name}-{hash}.{extension}` is the unit
/// hash.
pub proof fn library_file_tells_hash(
    dir: Seq<char>,
    name: Seq<char>,
    hash: Seq<char>,
    extension: Seq<char>,
    outputs: Seq<Seq<char>>,
)
    requires
        path::absolute(dir),
        !name.contains('/') && !name.contains('.'),
        !hash.contains('/') && !hash.contains('.') && !hash.contains('-'),
        !extension.contains('/'),
        outputs.len() > 0,
        outputs[0] == dir + seq!['/'] + (name + seq!['-'] + hash + seq!['.'] + extension),
        !only_debug_info(outputs[0]),
    ensures
        library_hash(outputs) == Ok::<_, UnitHashErrorView>(Some(hash)),
{
    let stem = name + seq!['-'] + hash;
    let file = stem + seq!['.'] + extension;
    assert(name + seq!['-'] + hash + seq!['.'] + extension =~= file);
    lemma_joined_without(name, '-', hash, '/');
    lemma_joined_without(stem, '.', extension, '/');
    lemma_joined_without(name, '-', hash, '.');
    lemma_first_artifact(outputs);
    assert(file[name.len() as int] == '-');
    path::file_name_of_entry(dir, file);
    assert(outputs[0][0] == dir[0]);
    text::split_undoes_join(stem, '.', extension);
    text::rsplit_undoes_join(name, '-', hash);
}

/// The hash in the file name of a build script `{name}-{hash}` is the unit hash.
pub proof fn program_file_tells_hash(
    dir: Seq<char>,
    name: Seq<char>,
    hash: Seq<char>,
    outputs: Seq<Seq<char>>,
)
    requires
        path::absolute(dir),
        !name.contains('/'),
        !hash.contains('/') && !hash.contains('-'),
        outputs.len() > 0,
        outputs[0] == dir + seq!['/'] + (name + seq!['-'] + hash),
        !only_debug_info(outputs[0]),
    ensures
        program_hash(outputs) == Ok::<_, UnitHashErrorView>(Some(hash)),
{
    let file = name + seq!['-'] + hash;
    lemma_joined_without(name, '-', hash, '/');
    lemma_first_artifact(outputs);
    assert(file[name.len() as int] == '-');
    path::file_name_of_entry(dir, file);
    assert(outputs[0][0] == dir[0]);
    text::rsplit_undoes_join(name, '-', hash);
}

/// The hash in the directory `{name}-{hash}` around the output directory of a build
/// script is the unit hash.
pub proof fn out_dir_tells_hash(
    dir: Seq<char>,
    name: Seq<char>,
    hash: Seq<char>,
    last: Seq<char>,
    env: Map<Seq<char>, Seq<char>>,
)
    requires
        path::absolute(dir),
        !name.contains('/'),
        !hash.contains('/') && !hash.contains('-'),
        last.len() > 0,
        !last.contains('/'),
        last != seq!['.'],
        last != seq!['.', '.'],
        env.contains_key("OUT_DIR"@),
        env["OUT_DIR"@] == dir + seq!['/'] + (name + seq!['-'] + hash) + seq!['/'] + last,
    ensures
        out_dir_hash(env) == Ok::<_, UnitHashErrorView>(Some(hash)),
{
    let entry = name + seq!['-'] + hash;
    let parent = dir + seq!['/'] + entry;
    lemma_joined_without(name, '-', hash, '/');
    assert(entry[name.len() as int] == '-');
    path::file_name_of_entry(dir, entry);
    path::file_name_of_entry(parent, last);
    assert(env["OUT_DIR"@][0] == dir[0]);
    let names = path::names_of(env["OUT_DIR"@]);
    assert(names.drop_last() =~= path::names_of(parent));
    text::rsplit_undoes_join(name, '-', hash);
}

/// A text made of two others and a character between them holds no more than these.
proof fn lemma_joined_without(before: Seq<char>, between: char, after: Seq<char>, c: char)
    requires
        !before.contains(c),
        !after.contains(c),
        between != c,
    ensures
        !(before + seq![between] + after).contains(c),
{
    let s = before + seq![between] + after;
    if s.contains(c) {
        let i = choose|i: int| 0 <= i < s.len() && s[i] == c;
        if i < before.len() {
            assert(before[i] == c);
        } else if i > before.len() {
            assert(after[i - before.len() - 1] == c);
        }
    }
}

/// Invocations that are not cached have no unit hash: those of binaries, and those of
/// targets that are neither build scripts nor libraries of a cached kind.
pub proof fn uncached_invocations_have_no_hash(invocation: BuildPlanInvocation)
    ensures
        target::kinds(invocation.target_kind@) == seq![target::TargetKindView::Bin]
            ==> invocation.cached_hash() == Ok::<_, UnitHashErrorView>(None::<Seq<char>>),
        target::kinds(invocation.target_kind@) != seq![target::TargetKindView::CustomBuild]
            && !invocation.builds_cached_library() ==> invocation.cached_hash() == Ok::<
            _,
            UnitHashErrorView,
        >(None::<Seq<char>>),
{
    assert(seq![target::TargetKindView::CustomBuild][0] == target::TargetKindView::CustomBuild);
    assert(seq![target::TargetKindView::Bin][0] == target::TargetKindView::Bin);
}

} // verus!
