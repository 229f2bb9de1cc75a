//! Which unit hash an invocation of a build plan tells, by its kinds, its mode, its outputs
//! and its environment.
use vstd::prelude::*;

use crate::build_plan;
use crate::build_plan::BuildPlanInvocation;
use crate::path;
use crate::target;
use crate::target::TargetKind;
use crate::text;
use crate::text_laws;

verus! {

/// The output ends like a file that holds debug information only.
pub open spec fn ends_like_debug_info(output: Seq<char>) -> bool {
    ||| exists|stem: Seq<char>| output == #[trigger] (stem + ".dwp"@)
    ||| exists|stem: Seq<char>| output == #[trigger] (stem + ".dSYM"@)
}

/// `output` is the first output that holds not only debug information: those in `skipped`
/// come before it, and others may follow.
pub open spec fn first_of_use(
    invocation: BuildPlanInvocation,
    skipped: Seq<Seq<char>>,
    output: Seq<char>,
    others: Seq<Seq<char>>,
) -> bool {
    &&& invocation.outputs.deep_view() == skipped + seq![output] + others
    &&& forall|i: int| 0 <= i < skipped.len() ==> ends_like_debug_info(#[trigger] skipped[i])
    &&& !ends_like_debug_info(output)
}

/// All outputs hold debug information only.
pub open spec fn none_of_use(invocation: BuildPlanInvocation) -> bool {
    forall|i: int|
        0 <= i < invocation.outputs@.len() ==> ends_like_debug_info(
            (#[trigger] invocation.outputs@[i])@,
        )
}

/// The target is of a library kind that is cached, whatever else it is.
pub open spec fn is_cached_library(invocation: BuildPlanInvocation) -> bool {
    exists|i: int|
        0 <= i < invocation.target_kind@.len() && match #[trigger] invocation.target_kind@[i] {
            TargetKind::Lib | TargetKind::RLib | TargetKind::CDyLib | TargetKind::ProcMacro => true,
            _ => false,
        }
}

/// The target is a build script and nothing else.
pub open spec fn is_build_script(invocation: BuildPlanInvocation) -> bool {
    invocation.target_kind@.len() == 1 && invocation.target_kind@[0] is CustomBuild
}

proof fn lemma_debug_info(output: Seq<char>)
    ensures
        build_plan::only_debug_info(output) == ends_like_debug_info(output),
{
    if ".dwp"@.is_suffix_of(output) {
        let stem = output.subrange(0, output.len() - ".dwp"@.len());
        assert(output =~= stem + ".dwp"@);
    }
    if ".dSYM"@.is_suffix_of(output) {
        let stem = output.subrange(0, output.len() - ".dSYM"@.len());
        assert(output =~= stem + ".dSYM"@);
    }
    if ends_like_debug_info(output) {
        if exists|stem: Seq<char>| output == #[trigger] (stem + ".dwp"@) {
            let stem = choose|stem: Seq<char>| output == #[trigger] (stem + ".dwp"@);
            assert(output.subrange(output.len() - ".dwp"@.len(), output.len() as int) =~= ".dwp"@);
        } else {
            let stem = choose|stem: Seq<char>| output == #[trigger] (stem + ".dSYM"@);
            assert(output.subrange(output.len() - ".dSYM"@.len(), output.len() as int)
                =~= ".dSYM"@);
        }
    }
}

proof fn lemma_first_of_use(
    invocation: BuildPlanInvocation,
    skipped: Seq<Seq<char>>,
    output: Seq<char>,
    others: Seq<Seq<char>>,
)
    requires
        first_of_use(invocation, skipped, output, others),
    ensures
        build_plan::first_artifact(invocation.outputs.deep_view()) == Some(output),
{
    let outputs = invocation.outputs.deep_view();
    let n = skipped.len() as int;
    assert(outputs[n] == output);
    lemma_debug_info(output);
    assert forall|j: int| 0 <= j < n implies build_plan::only_debug_info(#[trigger] outputs[j]) by {
        assert(outputs[j] == skipped[j]);
        lemma_debug_info(skipped[j]);
    }
    assert(build_plan::artifact_at(outputs, n));
    let k = choose|k: int| build_plan::artifact_at(outputs, k);
    assert(k == n);
}

proof fn lemma_none_of_use(invocation: BuildPlanInvocation)
    requires
        none_of_use(invocation),
    ensures
        build_plan::first_artifact(invocation.outputs.deep_view()) is None,
{
    let outputs = invocation.outputs.deep_view();
    assert forall|i: int| !build_plan::artifact_at(outputs, i) by {
        if 0 <= i < outputs.len() {
            assert(outputs[i] == invocation.outputs@[i]@);
            lemma_debug_info(outputs[i]);
        }
    }
}

/// What the kinds of an invocation mean for the way to its hash.
proof fn lemma_kinds(invocation: BuildPlanInvocation)
    ensures
        ({
            let kinds = target::kinds(invocation.target_kind@);
            &&& kinds == seq![target::TargetKindView::CustomBuild] <==> is_build_script(invocation)
            &&& kinds == seq![target::TargetKindView::Bin] <==> invocation.target_kind@.len() == 1
                && invocation.target_kind@[0] is Bin
            &&& invocation.builds_cached_library() <==> is_cached_library(invocation)
        }),
{
    let list = invocation.target_kind@;
    let kinds = target::kinds(list);
    assert(kinds.len() == list.len());
    assert(forall|i: int| 0 <= i < list.len() ==> #[trigger] kinds[i] == list[i]@);
    let script = seq![target::TargetKindView::CustomBuild];
    let bin = seq![target::TargetKindView::Bin];
    assert(script[0] == target::TargetKindView::CustomBuild && script.len() == 1);
    assert(bin[0] == target::TargetKindView::Bin && bin.len() == 1);
    if is_build_script(invocation) {
        assert(kinds =~= script);
    }
    if list.len() == 1 && list[0] is Bin {
        assert(kinds =~= bin);
    }
    if kinds == script {
        assert(list[0]@ == script[0]);
    }
    if kinds == bin {
        assert(list[0]@ == bin[0]);
    }
    if is_cached_library(invocation) {
        let i = choose|i: int|
            0 <= i < list.len() && match #[trigger] list[i] {
                TargetKind::Lib | TargetKind::RLib | TargetKind::CDyLib | TargetKind::ProcMacro =>
                    true,
                _ => false,
            };
        assert(kinds.contains(kinds[i]));
        assert(kinds[i] == list[i]@);
    }
    if invocation.builds_cached_library() {
        let kind = if kinds.contains(target::TargetKindView::Lib) {
            target::TargetKindView::Lib
        } else if kinds.contains(target::TargetKindView::RLib) {
            target::TargetKindView::RLib
        } else if kinds.contains(target::TargetKindView::CDyLib) {
            target::TargetKindView::CDyLib
        } else {
            target::TargetKindView::ProcMacro
        };
        let i = choose|i: int| 0 <= i < kinds.len() && kinds[i] == kind;
        assert(list[i]@ == kind);
    }
}

/// The file name of an output `{dir}/{file}`.
proof fn lemma_file_of_output(dir: Seq<char>, file: Seq<char>)
    requires
        dir.len() == 0 || dir[0] == '/',
        !file.contains('/'),
        file.contains('-'),
    ensures
        path::absolute(dir + seq!['/'] + file),
        path::file_name_of(dir + seq!['/'] + file) == Some(file),
{
    let i = choose|i: int| 0 <= i < file.len() && file[i] == '-';
    assert(file != seq!['.'] && file != seq!['.', '.']) by {
        assert(file[i] == '-');
    }
    text_laws::names_are_added_at_the_end(dir, file);
    assert((dir + seq!['/'] + file)[0] == '/');
}

/// A text made of two others and a character between them holds no more than these.
proof fn lemma_joined_without(before: Seq<char>, between: char, after: Seq<char>, c: char)
    requires
        !before.contains(c),
        !after.contains(c),
        between != c,
    ensures
        !(before + seq![between] + after).contains(c),
        (before + seq![between] + after).contains(between),
{
    let s = before + seq![between] + after;
    assert(s[before.len() as int] == between);
    if s.contains(c) {
        let i = choose|i: int| 0 <= i < s.len() && s[i] == c;
        if i < before.len() {
            assert(before[i] == c);
        } else if i > before.len() {
            assert(after[i - before.len() - 1] == c);
        }
    }
}

/// An invocation whose target is of a cached library kind, alone or among others and in any
/// mode, has the hash that stands in its first output `{dir}/{name}-{hash}.{extension}`
/// that holds not only debug information.
pub proof fn libraries_have_the_hash_of_their_output(
    invocation: BuildPlanInvocation,
    skipped: Seq<Seq<char>>,
    dir: Seq<char>,
    name: Seq<char>,
    hash: Seq<char>,
    extension: Seq<char>,
    others: Seq<Seq<char>>,
)
    requires
        is_cached_library(invocation),
        dir.len() == 0 || dir[0] == '/',
        !name.contains('/') && !name.contains('.'),
        !hash.contains('/') && !hash.contains('.') && !hash.contains('-'),
        !extension.contains('/'),
        first_of_use(
            invocation,
            skipped,
            dir + seq!['/'] + (name + seq!['-'] + hash + seq!['.'] + extension),
            others,
        ),
    ensures
        invocation.cached_hash() == Ok::<_, build_plan::UnitHashErrorView>(Some(hash)),
{
    let stem = name + seq!['-'] + hash;
    let file = stem + seq!['.'] + extension;
    assert(name + seq!['-'] + hash + seq!['.'] + extension =~= file);
    lemma_kinds(invocation);
    lemma_first_of_use(invocation, skipped, dir + seq!['/'] + file, others);
    lemma_joined_without(name, '-', hash, '/');
    lemma_joined_without(name, '-', hash, '.');
    lemma_joined_without(stem, '.', extension, '/');
    assert(file.contains('-')) by {
        assert(file[name.len() as int] == '-');
    }
    lemma_file_of_output(dir, file);
    text::split_undoes_join(stem, '.', extension);
    text::rsplit_undoes_join(name, '-', hash);
}

/// An invocation that compiles a build script has the hash that stands in its first output
/// `{dir}/{name}-{hash}` that holds not only debug information.
pub proof fn build_scripts_have_the_hash_of_their_output(
    invocation: BuildPlanInvocation,
    skipped: Seq<Seq<char>>,
    dir: Seq<char>,
    name: Seq<char>,
    hash: Seq<char>,
    others: Seq<Seq<char>>,
)
    requires
        is_build_script(invocation),
        invocation.compile_mode is Build,
        dir.len() == 0 || dir[0] == '/',
        !name.contains('/'),
        !hash.contains('/') && !hash.contains('-'),
        first_of_use(
            invocation,
            skipped,
            dir + seq!['/'] + (name + seq!['-'] + hash),
            others,
        ),
    ensures
        invocation.cached_hash() == Ok::<_, build_plan::UnitHashErrorView>(Some(hash)),
{
    let file = name + seq!['-'] + hash;
    lemma_kinds(invocation);
    lemma_first_of_use(invocation, skipped, dir + seq!['/'] + file, others);
    lemma_joined_without(name, '-', hash, '/');
    lemma_file_of_output(dir, file);
    text::rsplit_undoes_join(name, '-', hash);
}

/// An invocation that runs a build script has the hash that stands in the directory
/// `{name}-{hash}` around the directory that `OUT_DIR` names.
pub proof fn build_script_runs_have_the_hash_of_their_directory(
    invocation: BuildPlanInvocation,
    dir: Seq<char>,
    name: Seq<char>,
    hash: Seq<char>,
    last: Seq<char>,
)
    requires
        is_build_script(invocation),
        invocation.compile_mode is RunCustomBuild,
        dir.len() == 0 || dir[0] == '/',
        !name.contains('/'),
        !hash.contains('/') && !hash.contains('-'),
        last.len() > 0,
        !last.contains('/'),
        last != seq!['.'],
        invocation.env@.contains_key("OUT_DIR"@),
        invocation.env@["OUT_DIR"@] == dir + seq!['/'] + (name + seq!['-'] + hash) + seq!['/']
            + last,
    ensures
        invocation.cached_hash() == Ok::<_, build_plan::UnitHashErrorView>(Some(hash)),
{
    let entry = name + seq!['-'] + hash;
    let parent = dir + seq!['/'] + entry;
    lemma_kinds(invocation);
    lemma_joined_without(name, '-', hash, '/');
    lemma_file_of_output(dir, entry);
    text_laws::names_are_added_at_the_end(parent, last);
    let names = path::names_of(invocation.env@["OUT_DIR"@]);
    assert(names.drop_last() =~= path::names_of(parent));
    assert((parent + seq!['/'] + last)[0] == parent[0]);
    text::rsplit_undoes_join(name, '-', hash);
}

/// An invocation is not cached, and so has no hash, if its target is a binary and nothing
/// else, a build script that is neither compiled nor run, or neither a build script nor of
/// a cached library kind.
pub proof fn other_invocations_have_no_hash(invocation: BuildPlanInvocation)
    requires
        ({
            ||| invocation.target_kind@.len() == 1 && invocation.target_kind@[0] is Bin
            ||| is_build_script(invocation) && !(invocation.compile_mode is Build)
                && !(invocation.compile_mode is RunCustomBuild)
            ||| !is_build_script(invocation) && !is_cached_library(invocation)
        }),
    ensures
        invocation.cached_hash() == Ok::<_, build_plan::UnitHashErrorView>(None::<Seq<char>>),
{
    lemma_kinds(invocation);
}

/// Where a library has no output of use, or one that is not absolute, that names no file,
/// that has no extension, or whose name has no dash before the extension, the error says
/// that.
pub proof fn library_errors_tell_what_is_missing(
    invocation: BuildPlanInvocation,
    skipped: Seq<Seq<char>>,
    output: Seq<char>,
    others: Seq<Seq<char>>,
    stem: Seq<char>,
    extension: Seq<char>,
)
    requires
        is_cached_library(invocation),
    ensures
        none_of_use(invocation) ==> invocation.cached_hash() == Err::<Option<Seq<char>>, _>(
            build_plan::UnitHashErrorView::LibraryWithoutOutputs,
        ),
        first_of_use(invocation, skipped, output, others) ==> {
            let names = path::names_of(output);
            &&& output.len() == 0 || output[0] != '/' ==> invocation.cached_hash() == Err::<
                Option<Seq<char>>,
                _,
            >(build_plan::UnitHashErrorView::PathNotAbsolute(output))
            &&& output.len() > 0 && output[0] == '/' && (names.len() == 0 || names.last() == seq![
                '.',
                '.',
            ]) ==> invocation.cached_hash() == Err::<Option<Seq<char>>, _>(
                build_plan::UnitHashErrorView::LibraryWithoutName,
            )
            &&& output.len() > 0 && output[0] == '/' && names.len() > 0 && !names.last().contains(
                '.',
            ) ==> invocation.cached_hash() == Err::<Option<Seq<char>>, _>(
                build_plan::UnitHashErrorView::LibraryWithoutExtension,
            )
            &&& output.len() > 0 && output[0] == '/' && names.len() > 0 && names.last() != seq![
                '.',
                '.',
            ] && names.last() == stem + seq!['.'] + extension && !stem.contains('.')
                && !stem.contains('-') ==> invocation.cached_hash() == Err::<
                Option<Seq<char>>,
                _,
            >(
                build_plan::UnitHashErrorView::LibraryWithoutHash {
                    filename: stem,
                    outputs: invocation.outputs.deep_view(),
                },
            )
        },
{
    lemma_kinds(invocation);
    if none_of_use(invocation) {
        lemma_none_of_use(invocation);
    }
    if first_of_use(invocation, skipped, output, others) {
        lemma_first_of_use(invocation, skipped, output, others);
        let names = path::names_of(output);
        if names.len() > 0 {
            let last = names.last();
            text_laws::split_takes_a_text_apart(last, '.');
            if !last.contains('.') {
                if text::split(last, '.') is Some {
                    let (before, after) = text::split(last, '.')->0;
                    assert(last[before.len() as int] == '.');
                }
                assert(last != seq!['.', '.']) by {
                    assert(seq!['.', '.'][0] == '.');
                }
            }
            if last == stem + seq!['.'] + extension && !stem.contains('.') {
                text::split_undoes_join(stem, '.', extension);
                text_laws::rsplit_takes_a_text_apart(stem, '-');
                if text::rsplit(stem, '-') is Some {
                    let (before, after) = text::rsplit(stem, '-')->0;
                    assert(stem[before.len() as int] == '-');
                }
            }
        }
    }
}

/// Where the compilation of a build script has no output of use, or one that is not
/// absolute, that names no file, or whose name has no dash, the error says that.
pub proof fn build_script_errors_tell_what_is_missing(
    invocation: BuildPlanInvocation,
    skipped: Seq<Seq<char>>,
    output: Seq<char>,
    others: Seq<Seq<char>>,
)
    requires
        is_build_script(invocation),
        invocation.compile_mode is Build,
    ensures
        none_of_use(invocation) ==> invocation.cached_hash() == Err::<Option<Seq<char>>, _>(
            build_plan::UnitHashErrorView::BuildScriptWithoutOutputs,
        ),
        first_of_use(invocation, skipped, output, others) ==> {
            let names = path::names_of(output);
            &&& output.len() == 0 || output[0] != '/' ==> invocation.cached_hash() == Err::<
                Option<Seq<char>>,
                _,
            >(build_plan::UnitHashErrorView::PathNotAbsolute(output))
            &&& output.len() > 0 && output[0] == '/' && (names.len() == 0 || names.last() == seq![
                '.',
                '.',
            ]) ==> invocation.cached_hash() == Err::<Option<Seq<char>>, _>(
                build_plan::UnitHashErrorView::ProgramWithoutName,
            )
            &&& output.len() > 0 && output[0] == '/' && names.len() > 0 && names.last() != seq![
                '.',
                '.',
            ] && !names.last().contains('-') ==> invocation.cached_hash() == Err::<
                Option<Seq<char>>,
                _,
            >(build_plan::UnitHashErrorView::ProgramWithoutHash)
        },
{
    lemma_kinds(invocation);
    if none_of_use(invocation) {
        lemma_none_of_use(invocation);
    }
    if first_of_use(invocation, skipped, output, others) {
        lemma_first_of_use(invocation, skipped, output, others);
        let names = path::names_of(output);
        if names.len() > 0 && !names.last().contains('-') {
            let last = names.last();
            text_laws::rsplit_takes_a_text_apart(last, '-');
            if text::rsplit(last, '-') is Some {
                let (before, after) = text::rsplit(last, '-')->0;
                assert(last[before.len() as int] == '-');
            }
        }
    }
}

/// Where the run of a build script has no `OUT_DIR`, or one that is not absolute, that has
/// no parent, whose parent has no name, or whose parent has no dash in its name, the error
/// says that.
pub proof fn build_script_run_errors_tell_what_is_missing(invocation: BuildPlanInvocation)
    requires
        is_build_script(invocation),
        invocation.compile_mode is RunCustomBuild,
    ensures
        !invocation.env@.contains_key("OUT_DIR"@) ==> invocation.cached_hash() == Err::<
            Option<Seq<char>>,
            _,
        >(build_plan::UnitHashErrorView::OutDirNotSet),
        invocation.env@.contains_key("OUT_DIR"@) ==> {
            let out_dir = invocation.env@["OUT_DIR"@];
            let names = path::names_of(out_dir);
            let n = names.len() as int;
            &&& out_dir.len() == 0 || out_dir[0] != '/' ==> invocation.cached_hash() == Err::<
                Option<Seq<char>>,
                _,
            >(build_plan::UnitHashErrorView::PathNotAbsolute(out_dir))
            &&& out_dir.len() > 0 && out_dir[0] == '/' && n == 0 ==> invocation.cached_hash()
                == Err::<Option<Seq<char>>, _>(build_plan::UnitHashErrorView::OutDirWithoutParent)
            &&& out_dir.len() > 0 && out_dir[0] == '/' && n > 0 && (n == 1 || names[n - 2] == seq![
                '.',
                '.',
            ]) ==> invocation.cached_hash() == Err::<Option<Seq<char>>, _>(
                build_plan::UnitHashErrorView::DirectoryWithoutName,
            )
            &&& out_dir.len() > 0 && out_dir[0] == '/' && n > 1 && names[n - 2] != seq!['.', '.']
                && !names[n - 2].contains('-') ==> invocation.cached_hash() == Err::<
                Option<Seq<char>>,
                _,
            >(build_plan::UnitHashErrorView::DirectoryWithoutHash)
        },
{
    lemma_kinds(invocation);
    if invocation.env@.contains_key("OUT_DIR"@) {
        let names = path::names_of(invocation.env@["OUT_DIR"@]);
        let n = names.len() as int;
        if n > 1 {
            let name = names[n - 2];
            assert(names.drop_last().last() == name);
            text_laws::rsplit_takes_a_text_apart(name, '-');
            if text::rsplit(name, '-') is Some {
                let (before, after) = text::rsplit(name, '-')->0;
                assert(name[before.len() as int] == '-');
            }
        }
    }
}

/// The messages that name something name all of it.
pub proof fn unit_hash_messages_name_what_is_wrong(
    bad: Seq<char>,
    stem: Seq<char>,
    outputs: Seq<Seq<char>>,
)
    ensures
        build_plan::UnitHashErrorView::PathNotAbsolute(bad).message() == "path is not absolute: "@
            + bad,
        (build_plan::UnitHashErrorView::LibraryWithoutHash {
            filename: stem,
            outputs,
        }).message() == "no unit hash suffix in filename: "@ + stem + " (outputs: "@
            + build_plan::debug_text(outputs) + ")"@,
{
}

} // verus!
