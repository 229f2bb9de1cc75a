//! What is hashed for a unit, told by what the unit graph says of it, and what the names and
//! numbers of a unit graph mean.
use vstd::prelude::*;
use vstd::relations::*;

use crate::hasher;
use crate::target;
use crate::target::{CargoCompileMode, RustcTarget, RustcTargetPlatform, TargetKind};
use crate::text;
use crate::text_laws;
use crate::unit_graph;
use crate::unit_graph::{UnitGraphProfile, UnitGraphProfilePanicStrategy, UnitGraphUnit};
use crate::unit_hash;
use crate::unit_hash::Metadata;

verus! {

/// The compile modes and the panic strategies are numbered from zero in their order, so that
/// the number tells the mode, or the strategy.
pub proof fn numbers_tell_modes_and_strategies(
    a: CargoCompileMode,
    b: CargoCompileMode,
    p: UnitGraphProfilePanicStrategy,
    q: UnitGraphProfilePanicStrategy,
)
    ensures
        a.position() == b.position() ==> a == b,
        a is Test <==> a.position() == 0,
        a is Build <==> a.position() == 1,
        a is Check <==> a.position() == 2,
        a is Doc <==> a.position() == 3,
        a is Doctest <==> a.position() == 4,
        a is Docscrape <==> a.position() == 5,
        a is RunCustomBuild <==> a.position() == 6,
        p.position() == q.position() ==> p == q,
        p is Unwind <==> p.position() == 0,
        p is Abort <==> p.position() == 1,
{
}

/// A target has its kinds in their order, and each kind stands for itself.
pub proof fn kinds_are_those_of_the_target(list: Seq<TargetKind>, i: int)
    requires
        0 <= i < list.len(),
    ensures
        target::kinds(list).len() == list.len(),
        match list[i] {
            TargetKind::Bench => target::kinds(list)[i] is Bench,
            TargetKind::Bin => target::kinds(list)[i] is Bin,
            TargetKind::CustomBuild => target::kinds(list)[i] is CustomBuild,
            TargetKind::CDyLib => target::kinds(list)[i] is CDyLib,
            TargetKind::DyLib => target::kinds(list)[i] is DyLib,
            TargetKind::Example => target::kinds(list)[i] is Example,
            TargetKind::Lib => target::kinds(list)[i] is Lib,
            TargetKind::ProcMacro => target::kinds(list)[i] is ProcMacro,
            TargetKind::RLib => target::kinds(list)[i] is RLib,
            TargetKind::StaticLib => target::kinds(list)[i] is StaticLib,
            TargetKind::Test => target::kinds(list)[i] is Test,
            TargetKind::Unknown(name) => target::kinds(list)[i]
                == target::TargetKindView::Unknown(name@),
        },
{
}

/// A target means the platform that was asked for, or that of the host. Two platforms are
/// the same if they have the same triple and are both supported or both not.
pub proof fn platforms_are_told_by_their_triples(
    a: String,
    b: String,
    platform: RustcTargetPlatform,
    host: RustcTargetPlatform,
)
    ensures
        RustcTarget::ImplicitHost.resolved(host) == host,
        RustcTarget::Specified(platform).resolved(host) == platform,
        RustcTargetPlatform::Supported(a).triple() == a@,
        RustcTargetPlatform::Unsupported(a).triple() == a@,
        RustcTargetPlatform::Supported(a).is_same(RustcTargetPlatform::Supported(b)) <==> a@ == b@,
        RustcTargetPlatform::Unsupported(a).is_same(RustcTargetPlatform::Unsupported(b)) <==> a@
            == b@,
        !RustcTargetPlatform::Supported(a).is_same(RustcTargetPlatform::Unsupported(b)),
        !RustcTargetPlatform::Unsupported(a).is_same(RustcTargetPlatform::Supported(b)),
{
}

/// A unit compiles a build script, or runs one, if its target is a build script and nothing
/// else and its mode is that one. It builds a library if it is in build mode and its target
/// is of some library kind. Its target is a binary if it is that and nothing else.
pub proof fn units_are_told_by_kind_and_mode(unit: UnitGraphUnit)
    ensures
        ({
            let list = unit.target.kind@;
            &&& unit.compiles_build_script() <==> list.len() == 1 && list[0] is CustomBuild
                && unit.mode is Build
            &&& unit.runs_build_script() <==> list.len() == 1 && list[0] is CustomBuild
                && unit.mode is RunCustomBuild
            &&& unit.kinds() == seq![target::TargetKindView::Bin] <==> list.len() == 1
                && list[0] is Bin
            &&& unit.builds_library() <==> unit.mode is Build && exists|i: int|
                0 <= i < list.len() && match #[trigger] list[i] {
                    TargetKind::Lib
                    | TargetKind::RLib
                    | TargetKind::CDyLib
                    | TargetKind::DyLib
                    | TargetKind::StaticLib
                    | TargetKind::ProcMacro => true,
                    _ => false,
                }
        }),
{
    let list = unit.target.kind@;
    let kinds = unit.kinds();
    assert(kinds.len() == list.len());
    assert(forall|i: int| 0 <= i < list.len() ==> #[trigger] kinds[i] == list[i]@);
    let script = seq![target::TargetKindView::CustomBuild];
    let bin = seq![target::TargetKindView::Bin];
    assert(script[0] == target::TargetKindView::CustomBuild && script.len() == 1);
    assert(bin[0] == target::TargetKindView::Bin && bin.len() == 1);
    if list.len() == 1 && list[0] is CustomBuild {
        assert(kinds =~= script);
    }
    if list.len() == 1 && list[0] is Bin {
        assert(kinds =~= bin);
    }
    if kinds == script {
        assert(list[0]@ == script[0]);
    }
    if kinds == bin {
        assert(list[0]@ == bin[0]);
    }
    if exists|i: int|
        0 <= i < list.len() && match #[trigger] list[i] {
            TargetKind::Lib
            | TargetKind::RLib
            | TargetKind::CDyLib
            | TargetKind::DyLib
            | TargetKind::StaticLib
            | TargetKind::ProcMacro => true,
            _ => false,
        } {
        let i = choose|i: int|
            0 <= i < list.len() && match #[trigger] list[i] {
                TargetKind::Lib
                | TargetKind::RLib
                | TargetKind::CDyLib
                | TargetKind::DyLib
                | TargetKind::StaticLib
                | TargetKind::ProcMacro => true,
                _ => false,
            };
        assert(kinds.contains(kinds[i]));
        assert(kinds[i] == list[i]@);
    }
    if unit.builds_library() {
        let kind = if kinds.contains(target::TargetKindView::Lib) {
            target::TargetKindView::Lib
        } else if kinds.contains(target::TargetKindView::RLib) {
            target::TargetKindView::RLib
        } else if kinds.contains(target::TargetKindView::CDyLib) {
            target::TargetKindView::CDyLib
        } else if kinds.contains(target::TargetKindView::DyLib) {
            target::TargetKindView::DyLib
        } else if kinds.contains(target::TargetKindView::StaticLib) {
            target::TargetKindView::StaticLib
        } else {
            target::TargetKindView::ProcMacro
        };
        let i = choose|i: int| 0 <= i < kinds.len() && kinds[i] == kind;
        assert(list[i]@ == kind);
    }
}

/// What follows the last `#` of a package id, or all of it, tells the name and the version
/// around its last `@`. Without an `@` it is the version, and the name is that of the target.
pub proof fn package_ids_tell_name_and_version(
    source: Seq<char>,
    name: Seq<char>,
    version: Seq<char>,
    target_name: Seq<char>,
)
    requires
        !name.contains('#'),
        !version.contains('#'),
        !version.contains('@'),
    ensures
        ({
            let package = name + seq!['@'] + version;
            &&& unit_graph::name_and_version(source + seq!['#'] + package, target_name) == (
                name,
                version,
            )
            &&& unit_graph::name_and_version(package, target_name) == (name, version)
            &&& unit_graph::name_and_version(source + seq!['#'] + version, target_name) == (
                target_name,
                version,
            )
            &&& unit_graph::name_and_version(version, target_name) == (target_name, version)
        }),
{
    let package = name + seq!['@'] + version;
    assert(!package.contains('#')) by {
        if package.contains('#') {
            let i = choose|i: int| 0 <= i < package.len() && package[i] == '#';
            if i < name.len() {
                assert(name[i] == '#');
            } else if i > name.len() {
                assert(version[i - name.len() - 1] == '#');
            }
        }
    }
    text::rsplit_undoes_join(source, '#', package);
    text::rsplit_undoes_join(source, '#', version);
    text::rsplit_undoes_join(name, '@', version);
    lemma_unsplit(package, '#');
    lemma_unsplit(version, '#');
    lemma_unsplit(version, '@');
}

/// A text without `c` is not split at it.
proof fn lemma_unsplit(s: Seq<char>, c: char)
    requires
        !s.contains(c),
    ensures
        text::split(s, c) is None,
        text::rsplit(s, c) is None,
{
    text_laws::split_takes_a_text_apart(s, c);
    text_laws::rsplit_takes_a_text_apart(s, c);
    if text::split(s, c) is Some {
        let (before, after) = text::split(s, c)->0;
        assert(s[before.len() as int] == c);
    }
    if text::rsplit(s, c) is Some {
        let (before, after) = text::rsplit(s, c)->0;
        assert(s[before.len() as int] == c);
    }
}

/// A package id tells its source exactly if it holds a `#`.
pub proof fn sources_stand_before_a_hash_sign(pkg_id: Seq<char>)
    ensures
        unit_graph::has_source(pkg_id) <==> pkg_id.contains('#'),
{
    text_laws::rsplit_takes_a_text_apart(pkg_id, '#');
    if text::rsplit(pkg_id, '#') is Some {
        let (before, after) = text::rsplit(pkg_id, '#')->0;
        assert(pkg_id[before.len() as int] == '#');
    }
}

/// For a package are hashed: its name and its version, around its last `@`, or all of it as
/// its name, then the kind of its source and its URL, around the first `+` of the source. A
/// path below the workspace counts from there, and any other URL counts as it is.
pub proof fn packages_are_hashed_by_name_version_and_source(
    name: Seq<char>,
    version: Seq<char>,
    kind: Seq<char>,
    url: Seq<char>,
    root: Seq<char>,
)
    requires
        !name.contains('#'),
        !version.contains('#') && !version.contains('@'),
        !kind.contains('+'),
    ensures
        ({
            let source = kind + seq!['+'] + url;
            let package = name + seq!['@'] + version;
            let inputs = unit_hash::package_id_inputs(source + seq!['#'] + package, root);
            let unnamed = unit_hash::package_id_inputs(source + seq!['#'] + version, root);
            let bare = unit_hash::package_id_inputs(kind + seq!['#'] + package, root);
            let prefix = "file://"@ + root + "/"@;
            &&& inputs.len() == 4
            &&& inputs[0] == hasher::HashInput::Text(name)
            &&& inputs[1] == hasher::HashInput::Text(version)
            &&& inputs[2] == hasher::HashInput::Text(kind)
            &&& kind != "path"@ || !prefix.is_prefix_of(url) ==> inputs[3]
                == hasher::HashInput::Text(url)
            &&& forall|rest: Seq<char>|
                kind == "path"@ && url == #[trigger] (prefix + rest) ==> inputs[3]
                    == hasher::HashInput::Text(rest)
            &&& unnamed.len() == 4
            &&& unnamed[0] == hasher::HashInput::Text(version)
            &&& unnamed[1] == hasher::HashInput::Text(Seq::empty())
            &&& unnamed[2] == inputs[2]
            &&& unnamed[3] == inputs[3]
            &&& bare.len() == 4
            &&& bare[0] == inputs[0]
            &&& bare[1] == inputs[1]
            &&& bare[2] == hasher::HashInput::Text(kind)
            &&& bare[3] == hasher::HashInput::Text(Seq::empty())
        }),
{
    let source = kind + seq!['+'] + url;
    let package = name + seq!['@'] + version;
    let prefix = "file://"@ + root + "/"@;
    assert(!package.contains('#')) by {
        if package.contains('#') {
            let i = choose|i: int| 0 <= i < package.len() && package[i] == '#';
            if i < name.len() {
                assert(name[i] == '#');
            } else if i > name.len() {
                assert(version[i - name.len() - 1] == '#');
            }
        }
    }
    text::rsplit_undoes_join(source, '#', package);
    text::rsplit_undoes_join(source, '#', version);
    text::rsplit_undoes_join(kind, '#', package);
    text::rsplit_undoes_join(name, '@', version);
    text::split_undoes_join(kind, '+', url);
    lemma_unsplit(version, '@');
    lemma_unsplit(kind, '+');
    assert forall|rest: Seq<char>| kind == "path"@ && url == #[trigger] (prefix + rest) implies
        unit_hash::below(url, prefix) == rest by {
        assert(url.subrange(0, prefix.len() as int) =~= prefix);
        assert(url.subrange(prefix.len() as int, url.len() as int) =~= rest);
    }
    assert(!prefix.is_prefix_of(Seq::<char>::empty())) by {
        reveal_strlit("/");
        assert(prefix.len() > 0);
    }
}

/// The host has the platform hash zero, any other platform that of its triple alone.
pub proof fn platforms_are_hashed_by_their_triple(platform: Seq<char>)
    ensures
        unit_hash::platform_digest(None) == 0,
        unit_hash::platform_digest(Some(platform)) == hasher::stable_digest(
            seq![hasher::HashInput::Text(platform)],
        ),
{
}

/// For the version of rustc its lines are hashed in order, each as a text: all of them for
/// units that are compiled for the host, and those that do not start with `host: ` for the
/// others.
pub proof fn versions_are_hashed_line_by_line(
    lines: Seq<Seq<char>>,
    line: Seq<char>,
    host_unit: bool,
)
    ensures
        unit_hash::version_inputs(Seq::empty(), host_unit).len() == 0,
        unit_hash::version_inputs(lines.push(line), true) == unit_hash::version_inputs(
            lines,
            true,
        ).push(hasher::HashInput::Text(line)),
        (forall|rest: Seq<char>| line != #[trigger] ("host: "@ + rest))
            ==> unit_hash::version_inputs(lines.push(line), false) == unit_hash::version_inputs(
            lines,
            false,
        ).push(hasher::HashInput::Text(line)),
        (exists|rest: Seq<char>| line == #[trigger] ("host: "@ + rest))
            ==> unit_hash::version_inputs(lines.push(line), false) == unit_hash::version_inputs(
            lines,
            false,
        ),
{
    assert(lines.push(line).drop_last() =~= lines);
    let host = "host: "@;
    if host.is_prefix_of(line) {
        let rest = line.subrange(host.len() as int, line.len() as int);
        assert(line =~= host + rest);
    }
    if exists|rest: Seq<char>| line == #[trigger] (host + rest) {
        let rest = choose|rest: Seq<char>| line == #[trigger] (host + rest);
        assert(line.subrange(0, host.len() as int) =~= host);
    }
}

/// For a profile its fields are hashed, each as what it is, in the order in which Cargo has
/// them.
pub proof fn profiles_are_hashed_field_by_field(profile: UnitGraphProfile)
    ensures
        ({
            let inputs = profile.hash_inputs();
            &&& inputs.len() == 13
            &&& inputs[0] == hasher::HashInput::Text(profile.name@)
            &&& inputs[1] == hasher::HashInput::Text(profile.opt_level@)
            &&& inputs[2] == hasher::HashInput::Text(profile.lto@)
            &&& inputs[3] == hasher::HashInput::OptionalText(profile.codegen_backend.deep_view())
            &&& inputs[4] == hasher::HashInput::OptionalNumber(profile.codegen_units)
            &&& inputs[5] == hasher::HashInput::OptionalNumber(profile.debuginfo)
            &&& inputs[6] == hasher::HashInput::OptionalText(profile.split_debuginfo.deep_view())
            &&& inputs[7] == hasher::HashInput::Flag(profile.debug_assertions)
            &&& inputs[8] == hasher::HashInput::Flag(profile.overflow_checks)
            &&& inputs[9] == hasher::HashInput::Flag(profile.rpath)
            &&& inputs[10] == hasher::HashInput::Flag(profile.incremental)
            &&& inputs[11] == hasher::HashInput::Discriminant(
                if profile.panic is Unwind {
                    0
                } else {
                    1
                },
            )
            &&& inputs[12] == hasher::HashInput::OptionalJson(profile.strip)
        }),
{
}

/// The two profiles agree in all that is hashed of them.
pub open spec fn same_profile(a: UnitGraphProfile, b: UnitGraphProfile) -> bool {
    &&& a.name@ == b.name@
    &&& a.opt_level@ == b.opt_level@
    &&& a.lto@ == b.lto@
    &&& a.codegen_backend.deep_view() == b.codegen_backend.deep_view()
    &&& a.codegen_units == b.codegen_units
    &&& a.debuginfo == b.debuginfo
    &&& a.split_debuginfo.deep_view() == b.split_debuginfo.deep_view()
    &&& a.debug_assertions == b.debug_assertions
    &&& a.overflow_checks == b.overflow_checks
    &&& a.rpath == b.rpath
    &&& a.incremental == b.incremental
    &&& a.panic == b.panic
    &&& a.strip == b.strip
}

/// What is hashed for a profile tells all its fields.
pub proof fn hashed_profiles_are_told_apart(a: UnitGraphProfile, b: UnitGraphProfile)
    ensures
        a.hash_inputs() == b.hash_inputs() ==> same_profile(a, b),
{
    profiles_are_hashed_field_by_field(a);
    profiles_are_hashed_field_by_field(b);
    if a.hash_inputs() == b.hash_inputs() {
        let x = a.hash_inputs();
        let y = b.hash_inputs();
        assert(forall|i: int| 0 <= i < 13 ==> x[i] == y[i]);
        assert(x[0] == y[0] && x[1] == y[1] && x[2] == y[2] && x[3] == y[3]);
        assert(x[4] == y[4] && x[5] == y[5] && x[6] == y[6] && x[7] == y[7]);
        assert(x[8] == y[8] && x[9] == y[9] && x[10] == y[10] && x[11] == y[11]);
        assert(x[12] == y[12]);
    }
}

/// For a unit by itself are hashed its package id, the name and the kinds of its target, its
/// profile, its platform, its mode, its features, and whether it belongs to the standard
/// library, in this order.
pub proof fn units_are_hashed_field_by_field(unit: UnitGraphUnit)
    ensures
        ({
            let inputs = unit.hash_inputs();
            &&& inputs.len() == 20
            &&& inputs[0] == hasher::HashInput::Text(unit.pkg_id@)
            &&& inputs[1] == hasher::HashInput::Text(unit.target.name@)
            &&& inputs[2] == hasher::HashInput::TargetKinds(target::kinds(unit.target.kind@))
            &&& inputs.subrange(3, 16) == unit.profile.hash_inputs()
            &&& inputs[16] == hasher::HashInput::OptionalText(unit.platform.deep_view())
            &&& inputs[17] == hasher::HashInput::Discriminant(unit.mode.position())
            &&& inputs[18] == hasher::HashInput::Texts(unit.features.deep_view())
            &&& inputs[19] == hasher::HashInput::Flag(unit.is_std)
        }),
{
    assert(unit.hash_inputs().subrange(3, 16) =~= unit.profile.hash_inputs());
}

/// What is hashed for a unit by itself tells all that is hashed of it.
pub proof fn hashed_units_are_told_apart(a: UnitGraphUnit, b: UnitGraphUnit)
    requires
        a.hash_inputs() == b.hash_inputs(),
    ensures
        a.pkg_id@ == b.pkg_id@,
        a.target.name@ == b.target.name@,
        target::kinds(a.target.kind@) == target::kinds(b.target.kind@),
        same_profile(a.profile, b.profile),
        a.platform.deep_view() == b.platform.deep_view(),
        a.mode == b.mode,
        a.features.deep_view() == b.features.deep_view(),
        a.is_std == b.is_std,
{
    units_are_hashed_field_by_field(a);
    units_are_hashed_field_by_field(b);
    hashed_profiles_are_told_apart(a.profile, b.profile);
    numbers_tell_modes_and_strategies(a.mode, b.mode, a.profile.panic, b.profile.panic);
    let x = a.hash_inputs();
    let y = b.hash_inputs();
    assert(x[0] == y[0] && x[1] == y[1] && x[2] == y[2] && x[16] == y[16] && x[17] == y[17]
        && x[18] == y[18] && x[19] == y[19]);
}

/// For the hashes of a unit are hashed, whatever it depends on: the version of the way, the
/// package, the features, the profile, the mode, the setting for link-time optimization, the
/// hash of the platform, the name and the kinds of the target, the version of rustc, and
/// whether the unit belongs to the standard library, in this order.
pub proof fn shared_inputs_are_hashed_in_order(
    unit: UnitGraphUnit,
    version: Seq<char>,
    host_unit: bool,
    root: Seq<char>,
)
    ensures
        ({
            let inputs = unit_hash::shared_inputs(unit, version, host_unit, root);
            let lines = unit_hash::version_inputs(text::lines_of(version), host_unit);
            let n = lines.len() as int;
            &&& inputs.len() == n + 25
            &&& inputs[0] == hasher::HashInput::Byte(2)
            &&& inputs.subrange(1, 5) == unit_hash::package_id_inputs(unit.pkg_id@, root)
            &&& inputs[5] == hasher::HashInput::Texts(unit.features.deep_view())
            &&& inputs.subrange(6, 19) == unit.profile.hash_inputs()
            &&& inputs[19] == hasher::HashInput::Discriminant(unit.mode.position())
            &&& inputs[20] == hasher::HashInput::Text(unit.profile.lto@)
            &&& inputs[21] == hasher::HashInput::Number(
                unit_hash::platform_digest(unit.platform.deep_view()),
            )
            &&& inputs[22] == hasher::HashInput::Text(unit.target.name@)
            &&& inputs[23] == hasher::HashInput::TargetKinds(target::kinds(unit.target.kind@))
            &&& inputs.subrange(24, 24 + n) == lines
            &&& inputs[24 + n] == hasher::HashInput::Flag(unit.is_std)
        }),
{
    let inputs = unit_hash::shared_inputs(unit, version, host_unit, root);
    let package = unit_hash::package_id_inputs(unit.pkg_id@, root);
    let lines = unit_hash::version_inputs(text::lines_of(version), host_unit);
    assert(package.len() == 4);
    assert(unit.profile.hash_inputs().len() == 13);
    assert(inputs.subrange(1, 5) =~= package);
    assert(inputs.subrange(6, 19) =~= unit.profile.hash_inputs());
    assert(inputs.subrange(24, (24 + lines.len()) as int) =~= lines);
}

/// What is hashed for the hashes of a unit tells all that is hashed of it: two units that
/// differ in a feature, a field of the profile, the mode, the hash of the platform, the name
/// or the kinds of the target, what is hashed for the package or for the version of rustc,
/// or in whether they belong to the standard library, are hashed from different inputs.
pub proof fn hashed_inputs_tell_units_apart(
    a: UnitGraphUnit,
    b: UnitGraphUnit,
    version: Seq<char>,
    other_version: Seq<char>,
    host_unit: bool,
    other_host_unit: bool,
    root: Seq<char>,
    other_root: Seq<char>,
)
    requires
        unit_hash::shared_inputs(a, version, host_unit, root) == unit_hash::shared_inputs(
            b,
            other_version,
            other_host_unit,
            other_root,
        ),
    ensures
        unit_hash::package_id_inputs(a.pkg_id@, root) == unit_hash::package_id_inputs(
            b.pkg_id@,
            other_root,
        ),
        a.features.deep_view() == b.features.deep_view(),
        same_profile(a.profile, b.profile),
        a.mode == b.mode,
        unit_hash::platform_digest(a.platform.deep_view()) == unit_hash::platform_digest(
            b.platform.deep_view(),
        ),
        a.target.name@ == b.target.name@,
        target::kinds(a.target.kind@) == target::kinds(b.target.kind@),
        unit_hash::version_inputs(text::lines_of(version), host_unit) == unit_hash::version_inputs(
            text::lines_of(other_version),
            other_host_unit,
        ),
        a.is_std == b.is_std,
{
    let x = unit_hash::shared_inputs(a, version, host_unit, root);
    let y = unit_hash::shared_inputs(b, other_version, other_host_unit, other_root);
    shared_inputs_are_hashed_in_order(a, version, host_unit, root);
    shared_inputs_are_hashed_in_order(b, other_version, other_host_unit, other_root);
    hashed_profiles_are_told_apart(a.profile, b.profile);
    numbers_tell_modes_and_strategies(a.mode, b.mode, a.profile.panic, b.profile.panic);
    assert(x[5] == y[5] && x[19] == y[19] && x[21] == y[21] && x[22] == y[22] && x[23] == y[23]);
    assert(x[x.len() - 1] == y[y.len() - 1]);
}

/// The unit id is the hash of what is hashed for the unit, then of the unit ids of its
/// dependencies in rising order, then of no flags. The crate hash is that of the same, then
/// of the crate hashes of the dependencies in rising order.
pub proof fn metadata_is_hashed_from_unit_and_dependencies(
    unit: UnitGraphUnit,
    deps: Seq<Metadata>,
    ids: Seq<u64>,
    crates: Seq<u64>,
    version: Seq<char>,
    host_unit: bool,
    root: Seq<char>,
)
    requires
        ids.to_multiset() == Seq::new(deps.len(), |k: int| deps[k].unit_id).to_multiset(),
        crates.to_multiset() == Seq::new(deps.len(), |k: int| deps[k].c_metadata).to_multiset(),
        forall|i: int, j: int| 0 <= i < j < ids.len() ==> ids[i] <= ids[j],
        forall|i: int, j: int| 0 <= i < j < crates.len() ==> crates[i] <= crates[j],
    ensures
        ({
            let shared = unit_hash::shared_inputs(unit, version, host_unit, root);
            let metadata = unit_hash::metadata_of(unit, deps, version, host_unit, root);
            &&& metadata.unit_id == hasher::stable_digest(
                shared.push(hasher::HashInput::Numbers(ids)).push(
                    hasher::HashInput::Texts(Seq::empty()),
                ),
            )
            &&& metadata.c_metadata == hasher::stable_digest(
                shared.push(hasher::HashInput::Numbers(crates)),
            )
        }),
{
    let shared = unit_hash::shared_inputs(unit, version, host_unit, root);
    assert(unit_hash::unit_ids(deps) =~= Seq::new(deps.len(), |k: int| deps[k].unit_id));
    assert(unit_hash::c_metadatas(deps) =~= Seq::new(deps.len(), |k: int| deps[k].c_metadata));
    lemma_rising(unit_hash::unit_ids(deps), ids);
    lemma_rising(unit_hash::c_metadatas(deps), crates);
    assert(shared + seq![
        hasher::HashInput::Numbers(ids),
        hasher::HashInput::Texts(Seq::empty()),
    ] =~= shared.push(hasher::HashInput::Numbers(ids)).push(
        hasher::HashInput::Texts(Seq::empty()),
    ));
    assert(shared + seq![hasher::HashInput::Numbers(crates)] =~= shared.push(
        hasher::HashInput::Numbers(crates),
    ));
}

proof fn lemma_rising(numbers: Seq<u64>, sorted: Seq<u64>)
    requires
        numbers.to_multiset() == sorted.to_multiset(),
        forall|i: int, j: int| 0 <= i < j < sorted.len() ==> sorted[i] <= sorted[j],
    ensures
        unit_hash::rising(numbers) == sorted,
{
    let order = unit_hash::at_most();
    assert(total_ordering(order));
    numbers.lemma_sort_by_ensures(order);
    assert(sorted_by(sorted, order));
    vstd::seq_lib::lemma_sorted_unique(unit_hash::rising(numbers), sorted, order);
}

/// In a table in which every entry follows from the others, the entry of a unit is made of
/// the unit itself and the entries of the units that its dependencies name, in their order,
/// and the unit counts as one of the host exactly if no platform was asked for.
pub proof fn entries_are_made_of_the_dependencies(
    units: Seq<UnitGraphUnit>,
    version: Seq<char>,
    root: Seq<char>,
    table: Map<usize, Metadata>,
    i: usize,
)
    requires
        unit_hash::table_follows(units, version, root, table),
        table.contains_key(i),
    ensures
        i < units.len(),
        units[i as int].pkg_id@.contains('#'),
        forall|k: int|
            0 <= k < units[i as int].dependencies@.len() ==> table.contains_key(
                (#[trigger] units[i as int].dependencies@[k]).index,
            ),
        table[i] == unit_hash::metadata_of(
            units[i as int],
            Seq::new(
                units[i as int].dependencies@.len(),
                |k: int| table[units[i as int].dependencies@[k].index],
            ),
            version,
            units[i as int].platform is None,
            root,
        ),
{
    let unit = units[i as int];
    assert(unit_hash::entry_follows(units, version, root, table, i));
    sources_stand_before_a_hash_sign(unit.pkg_id@);
    assert(unit_hash::dep_metadata(unit, table) =~= Seq::new(
        unit.dependencies@.len(),
        |k: int| table[unit.dependencies@[k].index],
    ));
}

/// The value of a hexadecimal digit in lower case.
pub open spec fn digit_value(c: char) -> int {
    if '0' <= c <= '9' {
        c as int - '0' as int
    } else {
        c as int - 'a' as int + 10
    }
}

/// The number that hexadecimal digits stand for.
pub open spec fn hex_value(digits: Seq<char>) -> int
    decreases digits.len(),
{
    if digits.len() == 0 {
        0
    } else {
        hex_value(digits.drop_last()) * 16 + digit_value(digits.last())
    }
}

proof fn lemma_hex_value(value: int, count: nat)
    requires
        0 <= value < vstd::arithmetic::power::pow(16, count),
    ensures
        hex_value(unit_hash::hex_digits(value, count)) == value,
        unit_hash::hex_digits(value, count).len() == count,
        forall|i: int|
            0 <= i < count ==> {
                let c = #[trigger] unit_hash::hex_digits(value, count)[i];
                '0' <= c <= '9' || 'a' <= c <= 'f'
            },
    decreases count,
{
    reveal(vstd::arithmetic::power::pow);
    if count > 0 {
        let fewer = (count - 1) as nat;
        let digits = unit_hash::hex_digits(value, count);
        lemma_hex_value(value / 16, fewer);
        assert(digits.drop_last() =~= unit_hash::hex_digits(value / 16, fewer));
        assert(digit_value(unit_hash::hex_digit(value % 16)) == value % 16);
        assert forall|i: int| 0 <= i < count implies {
            let c = #[trigger] digits[i];
            '0' <= c <= '9' || 'a' <= c <= 'f'
        } by {
            if i < fewer {
                assert(digits[i] == unit_hash::hex_digits(value / 16, fewer)[i]);
            }
        }
    }
}

/// A unit hash is made of sixteen hexadecimal digits in lower case, and reads as the unit id.
pub proof fn unit_hashes_read_as_unit_ids(id: u64)
    ensures
        ({
            let digits = unit_hash::hex_digits(id as int, 16);
            &&& digits.len() == 16
            &&& forall|i: int|
                0 <= i < 16 ==> '0' <= #[trigger] digits[i] <= '9' || 'a' <= digits[i] <= 'f'
            &&& hex_value(digits) == id
        }),
{
    assert(vstd::arithmetic::power::pow(16, 16) == 0x1_0000_0000_0000_0000) by {
        reveal_with_fuel(vstd::arithmetic::power::pow, 17);
    }
    lemma_hex_value(id as int, 16);
}

} // verus!
