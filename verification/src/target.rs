//! What a build compiles for: target kinds, compile modes and platforms.
use vstd::prelude::*;

use crate::text;

verus! {

/// The kind of a Cargo target.
#[derive(Clone, PartialEq, Eq, Debug)]
pub enum TargetKind {
    Bench,
    Bin,
    CustomBuild,
    CDyLib,
    DyLib,
    Example,
    Lib,
    ProcMacro,
    RLib,
    StaticLib,
    Test,
    /// A kind that has no name here, as Cargo spells it.
    Unknown(String),
}

/// What a [`TargetKind`] stands for.
pub enum TargetKindView {
    Bench,
    Bin,
    CustomBuild,
    CDyLib,
    DyLib,
    Example,
    Lib,
    ProcMacro,
    RLib,
    StaticLib,
    Test,
    Unknown(Seq<char>),
}

impl View for TargetKind {
    type V = TargetKindView;

    open spec fn view(&self) -> TargetKindView {
        match self {
            TargetKind::Bench => TargetKindView::Bench,
            TargetKind::Bin => TargetKindView::Bin,
            TargetKind::CustomBuild => TargetKindView::CustomBuild,
            TargetKind::CDyLib => TargetKindView::CDyLib,
            TargetKind::DyLib => TargetKindView::DyLib,
            TargetKind::Example => TargetKindView::Example,
            TargetKind::Lib => TargetKindView::Lib,
            TargetKind::ProcMacro => TargetKindView::ProcMacro,
            TargetKind::RLib => TargetKindView::RLib,
            TargetKind::StaticLib => TargetKindView::StaticLib,
            TargetKind::Test => TargetKindView::Test,
            TargetKind::Unknown(name) => TargetKindView::Unknown(name@),
        }
    }
}

/// The kinds of a target.
pub open spec fn kinds(list: Seq<TargetKind>) -> Seq<TargetKindView> {
    list.map_values(|kind: TargetKind| kind@)
}

/// The kind is a library of some kind.
pub open spec fn is_library(kind: TargetKindView) -> bool {
    match kind {
        TargetKindView::Lib | TargetKindView::RLib | TargetKindView::CDyLib
        | TargetKindView::DyLib | TargetKindView::StaticLib | TargetKindView::ProcMacro => true,
        _ => false,
    }
}

/// Whether the target is a build script and nothing else.
pub fn only_custom_build(list: &Vec<TargetKind>) -> (result: bool)
    ensures
        result == (kinds(list@) == seq![TargetKindView::CustomBuild]),
{
    if list.len() == 1 && matches!(list[0], TargetKind::CustomBuild) {
        assert(kinds(list@) =~= seq![TargetKindView::CustomBuild]);
        true
    } else {
        proof {
            if kinds(list@) == seq![TargetKindView::CustomBuild] {
                assert(kinds(list@).len() == 1);
                assert(kinds(list@)[0] == list@[0]@);
            }
        }
        false
    }
}

/// Whether the target is a binary and nothing else.
pub fn only_bin(list: &Vec<TargetKind>) -> (result: bool)
    ensures
        result == (kinds(list@) == seq![TargetKindView::Bin]),
{
    if list.len() == 1 && matches!(list[0], TargetKind::Bin) {
        assert(kinds(list@) =~= seq![TargetKindView::Bin]);
        true
    } else {
        proof {
            if kinds(list@) == seq![TargetKindView::Bin] {
                assert(kinds(list@).len() == 1);
                assert(kinds(list@)[0] == list@[0]@);
            }
        }
        false
    }
}

/// How Cargo compiles a unit.
#[derive(Clone, Copy, PartialEq, Eq, Debug, Structural)]
pub enum CargoCompileMode {
    Test,
    Build,
    Check,
    Doc,
    Doctest,
    Docscrape,
    RunCustomBuild,
}

impl CargoCompileMode {
    /// The position of the mode among the modes.
    pub open spec fn position(self) -> isize {
        match self {
            CargoCompileMode::Test => 0,
            CargoCompileMode::Build => 1,
            CargoCompileMode::Check => 2,
            CargoCompileMode::Doc => 3,
            CargoCompileMode::Doctest => 4,
            CargoCompileMode::Docscrape => 5,
            CargoCompileMode::RunCustomBuild => 6,
        }
    }

    /// The position of the mode among the modes.
    pub fn discriminant(&self) -> (result: isize)
        ensures
            result == self.position(),
    {
        match self {
            CargoCompileMode::Test => 0,
            CargoCompileMode::Build => 1,
            CargoCompileMode::Check => 2,
            CargoCompileMode::Doc => 3,
            CargoCompileMode::Doctest => 4,
            CargoCompileMode::Docscrape => 5,
            CargoCompileMode::RunCustomBuild => 6,
        }
    }
}

/// A platform that rustc compiles for.
#[derive(Clone, PartialEq, Eq, Debug)]
pub enum RustcTargetPlatform {
    /// A platform that the cache supports, by its target triple.
    Supported(String),
    /// Any other platform, by its target triple.
    Unsupported(String),
}

impl RustcTargetPlatform {
    /// The target triple.
    pub open spec fn triple(self) -> Seq<char> {
        match self {
            RustcTargetPlatform::Supported(triple) => triple@,
            RustcTargetPlatform::Unsupported(triple) => triple@,
        }
    }

    /// Whether the two values stand for the same platform.
    pub open spec fn is_same(self, other: Self) -> bool {
        &&& self is Supported <==> other is Supported
        &&& self.triple() == other.triple()
    }

    /// The platform with the target triple `triple`, if it is among the `supported`
    /// ones.
    pub fn try_from_str(triple: &str, supported: &Vec<String>) -> (result: Option<Self>)
        ensures
            match result {
                Some(platform) => {
                    &&& supported.deep_view().contains(triple@)
                    &&& platform is Supported
                    &&& platform.triple() == triple@
                },
                None => !supported.deep_view().contains(triple@),
            },
    {
        let mut i: usize = 0;
        while i < supported.len()
            invariant
                i <= supported@.len(),
                forall|j: int| 0 <= j < i ==> supported@[j]@ != triple@,
            decreases supported@.len() - i,
        {
            if text::same(supported[i].as_str(), triple) {
                assert(supported.deep_view()[i as int] == triple@);
                return Some(RustcTargetPlatform::Supported(triple.to_owned()));
            }
            i = i + 1;
        }
        None
    }

    /// The target triple.
    pub fn as_str(&self) -> (result: &str)
        ensures
            result@ == self.triple(),
    {
        match self {
            RustcTargetPlatform::Supported(triple) => triple.as_str(),
            RustcTargetPlatform::Unsupported(triple) => triple.as_str(),
        }
    }

    /// Whether the two values stand for the same platform.
    pub fn same(&self, other: &Self) -> (result: bool)
        ensures
            result == self.is_same(*other),
    {
        match (self, other) {
            (RustcTargetPlatform::Supported(a), RustcTargetPlatform::Supported(b)) => text::same(
                a.as_str(),
                b.as_str(),
            ),
            (
                RustcTargetPlatform::Unsupported(a),
                RustcTargetPlatform::Unsupported(b),
            ) => text::same(a.as_str(), b.as_str()),
            _ => false,
        }
    }
}

/// What a unit is compiled for.
#[derive(Clone, PartialEq, Eq, Debug)]
pub enum RustcTarget {
    /// A platform that was asked for.
    Specified(RustcTargetPlatform),
    /// The platform that the build runs on.
    ImplicitHost,
}

impl RustcTarget {
    /// The platform that the target means on the host `host`.
    pub open spec fn resolved(self, host: RustcTargetPlatform) -> RustcTargetPlatform {
        match self {
            RustcTarget::Specified(platform) => platform,
            RustcTarget::ImplicitHost => host,
        }
    }

    /// The platform that the target means on the host `host`.
    pub fn resolve<'a>(&'a self, host: &'a RustcTargetPlatform) -> (result:
        &'a RustcTargetPlatform)
        ensures
            *result == self.resolved(*host),
    {
        match self {
            RustcTarget::Specified(platform) => platform,
            RustcTarget::ImplicitHost => host,
        }
    }
}

} // verus!
