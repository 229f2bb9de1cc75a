//! The hasher of unit hashes: the stable hasher of rustc, told apart from others only
//! by the values that were hashed and their order.
use vstd::prelude::*;

use std::hash::{Hash, Hasher};

use cargo_metadata::TargetKind as CargoKind;
use rustc_stable_hash::StableSipHasher128;

use crate::target;
use crate::target::TargetKind;

verus! {

/// A JSON value, carried through as it is.
#[verifier::external_type_specification]
#[verifier::external_body]
pub struct ExJsonValue(serde_json::Value);

/// A value that was hashed.
pub enum HashInput {
    Byte(u8),
    Number(u64),
    Numbers(Seq<u64>),
    /// The position of a variant among the variants of its enum.
    Discriminant(isize),
    Flag(bool),
    Text(Seq<char>),
    Texts(Seq<Seq<char>>),
    OptionalNumber(Option<u64>),
    OptionalText(Option<Seq<char>>),
    /// The kinds of a target.
    TargetKinds(Seq<target::TargetKindView>),
    OptionalJson(Option<serde_json::Value>),
}

/// A hasher. The type that it holds has a parameter with a bound that is unknown to
/// Verus.
#[verifier::external_body]
pub struct UnitHasher {
    inner: StableSipHasher128,
}

/// What was hashed with the hasher, in order.
pub uninterp spec fn hashed(hasher: UnitHasher) -> Seq<HashInput>;

/// The hash of a sequence of values: what `Hasher::finish` of
/// `rustc_stable_hash::StableSipHasher128` gives for a new hasher that was fed with
/// them. It depends on them alone: the hasher has fixed keys and widens numbers to one
/// size and one order of bytes. Lists of numbers are the one exception: `Vec::<u64>::hash`
/// feeds them in the byte order of the machine, and the hash is that of machines with
/// the byte order of the one at hand.
pub uninterp spec fn stable_digest(inputs: Seq<HashInput>) -> u64;

impl UnitHasher {
    /// `StableSipHasher128::new`: a hasher with which nothing was hashed.
    #[verifier::external_body]
    fn fresh() -> (result: Self)
        ensures
            hashed(result) == Seq::<HashInput>::empty(),
    {
        UnitHasher { inner: StableSipHasher128::new() }
    }

    /// `StableSipHasher128::clone`: a hasher with which the same was hashed.
    #[verifier::external_body]
    pub(crate) fn duplicate(&self) -> (result: Self)
        ensures
            hashed(result) == hashed(*self),
    {
        UnitHasher { inner: self.inner.clone() }
    }

    /// `Hasher::finish` of `StableSipHasher128`: the hash of what was hashed.
    #[verifier::external_body]
    fn digest(&self) -> (result: u64)
        ensures
            result == stable_digest(hashed(*self)),
    {
        Hasher::finish(&self.inner)
    }

    /// `u8::hash`: hashes a byte.
    #[verifier::external_body]
    pub(crate) fn hash_byte(&mut self, value: u8)
        ensures
            hashed(*final(self)) == hashed(*old(self)).push(HashInput::Byte(value)),
    {
        value.hash(&mut self.inner)
    }

    /// `u64::hash`: hashes a number.
    #[verifier::external_body]
    pub(crate) fn hash_number(&mut self, value: u64)
        ensures
            hashed(*final(self)) == hashed(*old(self)).push(HashInput::Number(value)),
    {
        value.hash(&mut self.inner)
    }

    /// `Vec::<u64>::hash`: hashes a list of numbers.
    #[verifier::external_body]
    pub(crate) fn hash_numbers(&mut self, value: &Vec<u64>)
        ensures
            hashed(*final(self)) == hashed(*old(self)).push(HashInput::Numbers(value@)),
    {
        value.hash(&mut self.inner)
    }

    /// `isize::hash`: hashes the position of a variant, as a derived `Hash` does.
    #[verifier::external_body]
    pub(crate) fn hash_discriminant(&mut self, value: isize)
        ensures
            hashed(*final(self)) == hashed(*old(self)).push(HashInput::Discriminant(value)),
    {
        value.hash(&mut self.inner)
    }

    /// `bool::hash`: hashes a flag.
    #[verifier::external_body]
    pub(crate) fn hash_flag(&mut self, value: bool)
        ensures
            hashed(*final(self)) == hashed(*old(self)).push(HashInput::Flag(value)),
    {
        value.hash(&mut self.inner)
    }

    /// `str::hash`: hashes a text.
    #[verifier::external_body]
    pub(crate) fn hash_text(&mut self, value: &str)
        ensures
            hashed(*final(self)) == hashed(*old(self)).push(HashInput::Text(value@)),
    {
        value.hash(&mut self.inner)
    }

    /// `Vec::<String>::hash`: hashes a list of texts.
    #[verifier::external_body]
    pub(crate) fn hash_texts(&mut self, value: &Vec<String>)
        ensures
            hashed(*final(self)) == hashed(*old(self)).push(HashInput::Texts(value.deep_view())),
    {
        value.hash(&mut self.inner)
    }

    /// `Option::<u64>::hash`: hashes a number that may be missing.
    #[verifier::external_body]
    pub(crate) fn hash_optional_number(&mut self, value: &Option<u64>)
        ensures
            hashed(*final(self)) == hashed(*old(self)).push(HashInput::OptionalNumber(*value)),
    {
        value.hash(&mut self.inner)
    }

    /// `Option::<String>::hash`: hashes a text that may be missing.
    #[verifier::external_body]
    pub(crate) fn hash_optional_text(&mut self, value: &Option<String>)
        ensures
            hashed(*final(self)) == hashed(*old(self)).push(
                HashInput::OptionalText(value.deep_view()),
            ),
    {
        value.hash(&mut self.inner)
    }

    /// `Vec::<cargo_metadata::TargetKind>::hash`: hashes the kinds of a target, each as the
    /// variant of `cargo_metadata::TargetKind` with the same name, and an unknown one with
    /// the same text.
    #[verifier::external_body]
    pub(crate) fn hash_target_kinds(&mut self, list: &Vec<TargetKind>)
        ensures
            hashed(*final(self)) == hashed(*old(self)).push(
                HashInput::TargetKinds(target::kinds(list@)),
            ),
    {
        let kinds = list.iter().map(|kind| match kind {
            TargetKind::Bench => CargoKind::Bench,
            TargetKind::Bin => CargoKind::Bin,
            TargetKind::CustomBuild => CargoKind::CustomBuild,
            TargetKind::CDyLib => CargoKind::CDyLib,
            TargetKind::DyLib => CargoKind::DyLib,
            TargetKind::Example => CargoKind::Example,
            TargetKind::Lib => CargoKind::Lib,
            TargetKind::ProcMacro => CargoKind::ProcMacro,
            TargetKind::RLib => CargoKind::RLib,
            TargetKind::StaticLib => CargoKind::StaticLib,
            TargetKind::Test => CargoKind::Test,
            TargetKind::Unknown(name) => CargoKind::Unknown(name.clone()),
        });
        kinds.collect::<Vec<CargoKind>>().hash(&mut self.inner)
    }

    /// `Option::<serde_json::Value>::hash`: hashes a JSON value that may be missing.
    #[verifier::external_body]
    pub(crate) fn hash_optional_json(&mut self, value: &Option<serde_json::Value>)
        ensures
            hashed(*final(self)) == hashed(*old(self)).push(HashInput::OptionalJson(*value)),
    {
        value.hash(&mut self.inner)
    }

    /// A hasher with which nothing was hashed.
    pub fn new() -> (result: Self)
        ensures
            hashed(result) == Seq::<HashInput>::empty(),
    {
        Self::fresh()
    }

    /// The hash of what was hashed.
    pub fn finish(&self) -> (result: u64)
        ensures
            result == stable_digest(hashed(*self)),
    {
        self.digest()
    }
}

} // verus!
