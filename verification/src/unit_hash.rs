//! The hashes that Cargo gives to the units of a build.
use vstd::prelude::*;
use vstd::relations::*;
use vstd::seq_lib::*;

use std::collections::HashMap;

use crate::hasher;
use crate::hasher::UnitHasher;
use crate::target;
use crate::text;
use crate::unit_graph;
use crate::unit_graph::{UnitGraphError, UnitGraphUnit};
use crate::unit_walk;

verus! {

broadcast use vstd::std_specs::hash::group_hash_axioms;

/// The version of the way in which units are hashed.
pub const METADATA_VERSION: u8 = 2;

/// The hashes of a unit.
#[derive(Clone, Copy, Eq, PartialEq, Hash, Ord, PartialOrd, Debug)]
pub struct Metadata {
    pub unit_id: u64,
    pub c_metadata: u64,
}

/// The hexadecimal digit of a number below 16, in lower case.
pub open spec fn hex_digit(value: int) -> char {
    if value < 10 {
        ('0' as int + value) as char
    } else {
        ('a' as int + (value - 10)) as char
    }
}

/// The last `count` hexadecimal digits of a number.
pub open spec fn hex_digits(value: int, count: nat) -> Seq<char>
    decreases count,
{
    if count == 0 {
        Seq::empty()
    } else {
        hex_digits(value / 16, (count - 1) as nat).push(hex_digit(value % 16))
    }
}

/// The text of a hexadecimal digit.
fn digit_text(value: u64) -> (result: &'static str)
    requires
        value < 16,
    ensures
        result@ == seq![hex_digit(value as int)],
{
    proof {
        reveal_strlit("0");
        reveal_strlit("1");
        reveal_strlit("2");
        reveal_strlit("3");
        reveal_strlit("4");
        reveal_strlit("5");
        reveal_strlit("6");
        reveal_strlit("7");
        reveal_strlit("8");
        reveal_strlit("9");
        reveal_strlit("a");
        reveal_strlit("b");
        reveal_strlit("c");
        reveal_strlit("d");
        reveal_strlit("e");
        reveal_strlit("f");
    }
    let result = if value == 0 {
        "0"
    } else if value == 1 {
        "1"
    } else if value == 2 {
        "2"
    } else if value == 3 {
        "3"
    } else if value == 4 {
        "4"
    } else if value == 5 {
        "5"
    } else if value == 6 {
        "6"
    } else if value == 7 {
        "7"
    } else if value == 8 {
        "8"
    } else if value == 9 {
        "9"
    } else if value == 10 {
        "a"
    } else if value == 11 {
        "b"
    } else if value == 12 {
        "c"
    } else if value == 13 {
        "d"
    } else if value == 14 {
        "e"
    } else {
        "f"
    };
    assert(result@ =~= seq![hex_digit(value as int)]);
    result
}

/// The last `count` hexadecimal digits of a number, as text.
fn hex_text(value: u64, count: usize) -> (result: String)
    ensures
        result@ == hex_digits(value as int, count as nat),
    decreases count,
{
    if count == 0 {
        String::new()
    } else {
        let mut result = hex_text(value / 16, count - 1);
        let ghost before = result@;
        result.append(digit_text(value % 16));
        assert(result@ =~= before.push(hex_digit(value as int % 16)));
        result
    }
}

impl Metadata {
    /// The unit hash: the unit id in hexadecimal, with leading zeros.
    pub fn unit_hash(self) -> (result: String)
        ensures
            result@ == hex_digits(self.unit_id as int, 16),
    {
        hex_text(self.unit_id, 16)
    }
}

proof fn lemma_hex_digit_injective(a: int, b: int)
    requires
        0 <= a < 16,
        0 <= b < 16,
        hex_digit(a) == hex_digit(b),
    ensures
        a == b,
{
}

proof fn lemma_hex_digits_injective(a: int, b: int, count: nat)
    requires
        0 <= a < vstd::arithmetic::power::pow(16, count),
        0 <= b < vstd::arithmetic::power::pow(16, count),
        hex_digits(a, count) == hex_digits(b, count),
    ensures
        a == b,
    decreases count,
{
    reveal(vstd::arithmetic::power::pow);
    if count > 0 {
        let fewer = (count - 1) as nat;
        let x = hex_digits(a, count);
        let y = hex_digits(b, count);
        assert(x.drop_last() =~= hex_digits(a / 16, fewer));
        assert(y.drop_last() =~= hex_digits(b / 16, fewer));
        assert(x.last() == y.last());
        lemma_hex_digit_injective(a % 16, b % 16);
        lemma_hex_digits_injective(a / 16, b / 16, fewer);
    }
}

proof fn lemma_hex_digits_len(value: int, count: nat)
    ensures
        hex_digits(value, count).len() == count,
    decreases count,
{
    if count > 0 {
        lemma_hex_digits_len(value / 16, (count - 1) as nat);
    }
}

/// A unit hash has sixteen digits, and tells the unit id: units with different ids have
/// different unit hashes.
pub proof fn unit_hash_tells_unit_id(a: u64, b: u64)
    ensures
        hex_digits(a as int, 16).len() == 16,
        hex_digits(a as int, 16) == hex_digits(b as int, 16) ==> a == b,
{
    lemma_hex_digits_len(a as int, 16);
    if hex_digits(a as int, 16) == hex_digits(b as int, 16) {
        assert(vstd::arithmetic::power::pow(16, 16) == 0x1_0000_0000_0000_0000) by {
            reveal_with_fuel(vstd::arithmetic::power::pow, 17);
        }
        lemma_hex_digits_injective(a as int, b as int, 16);
    }
}

/// The order of numbers.
pub open spec fn at_most() -> spec_fn(u64, u64) -> bool {
    |a: u64, b: u64| a <= b
}

/// The numbers in rising order.
pub open spec fn rising(numbers: Seq<u64>) -> Seq<u64> {
    numbers.sort_by(at_most())
}

proof fn lemma_at_most_is_total()
    ensures
        total_ordering(at_most()),
{
}

/// Adds a number to numbers in rising order.
fn insert_rising(numbers: &mut Vec<u64>, number: u64)
    requires
        sorted_by(old(numbers)@, at_most()),
    ensures
        sorted_by(final(numbers)@, at_most()),
        final(numbers)@.to_multiset() == old(numbers)@.to_multiset().insert(number),
{
    broadcast use group_to_multiset_ensures;

    let mut i: usize = 0;
    while i < numbers.len() && numbers[i] < number
        invariant
            i <= numbers@.len(),
            numbers@ == old(numbers)@,
            forall|j: int| 0 <= j < i ==> numbers@[j] < number,
        decreases numbers@.len() - i,
    {
        i = i + 1;
    }
    let ghost before = numbers@;
    numbers.insert(i, number);
    proof {
        let after = numbers@;
        to_multiset_insert(before, i as int, number);
        assert forall|j: int, k: int| 0 <= j < k < after.len() implies #[trigger] at_most()(
            after[j],
            after[k],
        ) by {
            let old_j = if j < i { j } else { j - 1 };
            let old_k = if k < i { k } else { k - 1 };
            if j != i && k != i {
                assert(at_most()(before[old_j], before[old_k]));
            } else if j == i {
                if i < before.len() && old_k > i {
                    assert(at_most()(before[i as int], before[old_k]));
                }
            }
        }
    }
}

/// The unit ids of the dependencies.
pub open spec fn unit_ids(deps: Seq<Metadata>) -> Seq<u64> {
    deps.map_values(|dep: Metadata| dep.unit_id)
}

/// The crate hashes of the dependencies.
pub open spec fn c_metadatas(deps: Seq<Metadata>) -> Seq<u64> {
    deps.map_values(|dep: Metadata| dep.c_metadata)
}

/// The numbers in rising order.
fn rising_numbers(numbers: &Vec<u64>) -> (result: Vec<u64>)
    ensures
        result@ == rising(numbers@),
{
    broadcast use group_to_multiset_ensures;

    let mut result: Vec<u64> = Vec::new();
    let mut i: usize = 0;
    assert(numbers@.subrange(0, 0) =~= result@);
    while i < numbers.len()
        invariant
            i <= numbers@.len(),
            sorted_by(result@, at_most()),
            result@.to_multiset() == numbers@.subrange(0, i as int).to_multiset(),
        decreases numbers@.len() - i,
    {
        insert_rising(&mut result, numbers[i]);
        proof {
            let some = numbers@.subrange(0, i as int);
            assert(numbers@.subrange(0, i + 1) =~= some.push(numbers@[i as int]));
            to_multiset_build(some, numbers@[i as int]);
        }
        i = i + 1;
    }
    proof {
        assert(numbers@.subrange(0, numbers@.len() as int) =~= numbers@);
        lemma_at_most_is_total();
        numbers@.lemma_sort_by_ensures(at_most());
        lemma_sorted_unique(result@, rising(numbers@), at_most());
    }
    result
}

/// What is hashed for the source of a package. A path in the workspace counts from the
/// root of the workspace.
pub open spec fn source_inputs(source: Seq<char>, workspace_root: Seq<char>) -> Seq<
    hasher::HashInput,
> {
    let (kind, url) = match text::split(source, '+') {
        Some(parts) => parts,
        None => (source, Seq::empty()),
    };
    seq![
        hasher::HashInput::Text(kind),
        hasher::HashInput::Text(
            if kind == "path"@ {
                below(url, workspace_url(workspace_root))
            } else {
                url
            },
        ),
    ]
}

/// The URL of the directory of the workspace.
pub open spec fn workspace_url(workspace_root: Seq<char>) -> Seq<char> {
    "file://"@ + workspace_root + "/"@
}

/// `url` without `prefix`, if it starts with that.
pub open spec fn below(url: Seq<char>, prefix: Seq<char>) -> Seq<char> {
    if prefix.is_prefix_of(url) {
        url.subrange(prefix.len() as int, url.len() as int)
    } else {
        url
    }
}

/// Hashes the source of a package.
pub fn hash_source_id(source: &str, workspace_root: &str, state: &mut UnitHasher)
    ensures
        hasher::hashed(*final(state)) == hasher::hashed(*old(state)) + source_inputs(
            source@,
            workspace_root@,
        ),
{
    let (kind, url): (&str, &str) = match text::split_once(source, '+') {
        Some(parts) => parts,
        None => (source, ""),
    };
    proof {
        reveal_strlit("");
        assert(""@ =~= Seq::<char>::empty());
    }
    state.hash_text(kind);
    let ghost hashed = hasher::hashed(*state);
    if text::same(kind, "path") {
        let mut prefix = "file://".to_owned();
        prefix.append(workspace_root);
        prefix.append("/");
        match text::strip_prefix(url, prefix.as_str()) {
            Some(relative) => {
                assert(relative@ =~= below(url@, prefix@)) by {
                    assert(url@.subrange(0, prefix@.len() as int) =~= prefix@);
                }
                state.hash_text(relative);
                assert(hasher::hashed(*state) =~= hasher::hashed(*old(state)) + source_inputs(
                    source@,
                    workspace_root@,
                ));
                return ;
            },
            None => {},
        }
    }
    state.hash_text(url);
    assert(hasher::hashed(*state) =~= hasher::hashed(*old(state)) + source_inputs(
        source@,
        workspace_root@,
    ));
}

/// What is hashed for a package: the name and the version around its last `@`, then its
/// source.
pub open spec fn package_inputs(
    source: Seq<char>,
    package: Seq<char>,
    workspace_root: Seq<char>,
) -> Seq<hasher::HashInput> {
    let (name, version) = match text::rsplit(package, '@') {
        Some(parts) => parts,
        None => (package, Seq::empty()),
    };
    seq![hasher::HashInput::Text(name), hasher::HashInput::Text(version)] + source_inputs(
        source,
        workspace_root,
    )
}

/// Hashes a package.
pub fn hash_package(source: &str, package: &str, workspace_root: &str, state: &mut UnitHasher)
    ensures
        hasher::hashed(*final(state)) == hasher::hashed(*old(state)) + package_inputs(
            source@,
            package@,
            workspace_root@,
        ),
{
    let (name, version): (&str, &str) = match text::rsplit_once(package, '@') {
        Some(parts) => parts,
        None => (package, ""),
    };
    proof {
        reveal_strlit("");
        assert(""@ =~= Seq::<char>::empty());
    }
    state.hash_text(name);
    state.hash_text(version);
    hash_source_id(source, workspace_root, state);
    assert(hasher::hashed(*state) =~= hasher::hashed(*old(state)) + package_inputs(
        source@,
        package@,
        workspace_root@,
    ));
}

/// What is hashed for a package id that tells its source.
pub open spec fn package_id_inputs(pkg_id: Seq<char>, workspace_root: Seq<char>) -> Seq<
    hasher::HashInput,
> {
    let (source, package) = text::rsplit(pkg_id, '#')->0;
    package_inputs(source, package, workspace_root)
}

/// Hashes the package that a package id names.
pub fn hash_package_id(pkg_id: &str, workspace_root: &str, state: &mut UnitHasher) -> (result:
    Result<(), UnitGraphError>)
    ensures
        match result {
            Ok(_) => {
                &&& unit_graph::has_source(pkg_id@)
                &&& hasher::hashed(*final(state)) == hasher::hashed(*old(state))
                    + package_id_inputs(pkg_id@, workspace_root@)
            },
            Err(error) => {
                &&& !unit_graph::has_source(pkg_id@)
                &&& error == UnitGraphError::PackageIdWithoutSource
                &&& *final(state) == *old(state)
            },
        },
{
    match unit_graph::parse_package_id_source(pkg_id) {
        Ok((source, package)) => {
            hash_package(source, package, workspace_root, state);
            Ok(())
        },
        Err(error) => Err(error),
    }
}

/// The hash of a platform; there is none for the host.
pub open spec fn platform_digest(platform: Option<Seq<char>>) -> u64 {
    match platform {
        None => 0,
        Some(platform) => hasher::stable_digest(seq![hasher::HashInput::Text(platform)]),
    }
}

/// The hash of a platform; there is none for the host.
pub fn compile_kind_fingerprint_hash(platform: &Option<String>) -> (result: u64)
    ensures
        result == platform_digest(platform.deep_view()),
{
    match platform {
        None => 0,
        Some(platform) => {
            let mut state = UnitHasher::new();
            state.hash_text(platform.as_str());
            assert(hasher::hashed(state) =~= seq![hasher::HashInput::Text(platform@)]);
            state.finish()
        },
    }
}

/// The line counts for the hash: the one that names the host counts only for units that
/// are compiled for the host.
pub open spec fn line_counts(line: Seq<char>, host_unit: bool) -> bool {
    host_unit || !"host: "@.is_prefix_of(line)
}

/// What is hashed for the version of rustc.
pub open spec fn version_inputs(lines: Seq<Seq<char>>, host_unit: bool) -> Seq<hasher::HashInput>
    decreases lines.len(),
{
    if lines.len() == 0 {
        Seq::empty()
    } else if line_counts(lines.last(), host_unit) {
        version_inputs(lines.drop_last(), host_unit).push(hasher::HashInput::Text(lines.last()))
    } else {
        version_inputs(lines.drop_last(), host_unit)
    }
}

/// Hashes the version of rustc, line by line.
pub fn hash_rustc_version(verbose_version: &str, host_unit: bool, state: &mut UnitHasher)
    ensures
        hasher::hashed(*final(state)) == hasher::hashed(*old(state)) + version_inputs(
            text::lines_of(verbose_version@),
            host_unit,
        ),
{
    let lines = text::lines(verbose_version);
    let ghost all = text::texts(lines@);
    let mut i: usize = 0;
    assert(hasher::hashed(*old(state)) + version_inputs(all.subrange(0, 0), host_unit)
        =~= hasher::hashed(*old(state)));
    while i < lines.len()
        invariant
            i <= lines@.len(),
            all == text::texts(lines@),
            hasher::hashed(*state) == hasher::hashed(*old(state)) + version_inputs(
                all.subrange(0, i as int),
                host_unit,
            ),
        decreases lines@.len() - i,
    {
        proof {
            let more = all.subrange(0, i + 1);
            assert(more.drop_last() =~= all.subrange(0, i as int));
            assert(more.last() == lines@[i as int]@);
        }
        if host_unit || !text::starts_with(lines[i], "host: ") {
            state.hash_text(lines[i]);
        }
        assert(hasher::hashed(*state) =~= hasher::hashed(*old(state)) + version_inputs(
            all.subrange(0, i + 1),
            host_unit,
        ));
        i = i + 1;
    }
    assert(all.subrange(0, all.len() as int) =~= all);
}

/// What is hashed for a unit, whatever it depends on. Its package id tells its source.
pub open spec fn shared_inputs(
    unit: UnitGraphUnit,
    rustc_verbose_version: Seq<char>,
    host_unit: bool,
    workspace_root: Seq<char>,
) -> Seq<hasher::HashInput> {
    seq![hasher::HashInput::Byte(METADATA_VERSION)] + package_id_inputs(
        unit.pkg_id@,
        workspace_root,
    ) + seq![hasher::HashInput::Texts(unit.features.deep_view())] + unit.profile.hash_inputs()
        + seq![
        hasher::HashInput::Discriminant(unit.mode.position()),
        hasher::HashInput::Text(unit.profile.lto@),
        hasher::HashInput::Number(platform_digest(unit.platform.deep_view())),
        hasher::HashInput::Text(unit.target.name@),
        hasher::HashInput::TargetKinds(target::kinds(unit.target.kind@)),
    ] + version_inputs(text::lines_of(rustc_verbose_version), host_unit) + seq![
        hasher::HashInput::Flag(unit.is_std),
    ]
}

/// The hashes of a unit with these dependencies. Its package id tells its source.
pub open spec fn metadata_of(
    unit: UnitGraphUnit,
    deps: Seq<Metadata>,
    rustc_verbose_version: Seq<char>,
    host_unit: bool,
    workspace_root: Seq<char>,
) -> Metadata {
    let shared = shared_inputs(unit, rustc_verbose_version, host_unit, workspace_root);
    Metadata {
        unit_id: hasher::stable_digest(
            shared + seq![
                hasher::HashInput::Numbers(rising(unit_ids(deps))),
                hasher::HashInput::Texts(Seq::empty()),
            ],
        ),
        c_metadata: hasher::stable_digest(
            shared + seq![hasher::HashInput::Numbers(rising(c_metadatas(deps)))],
        ),
    }
}

/// Computes the hashes of a unit from those of its dependencies.
pub fn compute(
    unit: &UnitGraphUnit,
    deps: &[Metadata],
    rustc_verbose_version: &str,
    host_unit: bool,
    workspace_root: &str,
) -> (result: Result<Metadata, UnitGraphError>)
    ensures
        match result {
            Ok(metadata) => {
                &&& unit_graph::has_source(unit.pkg_id@)
                &&& metadata == metadata_of(
                    *unit,
                    deps@,
                    rustc_verbose_version@,
                    host_unit,
                    workspace_root@,
                )
            },
            Err(error) => {
                &&& !unit_graph::has_source(unit.pkg_id@)
                &&& error == UnitGraphError::PackageIdWithoutSource
            },
        },
{
    let mut shared = UnitHasher::new();
    shared.hash_byte(METADATA_VERSION);
    match hash_package_id(unit.pkg_id.as_str(), workspace_root, &mut shared) {
        Ok(_) => {},
        Err(error) => {
            return Err(error);
        },
    }
    shared.hash_texts(&unit.features);
    unit.profile.hash(&mut shared);
    shared.hash_discriminant(unit.mode.discriminant());
    // The unit graph does not tell the resolved state of link-time optimization. The
    // setting in the profile stands for it.
    shared.hash_text(unit.profile.lto.as_str());
    shared.hash_number(compile_kind_fingerprint_hash(&unit.platform));
    shared.hash_text(unit.target.name.as_str());
    shared.hash_target_kinds(&unit.target.kind);
    hash_rustc_version(rustc_verbose_version, host_unit, &mut shared);
    shared.hash_flag(unit.is_std);
    let ghost inputs = shared_inputs(*unit, rustc_verbose_version@, host_unit, workspace_root@);
    assert(hasher::hashed(shared) =~= inputs);

    let mut ids: Vec<u64> = Vec::new();
    let mut crates: Vec<u64> = Vec::new();
    let mut i: usize = 0;
    while i < deps.len()
        invariant
            i <= deps@.len(),
            ids@ == unit_ids(deps@.subrange(0, i as int)),
            crates@ == c_metadatas(deps@.subrange(0, i as int)),
        decreases deps@.len() - i,
    {
        ids.push(deps[i].unit_id);
        crates.push(deps[i].c_metadata);
        i = i + 1;
        assert(ids@ =~= unit_ids(deps@.subrange(0, i as int)));
        assert(crates@ =~= c_metadatas(deps@.subrange(0, i as int)));
    }
    assert(deps@.subrange(0, deps@.len() as int) =~= deps@);

    let mut c_metadata_hasher = shared.duplicate();
    c_metadata_hasher.hash_numbers(&rising_numbers(&crates));
    assert(hasher::hashed(c_metadata_hasher) =~= inputs + seq![
        hasher::HashInput::Numbers(rising(c_metadatas(deps@))),
    ]);

    let mut unit_id_hasher = shared;
    unit_id_hasher.hash_numbers(&rising_numbers(&ids));
    // The unit graph does not tell the extra flags for rustc. By default there are none.
    let flags: Vec<String> = Vec::new();
    unit_id_hasher.hash_texts(&flags);
    assert(flags.deep_view() =~= Seq::<Seq<char>>::empty());
    assert(hasher::hashed(unit_id_hasher) =~= inputs + seq![
        hasher::HashInput::Numbers(rising(unit_ids(deps@))),
        hasher::HashInput::Texts(Seq::empty()),
    ]);

    Ok(
        Metadata {
            unit_id: unit_id_hasher.finish(),
            c_metadata: c_metadata_hasher.finish(),
        },
    )
}

/// The hashes of the dependencies of a unit.
pub open spec fn dep_metadata(unit: UnitGraphUnit, table: Map<usize, Metadata>) -> Seq<Metadata> {
    unit.dependencies@.map_values(
        |dep: unit_graph::UnitGraphDependency| table[dep.index],
    )
}

/// The table holds the hashes of unit `i`, and those of all that it depends on, and the
/// former come from the latter.
pub open spec fn entry_follows(
    units: Seq<UnitGraphUnit>,
    rustc_verbose_version: Seq<char>,
    workspace_root: Seq<char>,
    table: Map<usize, Metadata>,
    i: usize,
) -> bool {
    let unit = units[i as int];
    &&& i < units.len()
    &&& unit_graph::has_source(unit.pkg_id@)
    &&& forall|k: int|
        0 <= k < unit.dependencies@.len() ==> table.contains_key(
            (#[trigger] unit.dependencies@[k]).index,
        )
    &&& table[i] == metadata_of(
        unit,
        dep_metadata(unit, table),
        rustc_verbose_version,
        unit.platform is None,
        workspace_root,
    )
}

/// Every entry of the table follows from the others.
pub open spec fn table_follows(
    units: Seq<UnitGraphUnit>,
    rustc_verbose_version: Seq<char>,
    workspace_root: Seq<char>,
    table: Map<usize, Metadata>,
) -> bool {
    forall|i: usize| #[trigger]
        table.contains_key(i) ==> entry_follows(
            units,
            rustc_verbose_version,
            workspace_root,
            table,
            i,
        )
}

/// The larger table holds what the table holds.
spec fn extends(larger: Map<usize, Metadata>, table: Map<usize, Metadata>) -> bool {
    forall|i: usize| #[trigger]
        table.contains_key(i) ==> larger.contains_key(i) && larger[i] == table[i]
}

/// What follows in a table follows in a larger one.
proof fn lemma_follows_in_larger(
    units: Seq<UnitGraphUnit>,
    rustc_verbose_version: Seq<char>,
    workspace_root: Seq<char>,
    table: Map<usize, Metadata>,
    larger: Map<usize, Metadata>,
    i: usize,
)
    requires
        entry_follows(units, rustc_verbose_version, workspace_root, table, i),
        extends(larger, table),
        table.contains_key(i),
    ensures
        entry_follows(units, rustc_verbose_version, workspace_root, larger, i),
{
    let unit = units[i as int];
    assert forall|k: int| 0 <= k < unit.dependencies@.len() implies larger.contains_key(
        (#[trigger] unit.dependencies@[k]).index,
    ) && larger[unit.dependencies@[k].index] == table[unit.dependencies@[k].index] by {
        assert(table.contains_key(unit.dependencies@[k].index));
    }
    assert(dep_metadata(unit, larger) =~= dep_metadata(unit, table));
}

/// Computes the hashes of unit `index` and of all that it depends on, as far as they are
/// not in the table.
fn compute_one(
    index: usize,
    units: &[UnitGraphUnit],
    rustc_verbose_version: &str,
    workspace_root: &str,
    metadata: &mut HashMap<usize, Metadata>,
    Ghost(visiting): Ghost<Seq<bool>>,
) -> (result: Result<Metadata, UnitGraphError>)
    requires
        visiting.len() == units@.len(),
        !(unit_walk::walked(units@, index, old(metadata)@.dom(), visiting) is Endless),
        table_follows(units@, rustc_verbose_version@, workspace_root@, old(metadata)@),
    ensures
        table_follows(units@, rustc_verbose_version@, workspace_root@, final(metadata)@),
        extends(final(metadata)@, old(metadata)@),
        unit_walk::adds_reached(units@, index, old(metadata)@.dom(), final(metadata)@.dom()),
        match result {
            Ok(computed) => {
                &&& unit_walk::walked(units@, index, old(metadata)@.dom(), visiting)
                    == unit_walk::Walk::Done(final(metadata)@.dom())
                &&& final(metadata)@.contains_key(index)
                &&& final(metadata)@[index] == computed
            },
            Err(error) => {
                &&& unit_walk::walked(units@, index, old(metadata)@.dom(), visiting)
                    == unit_walk::Walk::Refused(final(metadata)@.dom())
                &&& !final(metadata)@.contains_key(index)
                &&& error == UnitGraphError::PackageIdWithoutSource
            },
        },
    decreases unit_walk::unmarked(visiting).len(),
{
    proof {
        unit_walk::lemma_walked(units@, index, old(metadata)@.dom(), visiting);
    }
    match metadata.get(&index) {
        Some(existing) => {
            return Ok(*existing);
        },
        None => {},
    }
    let ghost inner = visiting.update(index as int, true);
    proof {
        unit_walk::lemma_mark(visiting, index as int);
        unit_walk::lemma_walked_deps(
            units@,
            units@[index as int].dependencies@,
            old(metadata)@.dom(),
            inner,
        );
    }
    let unit: &UnitGraphUnit = &units[index];
    let mut deps: Vec<Metadata> = Vec::new();
    let mut k: usize = 0;
    assert(unit.dependencies@.skip(0) =~= unit.dependencies@);
    while k < unit.dependencies.len()
        invariant
            index < units@.len(),
            *unit == units@[index as int],
            visiting.len() == units@.len(),
            inner == visiting.update(index as int, true),
            unit_walk::unmarked(inner).len() < unit_walk::unmarked(visiting).len(),
            !old(metadata)@.contains_key(index),
            !visiting[index as int],
            !(unit_walk::walked(units@, index, old(metadata)@.dom(), visiting) is Endless),
            k <= unit.dependencies@.len(),
            unit_walk::walked_deps(units@, unit.dependencies@, old(metadata)@.dom(), inner)
                == unit_walk::walked_deps(
                units@,
                unit.dependencies@.skip(k as int),
                metadata@.dom(),
                inner,
            ),
            table_follows(units@, rustc_verbose_version@, workspace_root@, metadata@),
            extends(metadata@, old(metadata)@),
            deps@.len() == k,
            forall|j: int|
                0 <= j < k ==> metadata@.contains_key((#[trigger] unit.dependencies@[j]).index)
                    && metadata@[unit.dependencies@[j].index] == deps@[j],
        decreases unit.dependencies@.len() - k,
    {
        let ghost before = metadata@;
        assert(unit.dependencies@.skip(k as int).drop_first() =~= unit.dependencies@.skip(k + 1));
        let computed = match compute_one(
            unit.dependencies[k].index,
            units,
            rustc_verbose_version,
            workspace_root,
            metadata,
            Ghost(inner),
        ) {
            Ok(computed) => computed,
            Err(error) => {
                proof {
                    unit_walk::lemma_walked(units@, index, old(metadata)@.dom(), visiting);
                }
                return Err(error);
            },
        };
        deps.push(computed);
        assert forall|j: int| 0 <= j < k + 1 implies metadata@.contains_key(
            (#[trigger] unit.dependencies@[j]).index,
        ) && metadata@[unit.dependencies@[j].index] == deps@[j] by {
            if j < k {
                assert(before.contains_key(unit.dependencies@[j].index));
            }
        }
        k = k + 1;
    }
    let host_unit = unit.platform.is_none();
    let ghost before = metadata@;
    let computed = match compute(
        unit,
        deps.as_slice(),
        rustc_verbose_version,
        host_unit,
        workspace_root,
    ) {
        Ok(computed) => computed,
        Err(error) => {
            return Err(error);
        },
    };
    metadata.insert(index, computed);
    proof {
        let table = metadata@;
        assert(!before.dom().contains(index));
        assert(table.dom() =~= before.dom().insert(index));
        assert(extends(table, before));
        assert forall|i: usize| #[trigger] table.contains_key(i) implies entry_follows(
            units@,
            rustc_verbose_version@,
            workspace_root@,
            table,
            i,
        ) by {
            if i != index {
                lemma_follows_in_larger(
                    units@,
                    rustc_verbose_version@,
                    workspace_root@,
                    before,
                    table,
                    i,
                );
            } else {
                assert(dep_metadata(*unit, table) =~= deps@) by {
                    assert forall|j: int| 0 <= j < deps@.len() implies table[(
                    #[trigger] unit.dependencies@[j]).index] == deps@[j] by {
                        assert(before.contains_key(unit.dependencies@[j].index));
                    }
                }
            }
        }
    }
    Ok(computed)
}

/// Computes the hashes of all units, unless the package id of one does not tell the source
/// of the package.
pub fn compute_all(
    units: &[UnitGraphUnit],
    rustc_verbose_version: &str,
    workspace_root: &str,
) -> (result: Result<HashMap<usize, Metadata>, UnitGraphError>)
    requires
        unit_walk::walk_ends(units@),
    ensures
        match result {
            Ok(table) => {
                &&& forall|i: int|
                    0 <= i < units@.len() ==> !(#[trigger] unit_walk::without_source(units@, i))
                &&& forall|i: usize| #[trigger] table@.contains_key(i) <==> i < units@.len()
                &&& table_follows(units@, rustc_verbose_version@, workspace_root@, table@)
                &&& unit_walk::well_founded(units@)
            },
            Err(error) => {
                &&& exists|i: int| unit_walk::without_source(units@, i)
                &&& error == UnitGraphError::PackageIdWithoutSource
            },
        },
{
    let count: usize = units.len();
    let mut metadata: HashMap<usize, Metadata> = HashMap::new();
    let mut index: usize = 0;
    proof {
        unit_walk::visited_units_are_well_founded(units@);
        assert(metadata@.dom() =~= Set::empty());
    }
    while index < count
        invariant
            index <= count == units@.len(),
            unit_walk::walk_ends(units@),
            unit_walk::walked_from(units@, 0, Set::empty()) == unit_walk::walked_from(
                units@,
                index as int,
                metadata@.dom(),
            ),
            table_follows(units@, rustc_verbose_version@, workspace_root@, metadata@),
            forall|i: usize| i < index ==> #[trigger] metadata@.contains_key(i),
            unit_walk::walked_from(units@, 0, Set::empty()) is Refused ==> exists|i: int|
                unit_walk::without_source(units@, i),
        decreases units@.len() - index,
    {
        let ghost before = metadata@;
        match compute_one(
            index,
            units,
            rustc_verbose_version,
            workspace_root,
            &mut metadata,
            Ghost(unit_walk::none_visited(units@)),
        ) {
            Ok(_) => {},
            Err(error) => {
                return Err(error);
            },
        }
        assert forall|i: usize| i < index + 1 implies #[trigger] metadata@.contains_key(i) by {
            assert(i < index ==> before.contains_key(i));
        }
        index = index + 1;
    }
    proof {
        assert forall|i: int| 0 <= i < units@.len() implies !(
        #[trigger] unit_walk::without_source(units@, i)) by {
            assert(metadata@.contains_key(i as usize));
        }
    }
    Ok(metadata)
}

/// Mapping keeps two sequences with the same elements alike.
proof fn lemma_mapped_multisets<A, B>(s: Seq<A>, t: Seq<A>, f: spec_fn(A) -> B)
    requires
        s.to_multiset() == t.to_multiset(),
    ensures
        s.map_values(f).to_multiset() == t.map_values(f).to_multiset(),
    decreases s.len(),
{
    broadcast use group_to_multiset_ensures;

    to_multiset_len(s);
    to_multiset_len(t);
    if s.len() == 0 {
        assert(s.map_values(f) =~= t.map_values(f));
    } else {
        let x = s.last();
        assert(s.to_multiset().count(x) > 0) by {
            assert(s.contains(x));
        }
        assert(t.contains(x));
        let j = choose|j: int| 0 <= j < t.len() && t[j] == x;
        let shorter = s.remove(s.len() - 1);
        assert(shorter.to_multiset() == t.remove(j).to_multiset());
        lemma_mapped_multisets(shorter, t.remove(j), f);
        assert(s.map_values(f) =~= shorter.map_values(f).push(f(x)));
        to_multiset_build(shorter.map_values(f), f(x));
        assert(t.map_values(f) =~= t.remove(j).map_values(f).insert(j, f(x)));
        to_multiset_insert(t.remove(j).map_values(f), j, f(x));
    }
}

proof fn lemma_rising_multisets(s: Seq<u64>, t: Seq<u64>)
    requires
        s.to_multiset() == t.to_multiset(),
    ensures
        rising(s) == rising(t),
{
    lemma_at_most_is_total();
    s.lemma_sort_by_ensures(at_most());
    t.lemma_sort_by_ensures(at_most());
    lemma_sorted_unique(rising(s), rising(t), at_most());
}

/// The order in which a unit lists its dependencies does not change its hashes.
pub proof fn dependency_order_does_not_matter(
    unit: UnitGraphUnit,
    deps: Seq<Metadata>,
    reordered: Seq<Metadata>,
    rustc_verbose_version: Seq<char>,
    host_unit: bool,
    workspace_root: Seq<char>,
)
    requires
        deps.to_multiset() == reordered.to_multiset(),
    ensures
        metadata_of(unit, deps, rustc_verbose_version, host_unit, workspace_root) == metadata_of(
            unit,
            reordered,
            rustc_verbose_version,
            host_unit,
            workspace_root,
        ),
{
    lemma_mapped_multisets(deps, reordered, |dep: Metadata| dep.unit_id);
    lemma_mapped_multisets(deps, reordered, |dep: Metadata| dep.c_metadata);
    lemma_rising_multisets(unit_ids(deps), unit_ids(reordered));
    lemma_rising_multisets(c_metadatas(deps), c_metadatas(reordered));
}

/// The lines that do not name the host, in order.
pub open spec fn lines_without_host(lines: Seq<Seq<char>>) -> Seq<Seq<char>> {
    lines.filter(|line: Seq<char>| !"host: "@.is_prefix_of(line))
}

/// A unit that is not compiled for the host hashes the lines that do not name the host.
proof fn lemma_lines_without_host(lines: Seq<Seq<char>>)
    ensures
        version_inputs(lines, false) == lines_without_host(lines).map_values(
            |line: Seq<char>| hasher::HashInput::Text(line),
        ),
    decreases lines.len(),
{
    reveal(Seq::filter);
    if lines.len() > 0 {
        lemma_lines_without_host(lines.drop_last());
    }
    assert(version_inputs(lines, false) =~= lines_without_host(lines).map_values(
        |line: Seq<char>| hasher::HashInput::Text(line),
    ));
}

/// The host that rustc runs on does not change the hashes of a unit that is compiled for
/// a platform of its own: two versions give the same hashes if they differ only in lines
/// that name the host, wherever these stand and however many there are.
pub proof fn host_does_not_matter_for_cross_compiled_units(
    unit: UnitGraphUnit,
    deps: Seq<Metadata>,
    one_version: Seq<char>,
    other_version: Seq<char>,
    workspace_root: Seq<char>,
)
    requires
        lines_without_host(text::lines_of(one_version)) == lines_without_host(
            text::lines_of(other_version),
        ),
    ensures
        metadata_of(unit, deps, one_version, false, workspace_root) == metadata_of(
            unit,
            deps,
            other_version,
            false,
            workspace_root,
        ),
{
    lemma_lines_without_host(text::lines_of(one_version));
    lemma_lines_without_host(text::lines_of(other_version));
}

/// The id of a package at `relative` in the workspace at `workspace_root`.
pub open spec fn workspace_package_id(
    workspace_root: Seq<char>,
    relative: Seq<char>,
    package: Seq<char>,
) -> Seq<char> {
    "path"@ + seq!['+'] + (workspace_url(workspace_root) + relative) + seq!['#'] + package
}

proof fn lemma_workspace_package_inputs(
    workspace_root: Seq<char>,
    relative: Seq<char>,
    package: Seq<char>,
)
    requires
        !package.contains('#'),
    ensures
        ({
            let pkg_id = workspace_package_id(workspace_root, relative, package);
            let (name, version) = match text::rsplit(package, '@') {
                Some(parts) => parts,
                None => (package, Seq::empty()),
            };
            &&& unit_graph::has_source(pkg_id)
            &&& package_id_inputs(pkg_id, workspace_root) == seq![
                hasher::HashInput::Text(name),
                hasher::HashInput::Text(version),
                hasher::HashInput::Text("path"@),
                hasher::HashInput::Text(relative),
            ]
        }),
{
    let prefix = workspace_url(workspace_root);
    let url = prefix + relative;
    let source = "path"@ + seq!['+'] + url;
    text::rsplit_undoes_join(source, '#', package);
    reveal_strlit("path");
    assert(!"path"@.contains('+'));
    text::split_undoes_join("path"@, '+', url);
    assert(url.subrange(0, prefix.len() as int) =~= prefix);
    assert(below(url, prefix) =~= relative);
    let (name, version) = match text::rsplit(package, '@') {
        Some(parts) => parts,
        None => (package, Seq::empty()),
    };
    assert(package_id_inputs(source + seq!['#'] + package, workspace_root) =~= seq![
        hasher::HashInput::Text(name),
        hasher::HashInput::Text(version),
        hasher::HashInput::Text("path"@),
        hasher::HashInput::Text(relative),
    ]);
}

/// Where the workspace lies does not change the hashes of its units: two units that
/// differ only in that have the same hashes.
pub proof fn workspace_location_does_not_matter(
    unit: UnitGraphUnit,
    moved: UnitGraphUnit,
    workspace_root: Seq<char>,
    moved_root: Seq<char>,
    relative: Seq<char>,
    package: Seq<char>,
    deps: Seq<Metadata>,
    rustc_verbose_version: Seq<char>,
    host_unit: bool,
)
    requires
        !package.contains('#'),
        unit.pkg_id@ == workspace_package_id(workspace_root, relative, package),
        moved.pkg_id@ == workspace_package_id(moved_root, relative, package),
        moved == (UnitGraphUnit { pkg_id: moved.pkg_id, ..unit }),
    ensures
        unit_graph::has_source(unit.pkg_id@),
        unit_graph::has_source(moved.pkg_id@),
        metadata_of(unit, deps, rustc_verbose_version, host_unit, workspace_root) == metadata_of(
            moved,
            deps,
            rustc_verbose_version,
            host_unit,
            moved_root,
        ),
{
    lemma_workspace_package_inputs(workspace_root, relative, package);
    lemma_workspace_package_inputs(moved_root, relative, package);
}

/// The hashes of the units are determined: two tables in which every entry follows from
/// the others agree on every unit that is in both.
pub proof fn hashes_are_determined(
    units: Seq<UnitGraphUnit>,
    rustc_verbose_version: Seq<char>,
    workspace_root: Seq<char>,
    one: Map<usize, Metadata>,
    other: Map<usize, Metadata>,
    i: usize,
)
    requires
        unit_walk::well_founded(units),
        table_follows(units, rustc_verbose_version, workspace_root, one),
        table_follows(units, rustc_verbose_version, workspace_root, other),
        one.contains_key(i),
        other.contains_key(i),
    ensures
        one[i] == other[i],
{
    let rank = choose|rank: spec_fn(usize) -> nat| #[trigger] unit_walk::ranks(units, rank);
    lemma_hashes_are_determined(
        units,
        rustc_verbose_version,
        workspace_root,
        one,
        other,
        rank,
        i,
    );
}

proof fn lemma_hashes_are_determined(
    units: Seq<UnitGraphUnit>,
    rustc_verbose_version: Seq<char>,
    workspace_root: Seq<char>,
    one: Map<usize, Metadata>,
    other: Map<usize, Metadata>,
    rank: spec_fn(usize) -> nat,
    i: usize,
)
    requires
        unit_walk::ranks(units, rank),
        table_follows(units, rustc_verbose_version, workspace_root, one),
        table_follows(units, rustc_verbose_version, workspace_root, other),
        one.contains_key(i),
        other.contains_key(i),
    ensures
        one[i] == other[i],
    decreases rank(i),
{
    let unit = units[i as int];
    assert forall|k: int| 0 <= k < unit.dependencies@.len() implies one[(
    #[trigger] unit.dependencies@[k]).index] == other[unit.dependencies@[k].index] by {
        lemma_hashes_are_determined(
            units,
            rustc_verbose_version,
            workspace_root,
            one,
            other,
            rank,
            unit.dependencies@[k].index,
        );
    }
    assert(dep_metadata(unit, one) =~= dep_metadata(unit, other));
}

} // verus!
