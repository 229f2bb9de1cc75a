//! The walk over the units of a build that visits each one after all that it depends on.
use vstd::prelude::*;
use vstd::set_lib::*;

use std::collections::HashSet;

use crate::unit_graph;
use crate::unit_graph::{UnitGraphDependency, UnitGraphUnit};

verus! {

broadcast use vstd::std_specs::hash::group_hash_axioms;

/// How a walk over units ends.
pub enum Walk {
    /// These units have been visited.
    Done(Set<usize>),
    /// The package id of a unit does not tell the source of the package. These units have
    /// been visited before.
    Refused(Set<usize>),
    /// It does not: a unit depends on itself, directly or not, or on one that is no unit of
    /// the build.
    Endless,
}

/// The positions that are not marked.
pub open spec fn unmarked(marks: Seq<bool>) -> Set<int> {
    set_int_range(0, marks.len() as int).filter(|i: int| !marks[i])
}

/// Another mark leaves fewer positions without one.
pub proof fn lemma_mark(marks: Seq<bool>, i: int)
    requires
        0 <= i < marks.len(),
        !marks[i],
    ensures
        unmarked(marks.update(i, true)).len() < unmarked(marks).len(),
{
    lemma_int_range(0, marks.len() as int);
    let before = unmarked(marks);
    let after = unmarked(marks.update(i, true));
    assert(before.contains(i));
    assert(after =~= before.remove(i));
}

/// The walk that visits unit `index`, where the units in `done` have been visited and those
/// that are marked are being visited.
pub open spec fn walked(
    units: Seq<UnitGraphUnit>,
    index: usize,
    done: Set<usize>,
    visiting: Seq<bool>,
) -> Walk
    decreases unmarked(visiting).len(), 0nat,
    when visiting.len() == units.len()
{
    if done.contains(index) {
        Walk::Done(done)
    } else if index >= units.len() || visiting[index as int] {
        Walk::Endless
    } else {
        proof {
            lemma_mark(visiting, index as int);
        }
        match walked_deps(
            units,
            units[index as int].dependencies@,
            done,
            visiting.update(index as int, true),
        ) {
            Walk::Done(after) => if unit_graph::has_source(units[index as int].pkg_id@) {
                Walk::Done(after.insert(index))
            } else {
                Walk::Refused(after)
            },
            other => other,
        }
    }
}

/// The walk that visits the units that `deps` names, one after the other.
pub open spec fn walked_deps(
    units: Seq<UnitGraphUnit>,
    deps: Seq<UnitGraphDependency>,
    done: Set<usize>,
    visiting: Seq<bool>,
) -> Walk
    decreases unmarked(visiting).len(), deps.len(),
    when visiting.len() == units.len()
{
    if deps.len() == 0 {
        Walk::Done(done)
    } else {
        match walked(units, deps[0].index, done, visiting) {
            Walk::Done(after) => walked_deps(units, deps.drop_first(), after, visiting),
            other => other,
        }
    }
}

/// No unit is being visited.
pub open spec fn none_visited(units: Seq<UnitGraphUnit>) -> Seq<bool> {
    Seq::new(units.len(), |i: int| false)
}

/// The walk that visits the units from `index` on.
pub open spec fn walked_from(units: Seq<UnitGraphUnit>, index: int, done: Set<usize>) -> Walk
    decreases units.len() - index,
{
    if index >= units.len() {
        Walk::Done(done)
    } else {
        match walked(units, index as usize, done, none_visited(units)) {
            Walk::Done(after) => walked_from(units, index + 1, after),
            other => other,
        }
    }
}

/// The walk over all units ends: no unit depends on itself, directly or not, and none
/// depends on one that is no unit of the build, as far as the units are visited before one
/// is refused.
pub open spec fn walk_ends(units: Seq<UnitGraphUnit>) -> bool {
    !(walked_from(units, 0, Set::empty()) is Endless)
}

/// The walk goes on from `done` to `after`: nothing that is being visited is done before
/// its time.
pub open spec fn goes_on(done: Set<usize>, after: Set<usize>, visiting: Seq<bool>) -> bool {
    &&& done.subset_of(after)
    &&& forall|i: usize| #[trigger]
        after.contains(i) && i < visiting.len() && visiting[i as int] ==> done.contains(i)
}

/// Unit `to` is the one that is reached from unit `from` by this many dependencies, one
/// after the other.
pub open spec fn reached_in(units: Seq<UnitGraphUnit>, from: usize, to: usize, steps: nat) -> bool
    decreases steps,
{
    if steps == 0 {
        from == to
    } else {
        &&& from < units.len()
        &&& exists|k: int|
            0 <= k < units[from as int].dependencies@.len() && reached_in(
                units,
                (#[trigger] units[from as int].dependencies@[k]).index,
                to,
                (steps - 1) as nat,
            )
    }
}

/// Unit `to` is unit `from`, or `from` depends on it, directly or not.
pub open spec fn reaches(units: Seq<UnitGraphUnit>, from: usize, to: usize) -> bool {
    exists|steps: nat| #[trigger] reached_in(units, from, to, steps)
}

/// Every unit in `after` was in `done`, or is reached from `index`.
pub open spec fn adds_reached(
    units: Seq<UnitGraphUnit>,
    index: usize,
    done: Set<usize>,
    after: Set<usize>,
) -> bool {
    forall|i: usize| #[trigger] after.contains(i) ==> done.contains(i) || reaches(units, index, i)
}

/// Every unit in `after` was in `done`, or is reached from one that `deps` names.
pub open spec fn adds_reached_from_deps(
    units: Seq<UnitGraphUnit>,
    deps: Seq<UnitGraphDependency>,
    done: Set<usize>,
    after: Set<usize>,
) -> bool {
    forall|i: usize| #[trigger]
        after.contains(i) ==> done.contains(i) || exists|k: int|
            0 <= k < deps.len() && reaches(units, (#[trigger] deps[k]).index, i)
}

/// What a dependency of a unit reaches, the unit reaches.
proof fn lemma_reaches_through(units: Seq<UnitGraphUnit>, index: usize, k: int, to: usize)
    requires
        index < units.len(),
        0 <= k < units[index as int].dependencies@.len(),
        reaches(units, units[index as int].dependencies@[k].index, to),
    ensures
        reaches(units, index, to),
{
    let dep = units[index as int].dependencies@[k];
    let steps = choose|steps: nat| #[trigger] reached_in(units, dep.index, to, steps);
    assert(reached_in(units, index, to, steps + 1));
}

/// The unit at position `i` does not tell its source.
pub open spec fn without_source(units: Seq<UnitGraphUnit>, i: int) -> bool {
    0 <= i < units.len() && !unit_graph::has_source(units[i].pkg_id@)
}

/// A walk visits what it is to visit and nothing that is not reached from there, and
/// refuses only units that do not tell their source.
pub proof fn lemma_walked(
    units: Seq<UnitGraphUnit>,
    index: usize,
    done: Set<usize>,
    visiting: Seq<bool>,
)
    requires
        visiting.len() == units.len(),
    ensures
        match walked(units, index, done, visiting) {
            Walk::Done(after) => {
                &&& goes_on(done, after, visiting)
                &&& adds_reached(units, index, done, after)
                &&& after.contains(index)
            },
            Walk::Refused(after) => {
                &&& goes_on(done, after, visiting)
                &&& adds_reached(units, index, done, after)
                &&& !after.contains(index)
                &&& exists|i: int| without_source(units, i)
            },
            Walk::Endless => true,
        },
    decreases unmarked(visiting).len(), 0nat,
{
    if !done.contains(index) && index < units.len() && !visiting[index as int] {
        let deps = units[index as int].dependencies@;
        let inner = visiting.update(index as int, true);
        lemma_mark(visiting, index as int);
        lemma_walked_deps(units, deps, done, inner);
        assert(reached_in(units, index, index, 0));
        let walk = walked_deps(units, deps, done, inner);
        let visited = match walk {
            Walk::Done(after) => after,
            Walk::Refused(after) => after,
            Walk::Endless => done,
        };
        assert forall|i: usize| #[trigger] visited.contains(i) implies done.contains(i) || reaches(
            units,
            index,
            i,
        ) by {
            if !done.contains(i) {
                let k = choose|k: int|
                    0 <= k < deps.len() && reaches(units, (#[trigger] deps[k]).index, i);
                lemma_reaches_through(units, index, k, i);
            }
        }
        assert(inner[index as int]);
        assert(forall|i: usize| i < visiting.len() && visiting[i as int] ==> inner[i as int]);
        if walk is Done && walked(units, index, done, visiting) is Refused {
            assert(without_source(units, index as int));
        }
    }
}

/// A walk over dependencies visits them all and nothing that is not reached from them, and
/// refuses only units that do not tell their source.
pub proof fn lemma_walked_deps(
    units: Seq<UnitGraphUnit>,
    deps: Seq<UnitGraphDependency>,
    done: Set<usize>,
    visiting: Seq<bool>,
)
    requires
        visiting.len() == units.len(),
    ensures
        match walked_deps(units, deps, done, visiting) {
            Walk::Done(after) => {
                &&& goes_on(done, after, visiting)
                &&& adds_reached_from_deps(units, deps, done, after)
                &&& forall|k: int| 0 <= k < deps.len() ==> after.contains((#[trigger] deps[k]).index)
            },
            Walk::Refused(after) => {
                &&& goes_on(done, after, visiting)
                &&& adds_reached_from_deps(units, deps, done, after)
                &&& exists|i: int| without_source(units, i)
            },
            Walk::Endless => true,
        },
    decreases unmarked(visiting).len(), deps.len(),
{
    if deps.len() > 0 {
        let rest = deps.drop_first();
        lemma_walked(units, deps[0].index, done, visiting);
        if let Walk::Done(after) = walked(units, deps[0].index, done, visiting) {
            lemma_walked_deps(units, rest, after, visiting);
            let visited = match walked_deps(units, deps, done, visiting) {
                Walk::Done(end) => end,
                Walk::Refused(end) => end,
                Walk::Endless => done,
            };
            assert forall|i: usize| #[trigger] visited.contains(i) implies done.contains(i)
                || exists|k: int|
                0 <= k < deps.len() && reaches(units, (#[trigger] deps[k]).index, i) by {
                if !done.contains(i) && after.contains(i) {
                    assert(reaches(units, deps[0].index, i));
                } else if !done.contains(i) {
                    let k = choose|k: int|
                        0 <= k < rest.len() && reaches(units, (#[trigger] rest[k]).index, i);
                    assert(rest[k] == deps[k + 1]);
                }
            }
            if let Walk::Done(end) = walked_deps(units, deps, done, visiting) {
                assert forall|k: int| 0 <= k < deps.len() implies end.contains(
                    (#[trigger] deps[k]).index,
                ) by {
                    if k > 0 {
                        assert(deps[k] == rest[k - 1]);
                    }
                }
            }
        }
    }
}

/// `rank` falls from every unit to each one that it depends on, which is a unit of the
/// build.
pub open spec fn ranks(units: Seq<UnitGraphUnit>, rank: spec_fn(usize) -> nat) -> bool {
    forall|i: usize, k: int|
        i < units.len() && 0 <= k < units[i as int].dependencies@.len() ==> {
            let dep = #[trigger] units[i as int].dependencies@[k];
            dep.index < units.len() && rank(dep.index) < rank(i)
        }
}

/// All dependencies are units of the build, and no unit depends on itself, directly or
/// not.
pub open spec fn well_founded(units: Seq<UnitGraphUnit>) -> bool {
    exists|rank: spec_fn(usize) -> nat| #[trigger] ranks(units, rank)
}

/// `rank` falls from every unit in `done` to each one that it depends on, which is in
/// `done` too.
spec fn ranks_within(
    units: Seq<UnitGraphUnit>,
    done: Set<usize>,
    rank: spec_fn(usize) -> nat,
) -> bool {
    &&& forall|i: usize| #[trigger] done.contains(i) ==> i < units.len()
    &&& forall|i: usize, k: int|
        done.contains(i) && 0 <= k < units[i as int].dependencies@.len() ==> {
            let dep = #[trigger] units[i as int].dependencies@[k];
            done.contains(dep.index) && rank(dep.index) < rank(i)
        }
}

/// The units in `done` can be ranked.
spec fn rankable(units: Seq<UnitGraphUnit>, done: Set<usize>) -> bool {
    exists|rank: spec_fn(usize) -> nat| #[trigger] ranks_within(units, done, rank)
}

/// A rank above those of all dependencies.
spec fn above(deps: Seq<UnitGraphDependency>, rank: spec_fn(usize) -> nat) -> nat
    decreases deps.len(),
{
    if deps.len() == 0 {
        0
    } else {
        above(deps.drop_last(), rank) + rank(deps.last().index) + 1
    }
}

proof fn lemma_above(deps: Seq<UnitGraphDependency>, rank: spec_fn(usize) -> nat, k: int)
    requires
        0 <= k < deps.len(),
    ensures
        rank(deps[k].index) < above(deps, rank),
    decreases deps.len(),
{
    if k < deps.len() - 1 {
        lemma_above(deps.drop_last(), rank, k);
        assert(deps.drop_last()[k] == deps[k]);
    }
}

/// One more unit can be ranked after all that it depends on.
proof fn lemma_rank_unit(units: Seq<UnitGraphUnit>, index: usize, done: Set<usize>)
    requires
        rankable(units, done),
        index < units.len(),
        !done.contains(index),
        forall|k: int|
            0 <= k < units[index as int].dependencies@.len() ==> done.contains(
                (#[trigger] units[index as int].dependencies@[k]).index,
            ),
    ensures
        rankable(units, done.insert(index)),
{
    let rank = choose|rank: spec_fn(usize) -> nat| #[trigger] ranks_within(units, done, rank);
    let deps = units[index as int].dependencies@;
    let more = |i: usize|
        if i == index {
            above(deps, rank)
        } else {
            rank(i)
        };
    assert forall|i: usize, k: int|
        done.insert(index).contains(i) && 0 <= k
            < units[i as int].dependencies@.len() implies done.insert(index).contains(
        (#[trigger] units[i as int].dependencies@[k]).index,
    ) && more(units[i as int].dependencies@[k].index) < more(i) by {
        if i == index {
            lemma_above(deps, rank, k);
            assert(done.contains(deps[k].index));
        } else {
            assert(done.contains(i));
            assert(done.contains(units[i as int].dependencies@[k].index));
        }
    }
    assert(ranks_within(units, done.insert(index), more));
}

proof fn lemma_walked_rankable(
    units: Seq<UnitGraphUnit>,
    index: usize,
    done: Set<usize>,
    visiting: Seq<bool>,
)
    requires
        visiting.len() == units.len(),
        rankable(units, done),
    ensures
        walked(units, index, done, visiting) matches Walk::Done(after) ==> rankable(units, after),
    decreases unmarked(visiting).len(), 0nat,
{
    if !done.contains(index) && index < units.len() && !visiting[index as int] {
        let inner = visiting.update(index as int, true);
        let deps = units[index as int].dependencies@;
        lemma_mark(visiting, index as int);
        lemma_walked_deps_rankable(units, deps, done, inner);
        lemma_walked_deps(units, deps, done, inner);
        if let Walk::Done(after) = walked_deps(units, deps, done, inner) {
            assert(!after.contains(index));
            lemma_rank_unit(units, index, after);
        }
    }
}

proof fn lemma_walked_deps_rankable(
    units: Seq<UnitGraphUnit>,
    deps: Seq<UnitGraphDependency>,
    done: Set<usize>,
    visiting: Seq<bool>,
)
    requires
        visiting.len() == units.len(),
        rankable(units, done),
    ensures
        walked_deps(units, deps, done, visiting) matches Walk::Done(after) ==> rankable(
            units,
            after,
        ),
    decreases unmarked(visiting).len(), deps.len(),
{
    if deps.len() > 0 {
        lemma_walked_rankable(units, deps[0].index, done, visiting);
        if let Walk::Done(after) = walked(units, deps[0].index, done, visiting) {
            lemma_walked_deps_rankable(units, deps.drop_first(), after, visiting);
        }
    }
}

proof fn lemma_walked_from(units: Seq<UnitGraphUnit>, index: int, done: Set<usize>)
    requires
        units.len() <= usize::MAX,
        0 <= index <= units.len(),
        rankable(units, done),
        forall|i: usize| i < index ==> #[trigger] done.contains(i),
    ensures
        match walked_from(units, index, done) {
            Walk::Done(after) => {
                &&& rankable(units, after)
                &&& forall|i: usize| i < units.len() ==> #[trigger] after.contains(i)
            },
            Walk::Refused(_) => exists|i: int| without_source(units, i),
            Walk::Endless => true,
        },
    decreases units.len() - index,
{
    if index < units.len() {
        lemma_walked(units, index as usize, done, none_visited(units));
        lemma_walked_rankable(units, index as usize, done, none_visited(units));
        if let Walk::Done(after) = walked(units, index as usize, done, none_visited(units)) {
            assert forall|i: usize| i < index + 1 implies #[trigger] after.contains(i) by {
                assert(i < index ==> done.contains(i));
            }
            lemma_walked_from(units, index + 1, after);
        }
    }
}

/// Where all units have been visited, no unit depends on itself, directly or not, and each
/// one depends on units of the build only. Where one was refused, it does not tell its
/// source.
pub proof fn visited_units_are_well_founded(units: Seq<UnitGraphUnit>)
    requires
        units.len() <= usize::MAX,
    ensures
        match walked_from(units, 0, Set::empty()) {
            Walk::Done(_) => well_founded(units),
            Walk::Refused(_) => exists|i: int| without_source(units, i),
            Walk::Endless => true,
        },
{
    let none = Set::<usize>::empty();
    let flat = |i: usize| 0nat;
    assert(ranks_within(units, none, flat));
    lemma_walked_from(units, 0, none);
    if let Walk::Done(after) = walked_from(units, 0, none) {
        let rank = choose|rank: spec_fn(usize) -> nat| #[trigger] ranks_within(units, after, rank);
        assert forall|i: usize, k: int|
            i < units.len() && 0 <= k < units[i as int].dependencies@.len() implies {
            let dep = #[trigger] units[i as int].dependencies@[k];
            dep.index < units.len() && rank(dep.index) < rank(i)
        } by {
            assert(after.contains(i));
            assert(after.contains(units[i as int].dependencies@[k].index));
        }
        assert(ranks(units, rank));
    }
}

proof fn lemma_walked_ends(
    units: Seq<UnitGraphUnit>,
    rank: spec_fn(usize) -> nat,
    index: usize,
    done: Set<usize>,
    visiting: Seq<bool>,
)
    requires
        visiting.len() == units.len(),
        ranks(units, rank),
        index < units.len(),
        forall|i: usize|
            i < units.len() && #[trigger] visiting[i as int] ==> rank(index) < rank(i),
    ensures
        !(walked(units, index, done, visiting) is Endless),
    decreases unmarked(visiting).len(), 0nat,
{
    if !done.contains(index) {
        assert(!visiting[index as int]);
        lemma_mark(visiting, index as int);
        let deps = units[index as int].dependencies@;
        assert forall|k: int| 0 <= k < deps.len() implies {
            let dep = (#[trigger] deps[k]).index;
            dep < units.len() && rank(dep) < rank(index)
        } by {}
        lemma_walked_deps_ends(
            units,
            rank,
            index,
            deps,
            done,
            visiting.update(index as int, true),
        );
    }
}

proof fn lemma_walked_deps_ends(
    units: Seq<UnitGraphUnit>,
    rank: spec_fn(usize) -> nat,
    index: usize,
    deps: Seq<UnitGraphDependency>,
    done: Set<usize>,
    visiting: Seq<bool>,
)
    requires
        visiting.len() == units.len(),
        ranks(units, rank),
        forall|k: int|
            0 <= k < deps.len() ==> {
                let dep = (#[trigger] deps[k]).index;
                dep < units.len() && rank(dep) < rank(index)
            },
        forall|i: usize|
            i < units.len() && #[trigger] visiting[i as int] ==> rank(index) <= rank(i),
    ensures
        !(walked_deps(units, deps, done, visiting) is Endless),
    decreases unmarked(visiting).len(), deps.len(),
{
    if deps.len() > 0 {
        lemma_walked_ends(units, rank, deps[0].index, done, visiting);
        if let Walk::Done(after) = walked(units, deps[0].index, done, visiting) {
            let rest = deps.drop_first();
            assert(forall|k: int| 0 <= k < rest.len() ==> rest[k] == deps[k + 1]);
            lemma_walked_deps_ends(units, rank, index, rest, after, visiting);
        }
    }
}

proof fn lemma_walked_from_ends(
    units: Seq<UnitGraphUnit>,
    rank: spec_fn(usize) -> nat,
    index: int,
    done: Set<usize>,
)
    requires
        units.len() <= usize::MAX,
        0 <= index <= units.len(),
        ranks(units, rank),
    ensures
        !(walked_from(units, index, done) is Endless),
    decreases units.len() - index,
{
    if index < units.len() {
        lemma_walked_ends(units, rank, index as usize, done, none_visited(units));
        if let Walk::Done(after) = walked(units, index as usize, done, none_visited(units)) {
            lemma_walked_from_ends(units, rank, index + 1, after);
        }
    }
}

/// Where all dependencies are units of the build and no unit depends on itself, directly or
/// not, the walk over the units ends.
pub proof fn well_founded_walks_end(units: Seq<UnitGraphUnit>)
    requires
        units.len() <= usize::MAX,
        well_founded(units),
    ensures
        walk_ends(units),
{
    let rank = choose|rank: spec_fn(usize) -> nat| #[trigger] ranks(units, rank);
    lemma_walked_from_ends(units, rank, 0, Set::empty());
}

/// A unit that does not tell its source and depends on nothing refuses the walk that comes
/// to it, so that what would be visited later does not matter.
pub proof fn refused_units_end_the_walk(
    units: Seq<UnitGraphUnit>,
    index: usize,
    done: Set<usize>,
    visiting: Seq<bool>,
)
    requires
        visiting.len() == units.len(),
        index < units.len(),
        !done.contains(index),
        !visiting[index as int],
        units[index as int].dependencies@.len() == 0,
        !units[index as int].pkg_id@.contains('#'),
    ensures
        walked(units, index, done, visiting) == Walk::Refused(done),
        index == 0 && done == Set::<usize>::empty() ==> walk_ends(units),
{
    let inner = visiting.update(index as int, true);
    let pkg_id = units[index as int].pkg_id@;
    crate::hash_laws::sources_stand_before_a_hash_sign(pkg_id);
    assert(walked_deps(units, units[index as int].dependencies@, done, inner) == Walk::Done(done));
    if index == 0 && done == Set::<usize>::empty() {
        let none = none_visited(units);
        let marked = none.update(0, true);
        assert(walked_deps(units, units[0].dependencies@, done, marked) == Walk::Done(done));
        assert(walked(units, 0, done, none) == Walk::Refused(done));
    }
}

/// What came of a walk.
#[derive(Clone, Copy, PartialEq, Eq, Debug, Structural)]
enum Outcome {
    Done,
    Refused,
    Endless,
}

/// The walk ended with this outcome, and `done` has been visited.
spec fn comes_to(walk: Walk, outcome: Outcome, done: Set<usize>) -> bool {
    match outcome {
        Outcome::Done => walk == Walk::Done(done),
        Outcome::Refused => walk is Refused,
        Outcome::Endless => walk is Endless,
    }
}

/// Visits unit `index`.
fn visit(
    units: &[UnitGraphUnit],
    index: usize,
    done: &mut HashSet<usize>,
    visiting: &mut Vec<bool>,
) -> (result: Outcome)
    requires
        old(visiting)@.len() == units@.len(),
    ensures
        comes_to(walked(units@, index, old(done)@, old(visiting)@), result, final(done)@),
        result == Outcome::Done ==> final(visiting)@ == old(visiting)@,
    decreases unmarked(old(visiting)@).len(),
{
    if done.contains(&index) {
        return Outcome::Done;
    }
    if index >= units.len() || visiting[index] {
        return Outcome::Endless;
    }
    proof {
        lemma_mark(visiting@, index as int);
    }
    visiting.set(index, true);
    let unit: &UnitGraphUnit = &units[index];
    let ghost marks = visiting@;
    let mut k: usize = 0;
    assert(unit.dependencies@.skip(0) =~= unit.dependencies@);
    while k < unit.dependencies.len()
        invariant
            k <= unit.dependencies@.len(),
            index < units@.len(),
            *unit == units@[index as int],
            old(visiting)@.len() == units@.len(),
            !old(done)@.contains(index),
            !old(visiting)@[index as int],
            visiting@ == marks,
            marks == old(visiting)@.update(index as int, true),
            unmarked(marks).len() < unmarked(old(visiting)@).len(),
            walked_deps(units@, unit.dependencies@, old(done)@, marks) == walked_deps(
                units@,
                unit.dependencies@.skip(k as int),
                done@,
                marks,
            ),
        decreases unit.dependencies@.len() - k,
    {
        assert(unit.dependencies@.skip(k as int).drop_first() =~= unit.dependencies@.skip(k + 1));
        let outcome = visit(units, unit.dependencies[k].index, done, visiting);
        if outcome != Outcome::Done {
            return outcome;
        }
        k = k + 1;
    }
    if unit_graph::parse_package_id_source(unit.pkg_id.as_str()).is_err() {
        return Outcome::Refused;
    }
    done.insert(index);
    visiting.set(index, false);
    assert(visiting@ =~= old(visiting)@);
    Outcome::Done
}

/// Whether the walk over all units ends.
pub fn does_walk_end(units: &[UnitGraphUnit]) -> (result: bool)
    ensures
        result == walk_ends(units@),
{
    let mut visiting: Vec<bool> = Vec::new();
    while visiting.len() < units.len()
        invariant
            visiting@.len() <= units@.len(),
            forall|i: int| 0 <= i < visiting@.len() ==> !visiting@[i],
        decreases units@.len() - visiting@.len(),
    {
        visiting.push(false);
    }
    let mut done: HashSet<usize> = HashSet::new();
    let mut index: usize = 0;
    assert(visiting@ =~= none_visited(units@));
    while index < units.len()
        invariant
            index <= units@.len(),
            visiting@ == none_visited(units@),
            walked_from(units@, 0, Set::empty()) == walked_from(units@, index as int, done@),
        decreases units@.len() - index,
    {
        match visit(units, index, &mut done, &mut visiting) {
            Outcome::Done => {},
            Outcome::Refused => {
                return true;
            },
            Outcome::Endless => {
                return false;
            },
        }
        index = index + 1;
    }
    true
}

} // verus!
