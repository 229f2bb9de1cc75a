//! Which fingerprints have to be rewritten, in which order, before a unit's own
//! fingerprint can be saved.
//!
//! A fingerprint is known by its hash and by the hashes of the fingerprints it depends
//! on. Rewriting one needs all of these to be rewritten first, and roots its source
//! path at a directory that is the same on every machine.
use vstd::prelude::*;

use std::collections::{HashMap, HashSet};

use crate::path;

verus! {

broadcast use vstd::std_specs::hash::group_hash_axioms;

/// A path, told by the directory that it lies in.
#[derive(Debug)]
pub enum QualifiedPath {
    /// A path that is not absolute.
    Rootless(String),
    /// A path below the profile directory of the build.
    RelativeTargetProfile(String),
    /// A path below the Cargo home directory.
    RelativeCargoHome(String),
    /// Any other path.
    Absolute(String),
}

impl QualifiedPath {
    /// The same path again.
    pub fn duplicate(&self) -> (result: Self)
        ensures
            result == *self,
    {
        match self {
            QualifiedPath::Rootless(p) => QualifiedPath::Rootless(p.clone()),
            QualifiedPath::RelativeTargetProfile(p) => QualifiedPath::RelativeTargetProfile(
                p.clone(),
            ),
            QualifiedPath::RelativeCargoHome(p) => QualifiedPath::RelativeCargoHome(p.clone()),
            QualifiedPath::Absolute(p) => QualifiedPath::Absolute(p.clone()),
        }
    }
}

/// A fingerprint: its hash, and the hashes of the fingerprints it depends on.
#[derive(Debug)]
pub struct Fingerprint {
    pub hash: u64,
    pub deps: Vec<u64>,
}

/// What has to be known of a unit to rewrite its fingerprint.
#[derive(Debug)]
pub struct FingerprintRewriteInput {
    pub src_path: Option<QualifiedPath>,
    pub fingerprint: Fingerprint,
}

/// Why a fingerprint cannot be rewritten.
#[derive(Debug)]
pub enum RewriteError {
    /// A fingerprint depends on itself.
    Cycle,
    /// No unit has the fingerprint that another one depends on.
    DependencyNotFound,
    /// The source path is not absolute.
    PathNotAbsolute(String),
    /// The source path lies outside the Cargo home directory.
    UnexpectedPathRoot(String),
}

/// What a [`RewriteError`] stands for.
pub enum RewriteErrorView {
    Cycle,
    DependencyNotFound,
    PathNotAbsolute(Seq<char>),
    UnexpectedPathRoot(Seq<char>),
}

impl View for RewriteError {
    type V = RewriteErrorView;

    open spec fn view(&self) -> RewriteErrorView {
        match self {
            RewriteError::Cycle => RewriteErrorView::Cycle,
            RewriteError::DependencyNotFound => RewriteErrorView::DependencyNotFound,
            RewriteError::PathNotAbsolute(path) => RewriteErrorView::PathNotAbsolute(path@),
            RewriteError::UnexpectedPathRoot(path) => RewriteErrorView::UnexpectedPathRoot(path@),
        }
    }
}

impl RewriteErrorView {
    /// The message of the error.
    pub open spec fn message(self) -> Seq<char> {
        match self {
            RewriteErrorView::Cycle => "cycle in fingerprint dependencies"@,
            RewriteErrorView::DependencyNotFound => "dependency fingerprint hash not found"@,
            RewriteErrorView::PathNotAbsolute(path) =>
                "impossible: fingerprint path is not absolute: "@ + path,
            RewriteErrorView::UnexpectedPathRoot(path) =>
                "unexpected fingerprint path root: "@ + path,
        }
    }
}

impl RewriteError {
    /// The message of the error.
    pub fn message(&self) -> (result: String)
        ensures
            result@ == self@.message(),
    {
        match self {
            RewriteError::Cycle => "cycle in fingerprint dependencies".to_owned(),
            RewriteError::DependencyNotFound => "dependency fingerprint hash not found".to_owned(),
            RewriteError::PathNotAbsolute(path) =>
                "impossible: fingerprint path is not absolute: ".to_owned().concat(path.as_str()),
            RewriteError::UnexpectedPathRoot(path) =>
                "unexpected fingerprint path root: ".to_owned().concat(path.as_str()),
        }
    }
}

/// One fingerprint to rewrite: its hash before, and the source path to give it.
#[derive(Debug)]
pub struct RewriteStep {
    pub hash: u64,
    pub src_path: Option<String>,
}

/// What a [`RewriteStep`] stands for.
pub struct RewriteStepView {
    pub hash: u64,
    pub src_path: Option<Seq<char>>,
}

impl View for RewriteStep {
    type V = RewriteStepView;

    open spec fn view(&self) -> RewriteStepView {
        RewriteStepView { hash: self.hash, src_path: self.src_path.deep_view() }
    }
}

/// The steps of a plan.
pub open spec fn steps_view(steps: Seq<RewriteStep>) -> Seq<RewriteStepView> {
    steps.map_values(|step: RewriteStep| step@)
}

/// The path that a source path is rewritten to: rooted at one and the same Cargo home
/// directory, wherever that lies on this machine.
pub open spec fn rewritten_src_path(src_path: Option<QualifiedPath>) -> Result<
    Option<Seq<char>>,
    RewriteErrorView,
> {
    match src_path {
        None => Ok(None),
        Some(QualifiedPath::Rootless(p)) => Err(RewriteErrorView::PathNotAbsolute(p@)),
        Some(QualifiedPath::RelativeTargetProfile(p)) => Err(
            RewriteErrorView::UnexpectedPathRoot(p@),
        ),
        Some(QualifiedPath::Absolute(p)) => Err(RewriteErrorView::UnexpectedPathRoot(p@)),
        Some(QualifiedPath::RelativeCargoHome(p)) => Ok(Some(path::joined("/cargo_home"@, p@))),
    }
}

/// Roots a source path at `/cargo_home`.
///
/// Units that were compiled under different Cargo home directories have the same
/// source path afterwards, and so the same fingerprint hash.
pub fn rewrite_src_path(src_path: &Option<QualifiedPath>) -> (result: Result<
    Option<String>,
    RewriteError,
>)
    ensures
        match result {
            Ok(p) => rewritten_src_path(*src_path) == Ok::<_, RewriteErrorView>(p.deep_view()),
            Err(e) => rewritten_src_path(*src_path) == Err::<Option<Seq<char>>, _>(e@),
        },
{
    match src_path {
        None => Ok(None),
        Some(QualifiedPath::Rootless(p)) => Err(RewriteError::PathNotAbsolute(p.clone())),
        Some(QualifiedPath::RelativeTargetProfile(p)) => Err(
            RewriteError::UnexpectedPathRoot(p.clone()),
        ),
        Some(QualifiedPath::Absolute(p)) => Err(RewriteError::UnexpectedPathRoot(p.clone())),
        Some(QualifiedPath::RelativeCargoHome(p)) => {
            let joined = path::join("/cargo_home", p.as_str());
            Ok(Some(joined))
        },
    }
}

/// How far a walk over fingerprints has come: which hashes have been rewritten, and the
/// steps that this took.
pub struct Walk {
    pub done: Set<u64>,
    pub steps: Seq<RewriteStepView>,
}

/// The hashes of the known fingerprints.
pub open spec fn known_hashes(inputs: Map<u64, FingerprintRewriteInput>) -> Set<u64> {
    inputs.dom().map(|key: u64| inputs[key].fingerprint.hash)
}

/// How many known hashes are not being visited.
pub open spec fn unvisited(
    inputs: Map<u64, FingerprintRewriteInput>,
    visiting: Set<u64>,
) -> nat {
    known_hashes(inputs).difference(visiting).len()
}

/// How many hashes, `hash` and the known ones, are not being visited.
pub open spec fn unvisited_with(
    inputs: Map<u64, FingerprintRewriteInput>,
    hash: u64,
    visiting: Set<u64>,
) -> nat {
    known_hashes(inputs).insert(hash).difference(visiting).len()
}

/// Starting on a hash leaves fewer to visit.
pub proof fn lemma_visit_decreases(
    inputs: Map<u64, FingerprintRewriteInput>,
    hash: u64,
    visiting: Set<u64>,
)
    requires
        inputs.dom().finite(),
        !visiting.contains(hash),
    ensures
        unvisited(inputs, visiting.insert(hash)) < unvisited_with(inputs, hash, visiting),
{
    inputs.dom().lemma_map_finite(|key: u64| inputs[key].fingerprint.hash);
    let all = known_hashes(inputs).insert(hash).difference(visiting);
    let rest = known_hashes(inputs).difference(visiting.insert(hash));
    assert(rest.subset_of(all));
    assert(all.contains(hash) && !rest.contains(hash));
    rest.lemma_subset_not_in_lt(all, hash);
}

/// A known fingerprint adds no hash to visit.
pub proof fn lemma_known_hash(
    inputs: Map<u64, FingerprintRewriteInput>,
    key: u64,
    visiting: Set<u64>,
)
    requires
        inputs.contains_key(key),
    ensures
        unvisited_with(inputs, inputs[key].fingerprint.hash, visiting) == unvisited(
            inputs,
            visiting,
        ),
{
    let hash = inputs[key].fingerprint.hash;
    assert(known_hashes(inputs).contains(hash));
    assert(known_hashes(inputs).insert(hash) =~= known_hashes(inputs));
}

/// The walk that rewrites `fingerprint`, and why it stops short, if it does: nothing is
/// left to do for a hash that has been rewritten, a hash that is being visited closes a
/// cycle, and any other one is rewritten after all that it depends on.
pub open spec fn walked(
    inputs: Map<u64, FingerprintRewriteInput>,
    src_path: Option<QualifiedPath>,
    fingerprint: Fingerprint,
    walk: Walk,
    visiting: Set<u64>,
) -> (Walk, Option<RewriteErrorView>)
    decreases unvisited_with(inputs, fingerprint.hash, visiting), 0nat,
    when inputs.dom().finite()
{
    if walk.done.contains(fingerprint.hash) {
        (walk, None)
    } else if visiting.contains(fingerprint.hash) {
        (walk, Some(RewriteErrorView::Cycle))
    } else {
        proof {
            lemma_visit_decreases(inputs, fingerprint.hash, visiting);
        }
        let (after, stop) = walked_deps(
            inputs,
            fingerprint.deps@,
            walk,
            visiting.insert(fingerprint.hash),
        );
        if stop is Some {
            (after, stop)
        } else {
            match rewritten_src_path(src_path) {
                Err(error) => (after, Some(error)),
                Ok(path) => (
                    Walk {
                        done: after.done.insert(fingerprint.hash),
                        steps: after.steps.push(
                            RewriteStepView { hash: fingerprint.hash, src_path: path },
                        ),
                    },
                    None,
                ),
            }
        }
    }
}

/// The walk that rewrites the fingerprints with the hashes `deps`, one after the other,
/// and why it stops short, if it does.
pub open spec fn walked_deps(
    inputs: Map<u64, FingerprintRewriteInput>,
    deps: Seq<u64>,
    walk: Walk,
    visiting: Set<u64>,
) -> (Walk, Option<RewriteErrorView>)
    decreases unvisited(inputs, visiting), deps.len(),
    when inputs.dom().finite()
{
    if deps.len() == 0 {
        (walk, None)
    } else if walk.done.contains(deps[0]) {
        walked_deps(inputs, deps.drop_first(), walk, visiting)
    } else if !inputs.contains_key(deps[0]) {
        (walk, Some(RewriteErrorView::DependencyNotFound))
    } else {
        proof {
            lemma_known_hash(inputs, deps[0], visiting);
        }
        let input = inputs[deps[0]];
        let (after, stop) = walked(inputs, input.src_path, input.fingerprint, walk, visiting);
        if stop is Some {
            (after, stop)
        } else {
            walked_deps(inputs, deps.drop_first(), after, visiting)
        }
    }
}

/// The walk that has come to `steps`, where `done` had been rewritten before it and
/// `planned` are the hashes of its steps.
pub open spec fn walk_at(done: Set<u64>, planned: Set<u64>, steps: Seq<RewriteStep>) -> Walk {
    Walk { done: done.union(planned), steps: steps_view(steps) }
}

/// How a walk ended: with no reason to stop, or with the one that `result` holds.
pub open spec fn stopped_by(stop: Option<RewriteErrorView>, result: Result<(), RewriteError>) -> bool {
    match result {
        Ok(_) => stop is None,
        Err(error) => stop == Some(error@),
    }
}

/// Goes on with the walk until `fingerprint` is rewritten.
fn rewrite_fingerprint_inner(
    src_path: &Option<QualifiedPath>,
    inputs: &HashMap<u64, FingerprintRewriteInput>,
    done: &HashSet<u64>,
    planned: &mut HashSet<u64>,
    visiting: &mut HashSet<u64>,
    steps: &mut Vec<RewriteStep>,
    fingerprint: &Fingerprint,
) -> (result: Result<(), RewriteError>)
    ensures
        ({
            let (walk, stop) = walked(
                inputs@,
                *src_path,
                *fingerprint,
                walk_at(done@, old(planned)@, old(steps)@),
                old(visiting)@,
            );
            &&& walk_at(done@, final(planned)@, final(steps)@) == walk
            &&& stopped_by(stop, result)
        }),
        result is Ok ==> final(visiting)@ == old(visiting)@,
    decreases unvisited_with(inputs@, fingerprint.hash, old(visiting)@),
{
    if done.contains(&fingerprint.hash) || planned.contains(&fingerprint.hash) {
        return Ok(());
    }
    if !visiting.insert(fingerprint.hash) {
        return Err(RewriteError::Cycle);
    }
    proof {
        lemma_visit_decreases(inputs@, fingerprint.hash, old(visiting)@);
    }
    let ghost visited = visiting@;
    let ghost start = walk_at(done@, planned@, steps@);
    let mut i: usize = 0;
    assert(fingerprint.deps@.skip(0) =~= fingerprint.deps@);
    while i < fingerprint.deps.len()
        invariant
            i <= fingerprint.deps@.len(),
            visiting@ == visited,
            visited == old(visiting)@.insert(fingerprint.hash),
            !old(visiting)@.contains(fingerprint.hash),
            start == walk_at(done@, old(planned)@, old(steps)@),
            !start.done.contains(fingerprint.hash),
            unvisited(inputs@, visited) < unvisited_with(
                inputs@,
                fingerprint.hash,
                old(visiting)@,
            ),
            walked_deps(inputs@, fingerprint.deps@, start, visited) == walked_deps(
                inputs@,
                fingerprint.deps@.skip(i as int),
                walk_at(done@, planned@, steps@),
                visited,
            ),
        decreases fingerprint.deps@.len() - i,
    {
        let dep: u64 = fingerprint.deps[i];
        assert(fingerprint.deps@.skip(i as int).drop_first() =~= fingerprint.deps@.skip(i + 1));
        if !(done.contains(&dep) || planned.contains(&dep)) {
            match inputs.get(&dep) {
                None => {
                    return Err(RewriteError::DependencyNotFound);
                },
                Some(input) => {
                    proof {
                        lemma_known_hash(inputs@, dep, visited);
                    }
                    match rewrite_fingerprint_inner(
                        &input.src_path,
                        inputs,
                        done,
                        planned,
                        visiting,
                        steps,
                        &input.fingerprint,
                    ) {
                        Ok(_) => {},
                        Err(error) => {
                            return Err(error);
                        },
                    }
                },
            }
        }
        i = i + 1;
    }
    match rewrite_src_path(src_path) {
        Err(error) => Err(error),
        Ok(path) => {
            let ghost walk = walk_at(done@, planned@, steps@);
            planned.insert(fingerprint.hash);
            visiting.remove(&fingerprint.hash);
            steps.push(RewriteStep { hash: fingerprint.hash, src_path: path });
            proof {
                assert(visiting@ =~= old(visiting)@);
                assert(done@.union(planned@) =~= walk.done.insert(fingerprint.hash));
                assert(steps_view(steps@) =~= walk.steps.push(steps@.last()@));
            }
            Ok(())
        },
    }
}

/// The steps that rewrite a fingerprint, in order, and whether they get that far.
#[derive(Debug)]
pub struct RewritePlan {
    /// The fingerprints to rewrite, each after those it depends on.
    pub steps: Vec<RewriteStep>,
    /// Why the fingerprint itself cannot be rewritten after these steps, if it cannot.
    pub outcome: Result<(), RewriteError>,
}

/// The walk that rewrites a fingerprint where the hashes in `done` have been rewritten
/// before, and why it stops short, if it does.
pub open spec fn planned_walk(
    src_path: Option<QualifiedPath>,
    inputs: Map<u64, FingerprintRewriteInput>,
    done: Set<u64>,
    fingerprint: Fingerprint,
) -> (Walk, Option<RewriteErrorView>) {
    walked(
        inputs,
        src_path,
        fingerprint,
        Walk { done, steps: Seq::empty() },
        Set::empty(),
    )
}

/// Plans the rewriting of `fingerprint`, where the hashes in `done` have been rewritten
/// before.
pub fn rewrite_fingerprint(
    src_path: &Option<QualifiedPath>,
    inputs: &HashMap<u64, FingerprintRewriteInput>,
    done: &HashSet<u64>,
    fingerprint: &Fingerprint,
) -> (result: RewritePlan)
    ensures
        ({
            let (walk, stop) = planned_walk(*src_path, inputs@, done@, *fingerprint);
            &&& steps_view(result.steps@) == walk.steps
            &&& stopped_by(stop, result.outcome)
        }),
{
    let mut planned: HashSet<u64> = HashSet::new();
    let mut visiting: HashSet<u64> = HashSet::new();
    let mut steps: Vec<RewriteStep> = Vec::new();
    proof {
        assert(done@.union(planned@) =~= done@);
        assert(steps_view(steps@) =~= Seq::empty());
    }
    let outcome = rewrite_fingerprint_inner(
        src_path,
        inputs,
        done,
        &mut planned,
        &mut visiting,
        &mut steps,
        fingerprint,
    );
    RewritePlan { steps, outcome }
}

/// Every fingerprint is filed under its own hash.
pub open spec fn filed_by_hash(inputs: Map<u64, FingerprintRewriteInput>) -> bool {
    forall|key: u64| #[trigger]
        inputs.contains_key(key) ==> inputs[key].fingerprint.hash == key
}

/// What the fingerprint with hash `hash` depends on, in a walk that rewrites `root`.
pub open spec fn deps_of(
    inputs: Map<u64, FingerprintRewriteInput>,
    root: Fingerprint,
    hash: u64,
) -> Seq<u64> {
    if hash == root.hash {
        root.deps@
    } else {
        inputs[hash].fingerprint.deps@
    }
}

/// The hashes that have been rewritten before step `i`.
pub open spec fn rewritten_before(done: Set<u64>, steps: Seq<RewriteStepView>, i: int) -> Set<u64> {
    Set::new(|hash: u64| done.contains(hash) || exists|j: int| 0 <= j < i && (#[trigger] steps[j]).hash == hash)
}

/// Step `i` rewrites a fingerprint that has not been rewritten before, while all that it
/// depends on has been.
pub open spec fn step_in_order(
    inputs: Map<u64, FingerprintRewriteInput>,
    root: Fingerprint,
    done: Set<u64>,
    steps: Seq<RewriteStepView>,
    i: int,
) -> bool {
    let before = rewritten_before(done, steps, i);
    &&& !before.contains(steps[i].hash)
    &&& forall|k: int|
        0 <= k < deps_of(inputs, root, steps[i].hash).len() ==> before.contains(
            #[trigger] deps_of(inputs, root, steps[i].hash)[k],
        )
}

/// All steps are in order.
pub open spec fn in_dependency_order(
    inputs: Map<u64, FingerprintRewriteInput>,
    root: Fingerprint,
    done: Set<u64>,
    steps: Seq<RewriteStepView>,
) -> bool {
    forall|i: int| 0 <= i < steps.len() ==> #[trigger] step_in_order(inputs, root, done, steps, i)
}

/// The walk accounts for its steps, and they are in order.
spec fn sound(
    inputs: Map<u64, FingerprintRewriteInput>,
    root: Fingerprint,
    done: Set<u64>,
    walk: Walk,
) -> bool {
    &&& walk.done == rewritten_before(done, walk.steps, walk.steps.len() as int)
    &&& in_dependency_order(inputs, root, done, walk.steps)
}

/// The walk goes on from `from` to `to`, and rewrites nothing that is being visited.
spec fn goes_on(from: Walk, to: Walk, visiting: Set<u64>) -> bool {
    &&& from.done.subset_of(to.done)
    &&& forall|hash: u64| #[trigger]
        to.done.contains(hash) && visiting.contains(hash) ==> from.done.contains(hash)
}

proof fn lemma_walked_sound(
    inputs: Map<u64, FingerprintRewriteInput>,
    root: Fingerprint,
    done: Set<u64>,
    src_path: Option<QualifiedPath>,
    fingerprint: Fingerprint,
    walk: Walk,
    visiting: Set<u64>,
)
    requires
        inputs.dom().finite(),
        filed_by_hash(inputs),
        fingerprint == root || visiting.contains(root.hash) && inputs.contains_key(
            fingerprint.hash,
        ) && inputs[fingerprint.hash].fingerprint == fingerprint,
        sound(inputs, root, done, walk),
    ensures
        ({
            let (to, stop) = walked(inputs, src_path, fingerprint, walk, visiting);
            &&& sound(inputs, root, done, to)
            &&& goes_on(walk, to, visiting)
            &&& stop is None ==> to.done.contains(fingerprint.hash)
        }),
    decreases unvisited_with(inputs, fingerprint.hash, visiting), 0nat,
{
    if !walk.done.contains(fingerprint.hash) && !visiting.contains(fingerprint.hash) {
        lemma_visit_decreases(inputs, fingerprint.hash, visiting);
        let inner = visiting.insert(fingerprint.hash);
        lemma_walked_deps_sound(inputs, root, done, fingerprint.deps@, walk, inner);
        let (after, stop) = walked_deps(inputs, fingerprint.deps@, walk, inner);
        if stop is None && rewritten_src_path(src_path) is Ok {
            let (to, _) = walked(inputs, src_path, fingerprint, walk, visiting);
            let n = after.steps.len() as int;
            assert(to.steps.drop_last() =~= after.steps);
            assert forall|i: int| 0 <= i < to.steps.len() implies #[trigger] step_in_order(
                inputs,
                root,
                done,
                to.steps,
                i,
            ) by {
                assert(rewritten_before(done, to.steps, i) =~= rewritten_before(
                    done,
                    after.steps,
                    i,
                )) by {
                    assert(forall|j: int| 0 <= j < n ==> to.steps[j] == after.steps[j]);
                }
                if i < n {
                    assert(step_in_order(inputs, root, done, after.steps, i));
                    assert(to.steps[i] == after.steps[i]);
                } else {
                    assert(deps_of(inputs, root, fingerprint.hash) == fingerprint.deps@);
                    assert(inner.contains(fingerprint.hash));
                    assert(!after.done.contains(fingerprint.hash));
                }
            }
            assert(to.done =~= rewritten_before(done, to.steps, to.steps.len() as int)) by {
                assert(to.steps[n].hash == fingerprint.hash);
                assert(forall|j: int| 0 <= j < n ==> to.steps[j] == after.steps[j]);
            }
        }
    }
}

proof fn lemma_walked_deps_sound(
    inputs: Map<u64, FingerprintRewriteInput>,
    root: Fingerprint,
    done: Set<u64>,
    deps: Seq<u64>,
    walk: Walk,
    visiting: Set<u64>,
)
    requires
        inputs.dom().finite(),
        filed_by_hash(inputs),
        visiting.contains(root.hash),
        sound(inputs, root, done, walk),
    ensures
        ({
            let (to, stop) = walked_deps(inputs, deps, walk, visiting);
            &&& sound(inputs, root, done, to)
            &&& goes_on(walk, to, visiting)
            &&& stop is None ==> forall|k: int|
                0 <= k < deps.len() ==> to.done.contains(#[trigger] deps[k])
        }),
    decreases unvisited(inputs, visiting), deps.len(),
{
    if deps.len() > 0 {
        let rest = deps.drop_first();
        let next = if walk.done.contains(deps[0]) {
            walk
        } else if inputs.contains_key(deps[0]) {
            lemma_known_hash(inputs, deps[0], visiting);
            let input = inputs[deps[0]];
            lemma_walked_sound(
                inputs,
                root,
                done,
                input.src_path,
                input.fingerprint,
                walk,
                visiting,
            );
            walked(inputs, input.src_path, input.fingerprint, walk, visiting).0
        } else {
            walk
        };
        lemma_walked_deps_sound(inputs, root, done, rest, next, visiting);
        let (to, stop) = walked_deps(inputs, deps, walk, visiting);
        if stop is None {
            assert forall|k: int| 0 <= k < deps.len() implies to.done.contains(
                #[trigger] deps[k],
            ) by {
                if k > 0 {
                    assert(deps[k] == rest[k - 1]);
                }
            }
        }
    }
}

/// A plan rewrites no fingerprint twice and none that had been rewritten before, and
/// rewrites each one after all that it depends on. Where nothing stops it, the
/// fingerprint that it is for has been rewritten at its end.
pub proof fn plan_is_in_dependency_order(
    src_path: Option<QualifiedPath>,
    inputs: Map<u64, FingerprintRewriteInput>,
    done: Set<u64>,
    fingerprint: Fingerprint,
)
    requires
        inputs.dom().finite(),
        filed_by_hash(inputs),
    ensures
        ({
            let (walk, stop) = planned_walk(src_path, inputs, done, fingerprint);
            &&& in_dependency_order(inputs, fingerprint, done, walk.steps)
            &&& walk.done == rewritten_before(done, walk.steps, walk.steps.len() as int)
            &&& stop is None ==> walk.done.contains(fingerprint.hash)
        }),
{
    let start = Walk { done, steps: Seq::empty() };
    assert(done =~= rewritten_before(done, start.steps, 0));
    lemma_walked_sound(inputs, fingerprint, done, src_path, fingerprint, start, Set::empty());
}

/// `rank` falls from every fingerprint to each one that it depends on.
pub open spec fn ranked(
    inputs: Map<u64, FingerprintRewriteInput>,
    root: Fingerprint,
    rank: spec_fn(u64) -> nat,
) -> bool {
    &&& forall|k: int| 0 <= k < root.deps@.len() ==> rank(#[trigger] root.deps@[k]) < rank(root.hash)
    &&& forall|key: u64, k: int|
        inputs.contains_key(key) && 0 <= k < inputs[key].fingerprint.deps@.len() ==> rank(
            #[trigger] inputs[key].fingerprint.deps@[k],
        ) < rank(key)
}

/// Every fingerprint that another one depends on is known, or has been rewritten.
pub open spec fn complete(
    inputs: Map<u64, FingerprintRewriteInput>,
    root: Fingerprint,
    done: Set<u64>,
) -> bool {
    &&& forall|k: int|
        0 <= k < root.deps@.len() ==> done.contains(#[trigger] root.deps@[k])
            || inputs.contains_key(root.deps@[k])
    &&& forall|key: u64, k: int|
        inputs.contains_key(key) && 0 <= k < inputs[key].fingerprint.deps@.len() ==> done.contains(
            #[trigger] inputs[key].fingerprint.deps@[k],
        ) || inputs.contains_key(inputs[key].fingerprint.deps@[k])
}

/// Every source path can be rewritten.
pub open spec fn paths_rewritable(
    inputs: Map<u64, FingerprintRewriteInput>,
    src_path: Option<QualifiedPath>,
) -> bool {
    &&& rewritten_src_path(src_path) is Ok
    &&& forall|key: u64| #[trigger]
        inputs.contains_key(key) ==> rewritten_src_path(inputs[key].src_path) is Ok
}

proof fn lemma_walked_unstopped(
    inputs: Map<u64, FingerprintRewriteInput>,
    root: Fingerprint,
    rank: spec_fn(u64) -> nat,
    src_path: Option<QualifiedPath>,
    fingerprint: Fingerprint,
    walk: Walk,
    visiting: Set<u64>,
)
    requires
        inputs.dom().finite(),
        filed_by_hash(inputs),
        ranked(inputs, root, rank),
        fingerprint == root || inputs.contains_key(fingerprint.hash)
            && inputs[fingerprint.hash].fingerprint == fingerprint,
        forall|hash: u64| #[trigger]
            visiting.contains(hash) ==> rank(fingerprint.hash) < rank(hash),
    ensures
        ({
            let (to, stop) = walked(inputs, src_path, fingerprint, walk, visiting);
            &&& walk.done.subset_of(to.done)
            &&& stop != Some(RewriteErrorView::Cycle)
            &&& paths_rewritable(inputs, src_path) && complete(inputs, root, walk.done)
                ==> stop is None
        }),
    decreases unvisited_with(inputs, fingerprint.hash, visiting), 0nat,
{
    if !walk.done.contains(fingerprint.hash) && !visiting.contains(fingerprint.hash) {
        lemma_visit_decreases(inputs, fingerprint.hash, visiting);
        lemma_walked_deps_unstopped(
            inputs,
            root,
            rank,
            src_path,
            fingerprint,
            fingerprint.deps@,
            walk,
            visiting.insert(fingerprint.hash),
        );
    }
}

proof fn lemma_walked_deps_unstopped(
    inputs: Map<u64, FingerprintRewriteInput>,
    root: Fingerprint,
    rank: spec_fn(u64) -> nat,
    src_path: Option<QualifiedPath>,
    fingerprint: Fingerprint,
    deps: Seq<u64>,
    walk: Walk,
    visiting: Set<u64>,
)
    requires
        inputs.dom().finite(),
        filed_by_hash(inputs),
        ranked(inputs, root, rank),
        fingerprint == root || inputs.contains_key(fingerprint.hash)
            && inputs[fingerprint.hash].fingerprint == fingerprint,
        forall|k: int| 0 <= k < deps.len() ==> fingerprint.deps@.contains(#[trigger] deps[k]),
        forall|hash: u64| #[trigger]
            visiting.contains(hash) ==> rank(fingerprint.hash) <= rank(hash),
    ensures
        ({
            let (to, stop) = walked_deps(inputs, deps, walk, visiting);
            &&& walk.done.subset_of(to.done)
            &&& stop != Some(RewriteErrorView::Cycle)
            &&& paths_rewritable(inputs, src_path) && complete(inputs, root, walk.done)
                ==> stop is None
        }),
    decreases unvisited(inputs, visiting), deps.len(),
{
    if deps.len() > 0 {
        let rest = deps.drop_first();
        assert(forall|k: int| 0 <= k < rest.len() ==> rest[k] == deps[k + 1]);
        assert(fingerprint.deps@.contains(deps[0]));
        let m = choose|m: int| 0 <= m < fingerprint.deps@.len() && fingerprint.deps@[m] == deps[0];
        assert(rank(deps[0]) < rank(fingerprint.hash)) by {
            assert(fingerprint == root ==> rank(root.deps@[m]) < rank(root.hash));
        }
        let next = if walk.done.contains(deps[0]) {
            walk
        } else if inputs.contains_key(deps[0]) {
            lemma_known_hash(inputs, deps[0], visiting);
            let input = inputs[deps[0]];
            lemma_walked_unstopped(
                inputs,
                root,
                rank,
                input.src_path,
                input.fingerprint,
                walk,
                visiting,
            );
            walked(inputs, input.src_path, input.fingerprint, walk, visiting).0
        } else {
            walk
        };
        if complete(inputs, root, walk.done) {
            assert(complete(inputs, root, next.done));
        }
        lemma_walked_deps_unstopped(
            inputs,
            root,
            rank,
            src_path,
            fingerprint,
            rest,
            next,
            visiting,
        );
    }
}

/// Where no fingerprint depends on itself, directly or not, a plan reports no cycle.
/// Where also every dependency is known or rewritten and every source path can be
/// rewritten, it rewrites the fingerprint.
pub proof fn acyclic_plan_succeeds(
    src_path: Option<QualifiedPath>,
    inputs: Map<u64, FingerprintRewriteInput>,
    done: Set<u64>,
    fingerprint: Fingerprint,
    rank: spec_fn(u64) -> nat,
)
    requires
        inputs.dom().finite(),
        filed_by_hash(inputs),
        ranked(inputs, fingerprint, rank),
    ensures
        ({
            let (walk, stop) = planned_walk(src_path, inputs, done, fingerprint);
            &&& stop != Some(RewriteErrorView::Cycle)
            &&& complete(inputs, fingerprint, done) && paths_rewritable(inputs, src_path)
                ==> stop is None
        }),
{
    let start = Walk { done, steps: Seq::empty() };
    lemma_walked_unstopped(inputs, fingerprint, rank, src_path, fingerprint, start, Set::empty());
}

/// Where a source file lies below the Cargo home directory alone decides its rewritten
/// path, which lies below `/cargo_home`: machines with different Cargo home directories
/// agree on it.
pub proof fn cargo_home_does_not_matter(one: String, other: String)
    requires
        one@ == other@,
        !path::absolute(one@),
    ensures
        rewritten_src_path(Some(QualifiedPath::RelativeCargoHome(one))) == rewritten_src_path(
            Some(QualifiedPath::RelativeCargoHome(other)),
        ),
        rewritten_src_path(Some(QualifiedPath::RelativeCargoHome(one))) == Ok::<
            _,
            RewriteErrorView,
        >(Some("/cargo_home"@ + seq!['/'] + one@)),
{
    reveal_strlit("/cargo_home");
}

/// The two paths lie in the same directory, and are the same below it.
pub open spec fn same_place(one: Option<QualifiedPath>, other: Option<QualifiedPath>) -> bool {
    match (one, other) {
        (None, None) => true,
        (Some(QualifiedPath::Rootless(p)), Some(QualifiedPath::Rootless(q))) => p@ == q@,
        (
            Some(QualifiedPath::RelativeTargetProfile(p)),
            Some(QualifiedPath::RelativeTargetProfile(q)),
        ) => p@ == q@,
        (
            Some(QualifiedPath::RelativeCargoHome(p)),
            Some(QualifiedPath::RelativeCargoHome(q)),
        ) => p@ == q@,
        (Some(QualifiedPath::Absolute(p)), Some(QualifiedPath::Absolute(q))) => p@ == q@,
        _ => false,
    }
}

/// The two fingerprints have the same hash and depend on the same ones.
pub open spec fn same_fingerprint(one: Fingerprint, other: Fingerprint) -> bool {
    one.hash == other.hash && one.deps@ == other.deps@
}

/// The same fingerprints are known, with source paths in the same place.
pub open spec fn same_inputs(
    one: Map<u64, FingerprintRewriteInput>,
    other: Map<u64, FingerprintRewriteInput>,
) -> bool {
    &&& one.dom() == other.dom()
    &&& forall|key: u64| #[trigger]
        one.contains_key(key) ==> same_place(one[key].src_path, other[key].src_path)
            && same_fingerprint(one[key].fingerprint, other[key].fingerprint)
}

proof fn lemma_same_walk(
    one: Map<u64, FingerprintRewriteInput>,
    other: Map<u64, FingerprintRewriteInput>,
    src_path: Option<QualifiedPath>,
    other_src_path: Option<QualifiedPath>,
    fingerprint: Fingerprint,
    other_fingerprint: Fingerprint,
    walk: Walk,
    visiting: Set<u64>,
)
    requires
        one.dom().finite(),
        same_inputs(one, other),
        same_place(src_path, other_src_path),
        same_fingerprint(fingerprint, other_fingerprint),
    ensures
        walked(one, src_path, fingerprint, walk, visiting) == walked(
            other,
            other_src_path,
            other_fingerprint,
            walk,
            visiting,
        ),
    decreases unvisited_with(one, fingerprint.hash, visiting), 0nat,
{
    if !walk.done.contains(fingerprint.hash) && !visiting.contains(fingerprint.hash) {
        lemma_visit_decreases(one, fingerprint.hash, visiting);
        lemma_same_walk_of_deps(
            one,
            other,
            fingerprint.deps@,
            walk,
            visiting.insert(fingerprint.hash),
        );
    }
}

proof fn lemma_same_walk_of_deps(
    one: Map<u64, FingerprintRewriteInput>,
    other: Map<u64, FingerprintRewriteInput>,
    deps: Seq<u64>,
    walk: Walk,
    visiting: Set<u64>,
)
    requires
        one.dom().finite(),
        same_inputs(one, other),
    ensures
        walked_deps(one, deps, walk, visiting) == walked_deps(other, deps, walk, visiting),
    decreases unvisited(one, visiting), deps.len(),
{
    if deps.len() > 0 {
        let rest = deps.drop_first();
        if walk.done.contains(deps[0]) {
            lemma_same_walk_of_deps(one, other, rest, walk, visiting);
        } else if one.contains_key(deps[0]) {
            lemma_known_hash(one, deps[0], visiting);
            assert(other.contains_key(deps[0]));
            let input = one[deps[0]];
            let other_input = other[deps[0]];
            lemma_same_walk(
                one,
                other,
                input.src_path,
                other_input.src_path,
                input.fingerprint,
                other_input.fingerprint,
                walk,
                visiting,
            );
            let after = walked(one, input.src_path, input.fingerprint, walk, visiting).0;
            lemma_same_walk_of_deps(one, other, rest, after, visiting);
        } else {
            assert(!other.contains_key(deps[0]));
        }
    }
}

/// Where the Cargo home directory lies does not change a plan: fingerprints with the same
/// hashes and dependencies, and with source paths that are the same below the directory
/// that they lie in, are rewritten by the same steps, to the same paths, and stop for the
/// same reason, if they do.
pub proof fn cargo_home_does_not_matter_for_plans(
    src_path: Option<QualifiedPath>,
    other_src_path: Option<QualifiedPath>,
    inputs: Map<u64, FingerprintRewriteInput>,
    other_inputs: Map<u64, FingerprintRewriteInput>,
    done: Set<u64>,
    fingerprint: Fingerprint,
    other_fingerprint: Fingerprint,
)
    requires
        inputs.dom().finite(),
        same_inputs(inputs, other_inputs),
        same_place(src_path, other_src_path),
        same_fingerprint(fingerprint, other_fingerprint),
    ensures
        planned_walk(src_path, inputs, done, fingerprint) == planned_walk(
            other_src_path,
            other_inputs,
            done,
            other_fingerprint,
        ),
{
    lemma_same_walk(
        inputs,
        other_inputs,
        src_path,
        other_src_path,
        fingerprint,
        other_fingerprint,
        Walk { done, steps: Seq::empty() },
        Set::empty(),
    );
}

} // verus!
