//! What a plan for the rewriting of fingerprints holds, told by the fingerprints that are
//! known.
use vstd::prelude::*;

use crate::fingerprint;
use crate::fingerprint::{Fingerprint, FingerprintRewriteInput, QualifiedPath};
use crate::path;

verus! {

/// A source path below the Cargo home directory is rewritten to the same path below
/// `/cargo_home`, and no source path stays none. A path that lies elsewhere is refused, and
/// the error names it.
pub proof fn source_paths_are_rooted_at_one_cargo_home(p: String)
    ensures
        fingerprint::rewritten_src_path(None) == Ok::<_, fingerprint::RewriteErrorView>(
            None::<Seq<char>>,
        ),
        p@.len() == 0 || p@[0] != '/' ==> fingerprint::rewritten_src_path(
            Some(QualifiedPath::RelativeCargoHome(p)),
        ) == Ok::<_, fingerprint::RewriteErrorView>(
            Some(seq!['/', 'c', 'a', 'r', 'g', 'o', '_', 'h', 'o', 'm', 'e', '/'] + p@),
        ),
        fingerprint::rewritten_src_path(Some(QualifiedPath::Rootless(p))) == Err::<
            Option<Seq<char>>,
            _,
        >(fingerprint::RewriteErrorView::PathNotAbsolute(p@)),
        fingerprint::rewritten_src_path(Some(QualifiedPath::RelativeTargetProfile(p))) == Err::<
            Option<Seq<char>>,
            _,
        >(fingerprint::RewriteErrorView::UnexpectedPathRoot(p@)),
        fingerprint::rewritten_src_path(Some(QualifiedPath::Absolute(p))) == Err::<
            Option<Seq<char>>,
            _,
        >(fingerprint::RewriteErrorView::UnexpectedPathRoot(p@)),
{
    reveal_strlit("/cargo_home");
    assert("/cargo_home"@ + seq!['/'] + p@ =~= seq![
        '/',
        'c',
        'a',
        'r',
        'g',
        'o',
        '_',
        'h',
        'o',
        'm',
        'e',
        '/',
    ] + p@);
    assert(path::absolute(p@) == (p@.len() > 0 && p@[0] == '/'));
}

/// The messages that name a path name all of it.
pub proof fn rewrite_messages_name_the_path(p: Seq<char>)
    ensures
        fingerprint::RewriteErrorView::PathNotAbsolute(p).message()
            == "impossible: fingerprint path is not absolute: "@ + p,
        fingerprint::RewriteErrorView::UnexpectedPathRoot(p).message()
            == "unexpected fingerprint path root: "@ + p,
        fingerprint::RewriteErrorView::Cycle.message() == "cycle in fingerprint dependencies"@,
        fingerprint::RewriteErrorView::DependencyNotFound.message()
            == "dependency fingerprint hash not found"@,
{
}

/// What the fingerprint with this hash depends on, where `root` is the one to rewrite.
pub open spec fn dependencies(
    inputs: Map<u64, FingerprintRewriteInput>,
    root: Fingerprint,
    hash: u64,
) -> Seq<u64> {
    if hash == root.hash {
        root.deps@
    } else {
        inputs[hash].fingerprint.deps@
    }
}

/// The source path of the fingerprint with this hash, where `root` is the one to rewrite.
pub open spec fn source_of(
    inputs: Map<u64, FingerprintRewriteInput>,
    root_src_path: Option<QualifiedPath>,
    root: Fingerprint,
    hash: u64,
) -> Option<QualifiedPath> {
    if hash == root.hash {
        root_src_path
    } else {
        inputs[hash].src_path
    }
}

/// The fingerprint with this hash is reached from `root` by this many dependencies.
pub open spec fn reached_in(
    inputs: Map<u64, FingerprintRewriteInput>,
    root: Fingerprint,
    hash: u64,
    count: nat,
) -> bool
    decreases count,
{
    if count == 0 {
        hash == root.hash
    } else {
        exists|from: u64|
            reached_in(inputs, root, from, (count - 1) as nat) && #[trigger] dependencies(
                inputs,
                root,
                from,
            ).contains(hash)
    }
}

/// The fingerprint with this hash is `root`, or `root` depends on it, directly or not.
pub open spec fn reached(
    inputs: Map<u64, FingerprintRewriteInput>,
    root: Fingerprint,
    hash: u64,
) -> bool {
    exists|count: nat| #[trigger] reached_in(inputs, root, hash, count)
}

/// The step gives the fingerprint with its hash that one's own source path, rewritten, and
/// that fingerprint is the root or one that the root depends on and that is known.
pub open spec fn step_right(
    inputs: Map<u64, FingerprintRewriteInput>,
    root_src_path: Option<QualifiedPath>,
    root: Fingerprint,
    step: fingerprint::RewriteStepView,
) -> bool {
    &&& step.hash == root.hash || inputs.contains_key(step.hash)
    &&& reached(inputs, root, step.hash)
    &&& fingerprint::rewritten_src_path(source_of(inputs, root_src_path, root, step.hash)) == Ok::<
        _,
        fingerprint::RewriteErrorView,
    >(step.src_path)
}

/// All steps are right.
pub open spec fn steps_right(
    inputs: Map<u64, FingerprintRewriteInput>,
    root_src_path: Option<QualifiedPath>,
    root: Fingerprint,
    steps: Seq<fingerprint::RewriteStepView>,
) -> bool {
    forall|i: int|
        0 <= i < steps.len() ==> step_right(inputs, root_src_path, root, #[trigger] steps[i])
}

/// A fingerprint that the root depends on, or the root, depends on one that is neither known
/// nor was rewritten before.
pub open spec fn lacks_dependency(
    inputs: Map<u64, FingerprintRewriteInput>,
    root: Fingerprint,
    done: Set<u64>,
) -> bool {
    exists|hash: u64, k: int| #[trigger]
        reached(inputs, root, hash) && 0 <= k < dependencies(inputs, root, hash).len()
            && !inputs.contains_key(#[trigger] dependencies(inputs, root, hash)[k])
            && !done.contains(dependencies(inputs, root, hash)[k])
}

/// The source path of the root, or of a fingerprint that it depends on, is refused with this
/// error.
pub open spec fn path_refused(
    inputs: Map<u64, FingerprintRewriteInput>,
    root_src_path: Option<QualifiedPath>,
    root: Fingerprint,
    error: fingerprint::RewriteErrorView,
) -> bool {
    exists|hash: u64| #[trigger]
        reached(inputs, root, hash) && fingerprint::rewritten_src_path(
            source_of(inputs, root_src_path, root, hash),
        ) == Err::<Option<Seq<char>>, _>(error)
}

/// The reason to stop is there.
pub open spec fn stop_right(
    inputs: Map<u64, FingerprintRewriteInput>,
    root_src_path: Option<QualifiedPath>,
    root: Fingerprint,
    done: Set<u64>,
    stop: Option<fingerprint::RewriteErrorView>,
) -> bool {
    match stop {
        None => true,
        Some(fingerprint::RewriteErrorView::Cycle) => true,
        Some(fingerprint::RewriteErrorView::DependencyNotFound) => lacks_dependency(
            inputs,
            root,
            done,
        ),
        Some(error) => path_refused(inputs, root_src_path, root, error),
    }
}

proof fn lemma_walked_right(
    inputs: Map<u64, FingerprintRewriteInput>,
    root_src_path: Option<QualifiedPath>,
    root: Fingerprint,
    done: Set<u64>,
    src_path: Option<QualifiedPath>,
    fingerprint: Fingerprint,
    walk: fingerprint::Walk,
    visiting: Set<u64>,
)
    requires
        inputs.dom().finite(),
        fingerprint::filed_by_hash(inputs),
        done.subset_of(walk.done),
        steps_right(inputs, root_src_path, root, walk.steps),
        reached(inputs, root, fingerprint.hash),
        (fingerprint == root && src_path == root_src_path) || {
            &&& visiting.contains(root.hash)
            &&& inputs.contains_key(fingerprint.hash)
            &&& inputs[fingerprint.hash].fingerprint == fingerprint
            &&& inputs[fingerprint.hash].src_path == src_path
        },
    ensures
        ({
            let (to, stop) = fingerprint::walked(inputs, src_path, fingerprint, walk, visiting);
            &&& steps_right(inputs, root_src_path, root, to.steps)
            &&& stop_right(inputs, root_src_path, root, done, stop)
            &&& done.subset_of(to.done)
        }),
    decreases fingerprint::unvisited_with(inputs, fingerprint.hash, visiting), 0nat,
{
    if !walk.done.contains(fingerprint.hash) && !visiting.contains(fingerprint.hash) {
        fingerprint::lemma_visit_decreases(inputs, fingerprint.hash, visiting);
        let inner = visiting.insert(fingerprint.hash);
        assert(dependencies(inputs, root, fingerprint.hash) == fingerprint.deps@);
        assert(source_of(inputs, root_src_path, root, fingerprint.hash) == src_path);
        lemma_walked_deps_right(
            inputs,
            root_src_path,
            root,
            done,
            fingerprint.hash,
            fingerprint.deps@,
            0,
            walk,
            inner,
        );
        assert(fingerprint.deps@.skip(0) =~= fingerprint.deps@);
        let (after, stop) = fingerprint::walked_deps(inputs, fingerprint.deps@, walk, inner);
        if stop is None {
            let (to, reason) = fingerprint::walked(inputs, src_path, fingerprint, walk, visiting);
            if fingerprint::rewritten_src_path(src_path) is Ok {
                assert forall|i: int| 0 <= i < to.steps.len() implies step_right(
                    inputs,
                    root_src_path,
                    root,
                    #[trigger] to.steps[i],
                ) by {
                    if i < after.steps.len() {
                        assert(to.steps[i] == after.steps[i]);
                    }
                }
            } else {
                lemma_path_refusal(src_path);
                assert(path_refused(inputs, root_src_path, root, reason->0));
            }
        }
    }
}

/// A path is refused for being no absolute one or for lying elsewhere.
proof fn lemma_path_refusal(src_path: Option<QualifiedPath>)
    ensures
        fingerprint::rewritten_src_path(src_path) matches Err(error) ==> {
            &&& error != fingerprint::RewriteErrorView::Cycle
            &&& error != fingerprint::RewriteErrorView::DependencyNotFound
        },
{
}

proof fn lemma_walked_deps_right(
    inputs: Map<u64, FingerprintRewriteInput>,
    root_src_path: Option<QualifiedPath>,
    root: Fingerprint,
    done: Set<u64>,
    hash: u64,
    all: Seq<u64>,
    k: int,
    walk: fingerprint::Walk,
    visiting: Set<u64>,
)
    requires
        inputs.dom().finite(),
        fingerprint::filed_by_hash(inputs),
        done.subset_of(walk.done),
        steps_right(inputs, root_src_path, root, walk.steps),
        visiting.contains(root.hash),
        reached(inputs, root, hash),
        dependencies(inputs, root, hash) == all,
        0 <= k <= all.len(),
    ensures
        ({
            let (to, stop) = fingerprint::walked_deps(inputs, all.skip(k), walk, visiting);
            &&& steps_right(inputs, root_src_path, root, to.steps)
            &&& stop_right(inputs, root_src_path, root, done, stop)
            &&& done.subset_of(to.done)
        }),
    decreases fingerprint::unvisited(inputs, visiting), all.len() - k,
{
    let deps = all.skip(k);
    if deps.len() > 0 {
        let dep = deps[0];
        assert(dep == all[k]);
        assert(deps.drop_first() =~= all.skip(k + 1));
        let count = choose|count: nat| #[trigger] reached_in(inputs, root, hash, count);
        assert(dependencies(inputs, root, hash).contains(dep));
        assert(reached_in(inputs, root, dep, count + 1));
        if walk.done.contains(dep) {
            lemma_walked_deps_right(
                inputs,
                root_src_path,
                root,
                done,
                hash,
                all,
                k + 1,
                walk,
                visiting,
            );
        } else if inputs.contains_key(dep) {
            fingerprint::lemma_known_hash(inputs, dep, visiting);
            let input = inputs[dep];
            lemma_walked_right(
                inputs,
                root_src_path,
                root,
                done,
                input.src_path,
                input.fingerprint,
                walk,
                visiting,
            );
            let (after, stop) = fingerprint::walked(
                inputs,
                input.src_path,
                input.fingerprint,
                walk,
                visiting,
            );
            if stop is None {
                lemma_walked_deps_right(
                    inputs,
                    root_src_path,
                    root,
                    done,
                    hash,
                    all,
                    k + 1,
                    after,
                    visiting,
                );
            }
        } else {
            assert(reached(inputs, root, hash) && dependencies(inputs, root, hash)[k] == dep);
            assert(lacks_dependency(inputs, root, done));
        }
    }
}

/// Every step of a plan, of any size, rewrites the fingerprint that it is for or one that
/// this one depends on, directly or not, and gives it that fingerprint's own source path,
/// rewritten. A plan stops for want of a dependency or for a source path only where that is
/// so.
pub proof fn plans_hold_what_is_known(
    src_path: Option<QualifiedPath>,
    inputs: Map<u64, FingerprintRewriteInput>,
    done: Set<u64>,
    fingerprint: Fingerprint,
)
    requires
        inputs.dom().finite(),
        fingerprint::filed_by_hash(inputs),
    ensures
        ({
            let (walk, stop) = fingerprint::planned_walk(src_path, inputs, done, fingerprint);
            &&& forall|i: int|
                #![trigger walk.steps[i]]
                0 <= i < walk.steps.len() ==> {
                    let step = walk.steps[i];
                    &&& reached(inputs, fingerprint, step.hash)
                    &&& step.hash == fingerprint.hash ==> fingerprint::rewritten_src_path(src_path)
                        == Ok::<_, fingerprint::RewriteErrorView>(step.src_path)
                    &&& step.hash != fingerprint.hash ==> {
                        &&& inputs.contains_key(step.hash)
                        &&& fingerprint::rewritten_src_path(inputs[step.hash].src_path) == Ok::<
                            _,
                            fingerprint::RewriteErrorView,
                        >(step.src_path)
                    }
                }
            &&& stop_right(inputs, src_path, fingerprint, done, stop)
        }),
{
    assert(reached_in(inputs, fingerprint, fingerprint.hash, 0));
    lemma_walked_right(
        inputs,
        src_path,
        fingerprint,
        done,
        src_path,
        fingerprint,
        fingerprint::Walk { done, steps: Seq::empty() },
        Set::empty(),
    );
    let (walk, stop) = fingerprint::planned_walk(src_path, inputs, done, fingerprint);
    assert forall|i: int|
        #![trigger walk.steps[i]]
        0 <= i < walk.steps.len() implies step_right(
        inputs,
        src_path,
        fingerprint,
        walk.steps[i],
    ) by {}
}

proof fn lemma_walked_deps_split(
    inputs: Map<u64, FingerprintRewriteInput>,
    some: Seq<u64>,
    more: Seq<u64>,
    walk: fingerprint::Walk,
    visiting: Set<u64>,
)
    requires
        inputs.dom().finite(),
    ensures
        ({
            let (after, stop) = fingerprint::walked_deps(inputs, some, walk, visiting);
            fingerprint::walked_deps(inputs, some + more, walk, visiting) == if stop is Some {
                (after, stop)
            } else {
                fingerprint::walked_deps(inputs, more, after, visiting)
            }
        }),
    decreases some.len(),
{
    if some.len() == 0 {
        assert(some + more =~= more);
    } else {
        let rest = some.drop_first();
        assert((some + more).drop_first() =~= rest + more);
        assert((some + more)[0] == some[0]);
        if walk.done.contains(some[0]) {
            lemma_walked_deps_split(inputs, rest, more, walk, visiting);
        } else if inputs.contains_key(some[0]) {
            let input = inputs[some[0]];
            let (after, stop) = fingerprint::walked(
                inputs,
                input.src_path,
                input.fingerprint,
                walk,
                visiting,
            );
            lemma_walked_deps_split(inputs, rest, more, after, visiting);
        }
    }
}

proof fn lemma_walked_grows(
    inputs: Map<u64, FingerprintRewriteInput>,
    src_path: Option<QualifiedPath>,
    fingerprint: Fingerprint,
    walk: fingerprint::Walk,
    visiting: Set<u64>,
)
    requires
        inputs.dom().finite(),
    ensures
        walk.steps.is_prefix_of(
            fingerprint::walked(inputs, src_path, fingerprint, walk, visiting).0.steps,
        ),
    decreases fingerprint::unvisited_with(inputs, fingerprint.hash, visiting), 0nat,
{
    if !walk.done.contains(fingerprint.hash) && !visiting.contains(fingerprint.hash) {
        fingerprint::lemma_visit_decreases(inputs, fingerprint.hash, visiting);
        let inner = visiting.insert(fingerprint.hash);
        lemma_walked_deps_grows(inputs, fingerprint.deps@, walk, inner);
        let after = fingerprint::walked_deps(inputs, fingerprint.deps@, walk, inner).0;
        let to = fingerprint::walked(inputs, src_path, fingerprint, walk, visiting).0;
        assert(after.steps.is_prefix_of(to.steps)) by {
            assert(to.steps.subrange(0, after.steps.len() as int) =~= after.steps);
        }
        lemma_prefix(walk.steps, after.steps, to.steps);
    } else {
        assert(walk.steps.subrange(0, walk.steps.len() as int) =~= walk.steps);
    }
}

proof fn lemma_prefix<A>(one: Seq<A>, two: Seq<A>, three: Seq<A>)
    requires
        one.is_prefix_of(two),
        two.is_prefix_of(three),
    ensures
        one.is_prefix_of(three),
{
    assert(one =~= three.subrange(0, one.len() as int));
}

proof fn lemma_walked_deps_grows(
    inputs: Map<u64, FingerprintRewriteInput>,
    deps: Seq<u64>,
    walk: fingerprint::Walk,
    visiting: Set<u64>,
)
    requires
        inputs.dom().finite(),
    ensures
        walk.steps.is_prefix_of(fingerprint::walked_deps(inputs, deps, walk, visiting).0.steps),
    decreases fingerprint::unvisited(inputs, visiting), deps.len(),
{
    assert(walk.steps.subrange(0, walk.steps.len() as int) =~= walk.steps);
    if deps.len() > 0 {
        let rest = deps.drop_first();
        if walk.done.contains(deps[0]) {
            lemma_walked_deps_grows(inputs, rest, walk, visiting);
        } else if inputs.contains_key(deps[0]) {
            fingerprint::lemma_known_hash(inputs, deps[0], visiting);
            let input = inputs[deps[0]];
            lemma_walked_grows(inputs, input.src_path, input.fingerprint, walk, visiting);
            let (after, stop) = fingerprint::walked(
                inputs,
                input.src_path,
                input.fingerprint,
                walk,
                visiting,
            );
            if stop is None {
                lemma_walked_deps_grows(inputs, rest, after, visiting);
                lemma_prefix(
                    walk.steps,
                    after.steps,
                    fingerprint::walked_deps(inputs, deps, walk, visiting).0.steps,
                );
            }
        }
    }
}

/// A fingerprint with more dependencies than another of the same hash is rewritten after the
/// same steps as that one, and maybe more: dependencies are dealt with in their order, and
/// what was planned for the first ones stands whatever becomes of the others.
pub proof fn dependencies_are_planned_in_their_order(
    inputs: Map<u64, FingerprintRewriteInput>,
    src_path: Option<QualifiedPath>,
    fewer: Fingerprint,
    fingerprint: Fingerprint,
    more: Seq<u64>,
    walk: fingerprint::Walk,
    visiting: Set<u64>,
)
    requires
        inputs.dom().finite(),
        fewer.hash == fingerprint.hash,
        fingerprint.deps@ == fewer.deps@ + more,
        !walk.done.contains(fingerprint.hash),
        !visiting.contains(fingerprint.hash),
    ensures
        ({
            let (short, stop) = fingerprint::walked(inputs, src_path, fewer, walk, visiting);
            let (long, other_stop) = fingerprint::walked(
                inputs,
                src_path,
                fingerprint,
                walk,
                visiting,
            );
            &&& stop is None ==> {
                &&& short.steps.len() > walk.steps.len()
                &&& short.steps.last().hash == fingerprint.hash
                &&& short.steps.drop_last().is_prefix_of(long.steps)
            }
            &&& stop is Some && fingerprint::rewritten_src_path(src_path) is Ok ==> long.steps
                == short.steps && other_stop == stop
        }),
{
    let inner = visiting.insert(fingerprint.hash);
    lemma_walked_deps_split(inputs, fewer.deps@, more, walk, inner);
    let (after, stop) = fingerprint::walked_deps(inputs, fewer.deps@, walk, inner);
    lemma_walked_deps_grows(inputs, fewer.deps@, walk, inner);
    if stop is None {
        lemma_walked_deps_grows(inputs, more, after, inner);
        let all = fingerprint::walked_deps(inputs, fingerprint.deps@, walk, inner).0;
        let long = fingerprint::walked(inputs, src_path, fingerprint, walk, visiting).0;
        let short = fingerprint::walked(inputs, src_path, fewer, walk, visiting).0;
        assert(all.steps.is_prefix_of(long.steps)) by {
            assert(long.steps.subrange(0, all.steps.len() as int) =~= all.steps);
        }
        lemma_prefix(after.steps, all.steps, long.steps);
        if fingerprint::rewritten_src_path(src_path) is Ok {
            assert(short.steps.drop_last() =~= after.steps);
        }
    }
}

/// What is planned for a fingerprint that another one depends on, and is the first to be
/// dealt with for it, is planned for that one, even if it stops short, and the reason to stop
/// is the same.
pub proof fn plans_of_dependencies_are_kept(
    inputs: Map<u64, FingerprintRewriteInput>,
    src_path: Option<QualifiedPath>,
    fingerprint: Fingerprint,
    walk: fingerprint::Walk,
    visiting: Set<u64>,
)
    requires
        inputs.dom().finite(),
        !walk.done.contains(fingerprint.hash),
        !visiting.contains(fingerprint.hash),
        fingerprint.deps@.len() > 0,
        !walk.done.contains(fingerprint.deps@[0]),
    ensures
        ({
            let dep = fingerprint.deps@[0];
            let (all, stop) = fingerprint::walked(inputs, src_path, fingerprint, walk, visiting);
            &&& !inputs.contains_key(dep) ==> {
                &&& all.steps == walk.steps
                &&& stop == Some(fingerprint::RewriteErrorView::DependencyNotFound)
            }
            &&& inputs.contains_key(dep) ==> {
                let (part, part_stop) = fingerprint::walked(
                    inputs,
                    inputs[dep].src_path,
                    inputs[dep].fingerprint,
                    walk,
                    visiting.insert(fingerprint.hash),
                );
                &&& part.steps.is_prefix_of(all.steps)
                &&& part_stop is Some ==> all.steps == part.steps && stop == part_stop
            }
        }),
{
    let dep = fingerprint.deps@[0];
    let inner = visiting.insert(fingerprint.hash);
    let (all, stop) = fingerprint::walked(inputs, src_path, fingerprint, walk, visiting);
    if inputs.contains_key(dep) {
        let (part, part_stop) = fingerprint::walked(
            inputs,
            inputs[dep].src_path,
            inputs[dep].fingerprint,
            walk,
            inner,
        );
        assert(part.steps.subrange(0, part.steps.len() as int) =~= part.steps);
        if part_stop is None {
            let rest = fingerprint.deps@.drop_first();
            lemma_walked_deps_grows(inputs, rest, part, inner);
            let (after, _) = fingerprint::walked_deps(inputs, fingerprint.deps@, walk, inner);
            assert(after.steps.is_prefix_of(all.steps)) by {
                assert(all.steps.subrange(0, after.steps.len() as int) =~= after.steps);
            }
            lemma_prefix(part.steps, after.steps, all.steps);
        }
    }
}

/// A fingerprint that was rewritten before needs no step, one that is being visited closes a
/// cycle, and one that depends on nothing takes the one step that rewrites it.
pub proof fn single_fingerprints_take_one_step(
    inputs: Map<u64, FingerprintRewriteInput>,
    src_path: Option<QualifiedPath>,
    fingerprint: Fingerprint,
    walk: fingerprint::Walk,
    visiting: Set<u64>,
)
    requires
        inputs.dom().finite(),
    ensures
        ({
            let (to, stop) = fingerprint::walked(inputs, src_path, fingerprint, walk, visiting);
            &&& walk.done.contains(fingerprint.hash) ==> to == walk && stop is None
            &&& !walk.done.contains(fingerprint.hash) && visiting.contains(fingerprint.hash) ==> to
                == walk && stop == Some(fingerprint::RewriteErrorView::Cycle)
            &&& !walk.done.contains(fingerprint.hash) && !visiting.contains(fingerprint.hash)
                && fingerprint.deps@.len() == 0 ==> match fingerprint::rewritten_src_path(src_path) {
                Ok(path) => {
                    &&& stop is None
                    &&& to.done == walk.done.insert(fingerprint.hash)
                    &&& to.steps.len() == walk.steps.len() + 1
                    &&& to.steps.drop_last() == walk.steps
                    &&& to.steps.last().hash == fingerprint.hash
                    &&& to.steps.last().src_path == path
                },
                Err(error) => to == walk && stop == Some(error),
            }
        }),
{
    if !walk.done.contains(fingerprint.hash) && !visiting.contains(fingerprint.hash)
        && fingerprint.deps@.len() == 0 {
        let inner = visiting.insert(fingerprint.hash);
        assert(fingerprint::walked_deps(inputs, fingerprint.deps@, walk, inner) == (
            walk,
            None::<fingerprint::RewriteErrorView>,
        ));
        let (to, stop) = fingerprint::walked(inputs, src_path, fingerprint, walk, visiting);
        if fingerprint::rewritten_src_path(src_path) is Ok {
            assert(to.steps.drop_last() =~= walk.steps);
        }
    }
}

} // verus!
