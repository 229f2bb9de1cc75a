//! What holds of every course of saving.
use vstd::prelude::*;

use crate::fingerprint;
use crate::fingerprint::Fingerprint;
use crate::save;
use crate::save::{Blob, Key, Restored, SaveProgress, UnitFiles};
use crate::session;
use crate::session::{Purpose, SaveEvent, UnitPlan};
use crate::target::RustcTargetPlatform;
use crate::text;

verus! {

/// What a session knows at its start.
pub open spec fn initial(
    units: Seq<UnitPlan>,
    restored: Restored,
    host_arch: RustcTargetPlatform,
) -> session::SaveStateView {
    session::SaveStateView {
        units,
        restored,
        host_arch,
        inputs: Map::empty(),
        rewritten: Set::empty(),
        to_save: Seq::empty(),
        progress: SaveProgress {
            uploaded_units: 0,
            total_units: 0,
            uploaded_files: 0,
            uploaded_bytes: 0,
        },
        requests: Seq::empty(),
    }
}

/// What follows in a course when `event` happens.
#[verifier::opaque]
pub open spec fn step(
    state: session::SaveStateView,
    phase: session::PhaseView,
    event: SaveEvent,
) -> session::Next {
    session::next(state, phase, event)
}

/// What a session knows and waits for after `events`.
pub open spec fn after(
    state: session::SaveStateView,
    phase: session::PhaseView,
    events: Seq<SaveEvent>,
) -> (session::SaveStateView, session::PhaseView)
    decreases events.len(),
{
    if events.len() == 0 {
        (state, phase)
    } else {
        let (state, phase) = after(state, phase, events.drop_last());
        let next = step(state, phase, events.last());
        (next.state, next.phase)
    }
}

/// The units have been looked at, and saving has begun.
pub open spec fn saving(phase: session::PhaseView) -> bool {
    match phase {
        session::PhaseView::Idle => false,
        session::PhaseView::CheckingFiles { .. } => false,
        session::PhaseView::Scanning { .. } => false,
        _ => true,
    }
}

/// Whatever happens, a session stays consistent from its start on.
pub proof fn every_course_is_consistent(
    units: Seq<UnitPlan>,
    restored: Restored,
    host_arch: RustcTargetPlatform,
    events: Seq<SaveEvent>,
)
    requires
        units.len() <= usize::MAX,
    ensures
        ({
            let (state, phase) = after(
                initial(units, restored, host_arch),
                session::PhaseView::Idle,
                events,
            );
            &&& session::consistent(state, phase)
            &&& state.units == units
            &&& state.restored == restored
            &&& state.host_arch == host_arch
        }),
    decreases events.len(),
{
    if events.len() > 0 {
        reveal(step);
        let before = events.drop_last();
        every_course_is_consistent(units, restored, host_arch, before);
        let (state, phase) = after(
            initial(units, restored, host_arch),
            session::PhaseView::Idle,
            before,
        );
        session::step_keeps_consistent(state, phase, events.last());
    }
}

/// Once saving has begun, no more units are uploaded than there are in total.
pub proof fn uploads_never_exceed_total(
    state: session::SaveStateView,
    phase: session::PhaseView,
)
    requires
        session::consistent(state, phase),
        saving(phase),
    ensures
        state.progress.uploaded_units <= state.progress.total_units,
{
}

/// Once saving has begun, the uploaded units, files and bytes never become fewer, and the
/// units in total never become more.
pub proof fn progress_never_goes_back(
    state: session::SaveStateView,
    phase: session::PhaseView,
    event: SaveEvent,
)
    requires
        session::consistent(state, phase),
        saving(phase),
        session::event_fits(state, phase, event),
    ensures
        ({
            let then = session::next(state, phase, event).state.progress;
            &&& state.progress.uploaded_units <= then.uploaded_units
            &&& state.progress.uploaded_files <= then.uploaded_files
            &&& state.progress.uploaded_bytes <= then.uploaded_bytes
            &&& then.total_units <= state.progress.total_units
        }),
{
    session::step_keeps_consistent(state, phase, event);
}

/// What is submitted at the end is one request for each uploaded unit, all units of the
/// total are uploaded then, and the requests are for units of the build, in their order,
/// each for another one.
pub proof fn submitted_requests_are_the_uploaded_units(
    state: session::SaveStateView,
    phase: session::PhaseView,
    event: SaveEvent,
)
    requires
        session::consistent(state, phase),
    ensures
        ({
            let next = session::next(state, phase, event);
            next.action matches session::SaveActionView::Submit(requests) ==> {
                &&& next.state.progress.uploaded_units == requests.len()
                &&& next.state.progress.total_units == requests.len()
                &&& session::requests_sound(
                    next.state,
                    requests,
                    next.state.to_save.len() as int,
                )
                &&& next.phase == session::PhaseView::Submitting
            }
        }),
{
    session::step_keeps_consistent(state, phase, event);
    let next = session::next(state, phase, event);
    if let session::SaveActionView::Submit(requests) = next.action {
        let full = session::SaveStateView { requests, ..next.state };
        assert(session::requests_sound(full, requests, full.to_save.len() as int));
        assert forall|k: int| 0 <= k < requests.len() implies session::request_before(
            next.state,
            next.state.to_save.len() as int,
            #[trigger] requests[k],
        ) by {
            assert(session::request_before(full, full.to_save.len() as int, requests[k]));
            let at = choose|at: usize|
                at < full.to_save.len() && #[trigger] session::request_for(full, at, requests[k]);
            assert(session::request_for(next.state, at, requests[k]));
        }
    }
}

/// No unit that came from the cache is saved again, and no unit is saved that was built
/// against a glibc other than that of the host.
pub proof fn submitted_units_may_be_saved(
    state: session::SaveStateView,
    requests: Seq<save::SaveUnitRequestView>,
    end: int,
    k: int,
)
    requires
        session::requests_sound(state, requests, end),
        0 <= k < requests.len(),
    ensures
        ({
            let unit = state.units[requests[k].unit as int];
            &&& !state.restored.has_unit(unit.unit_hash@)
            &&& unit.uses_glibc ==> unit.target_arch.resolved(state.host_arch).is_same(
                state.host_arch,
            )
            &&& !unit.uses_glibc ==> requests[k].linux_glibc_version is None
            &&& requests[k].resolved_target == unit.target_arch.resolved(state.host_arch).triple()
        }),
{
    assert(session::request_before(state, end, requests[k]));
}

/// A fingerprint that was rewritten without a stop counts as rewritten, together with all
/// that had to be rewritten before it. This holds for the fingerprint of a unit that came
/// from the cache as well as for that of a unit that is saved, so that the fingerprints
/// that depend on it find it.
pub proof fn rewritten_fingerprints_are_remembered(
    state: session::SaveStateView,
    phase: session::PhaseView,
    event: SaveEvent,
    fingerprint: Fingerprint,
)
    requires
        session::consistent(state, phase),
        match phase {
            session::PhaseView::ReadingRestored { .. } => event == SaveEvent::FingerprintRead(
                fingerprint,
            ),
            session::PhaseView::ReadingFiles { .. } => event == SaveEvent::UnitFilesRead(
                fingerprint,
            ),
            _ => false,
        },
    ensures
        ({
            let planned = session::next(state, phase, event);
            let src_path = match phase {
                session::PhaseView::ReadingRestored { at } => state.unit_at(at).src_path,
                session::PhaseView::ReadingFiles { at, .. } => state.unit_at(at).saved_src_path(),
                _ => None,
            };
            let (walk, stop) = fingerprint::planned_walk(
                src_path,
                state.inputs,
                state.rewritten,
                fingerprint,
            );
            let then = session::next(planned.state, planned.phase, SaveEvent::Rewritten);
            &&& planned.action == session::SaveActionView::Rewrite(walk.steps)
            &&& then.state.rewritten == walk.done
            &&& stop is None ==> {
                &&& then.state.rewritten.contains(fingerprint.hash)
                &&& then.action == session::SaveActionView::RenderFingerprint {
                    hash: fingerprint.hash,
                }
            }
        }),
{
    let src_path = match phase {
        session::PhaseView::ReadingRestored { at } => state.unit_at(at).src_path,
        session::PhaseView::ReadingFiles { at, .. } => state.unit_at(at).saved_src_path(),
        _ => None,
    };
    let (walk, stop) = fingerprint::planned_walk(
        src_path,
        state.inputs,
        state.rewritten,
        fingerprint,
    );
    fingerprint::plan_is_in_dependency_order(
        src_path,
        state.inputs,
        state.rewritten,
        fingerprint,
    );
    let hashes = walk.steps.map_values(|step: fingerprint::RewriteStepView| step.hash);
    assert forall|hash: u64| #[trigger] walk.done.contains(hash) implies state.rewritten.union(
        hashes.to_set(),
    ).contains(hash) by {
        if !state.rewritten.contains(hash) {
            let j = choose|j: int|
                0 <= j < walk.steps.len() && (#[trigger] walk.steps[j]).hash == hash;
            assert(hashes[j] == hash);
        }
    }
    assert forall|hash: u64| #[trigger]
        state.rewritten.union(hashes.to_set()).contains(hash) implies walk.done.contains(hash) by {
        if !state.rewritten.contains(hash) {
            let j = choose|j: int| 0 <= j < hashes.len() && hashes[j] == hash;
            assert(walk.steps[j].hash == hash);
        }
    }
    assert(state.rewritten.union(hashes.to_set()) =~= walk.done);
}

/// The keys in what the cache is told of a unit, in the order in which the objects are
/// stored.
pub open spec fn saved_keys(saved: save::SavedUnitView) -> Seq<Key> {
    match saved {
        save::SavedUnitView::LibraryCrate {
            output_files,
            dep_info_file,
            encoded_dep_info_file,
            ..
        } => output_files.map_values(|file: save::SavedFile| file.object_key) + seq![
            dep_info_file,
            encoded_dep_info_file,
        ],
        save::SavedUnitView::BuildScriptCompilation {
            compiled_program,
            dep_info_file,
            encoded_dep_info_file,
            ..
        } => seq![compiled_program, dep_info_file, encoded_dep_info_file],
        save::SavedUnitView::BuildScriptExecution { out_dir_files, stdout, stderr, .. } =>
            out_dir_files.map_values(|file: save::SavedFile| file.object_key) + seq![
            stdout,
            stderr,
        ],
    }
}

/// The keys that the cache is told of a unit are those of its objects, and each of the
/// objects came from the cache or is stored before the cache is told.
pub proof fn saved_objects_are_in_the_store(
    files: UnitFiles,
    fingerprint: String,
    restored: Restored,
)
    ensures
        saved_keys(save::saved_unit(files, fingerprint)) == save::unit_objects(files).map_values(
            |blob: Blob| blob.key,
        ),
        forall|i: int|
            #![trigger save::unit_objects(files)[i]]
            0 <= i < save::unit_objects(files).len() ==> restored.has_file(
                save::unit_objects(files)[i].key,
            ) || save::new_objects(save::unit_objects(files), restored).contains(
                save::unit_objects(files)[i],
            ),
{
    let objects = save::unit_objects(files);
    assert(saved_keys(save::saved_unit(files, fingerprint)) =~= objects.map_values(
        |blob: Blob| blob.key,
    ));
    let is_new = |blob: Blob| !restored.has_file(blob.key);
    assert forall|i: int|
        #![trigger objects[i]]
        0 <= i < objects.len() && !restored.has_file(objects[i].key) implies save::new_objects(
        objects,
        restored,
    ).contains(objects[i]) by {
        objects.lemma_filter_contains(is_new, i);
    }
}

/// Nothing is stored that came from the cache, nor anything that is no object of the unit.
pub proof fn stored_objects_are_new(objects: Seq<Blob>, restored: Restored, i: int)
    requires
        0 <= i < save::new_objects(objects, restored).len(),
    ensures
        objects.contains(save::new_objects(objects, restored)[i]),
        !restored.has_file(save::new_objects(objects, restored)[i].key),
{
    let is_new = |blob: Blob| !restored.has_file(blob.key);
    objects.lemma_filter_pred(is_new, i);
    objects.lemma_filter_contains_rev(is_new, save::new_objects(objects, restored)[i]);
}

/// A fingerprint that is missing only keeps a unit from being saved, while a cycle fails
/// the whole.
pub proof fn missing_dependencies_are_forgiven_but_cycles_are_not()
    ensures
        session::missing_dependency(
            fingerprint::RewriteErrorView::DependencyNotFound.message(),
        ),
        !session::missing_dependency(fingerprint::RewriteErrorView::Cycle.message()),
{
    reveal_strlit("dependency fingerprint hash not found");
    reveal_strlit("cycle in fingerprint dependencies");
    let phrase = "dependency fingerprint hash not found"@;
    assert(phrase.subrange(0, phrase.len() as int) =~= phrase);
    assert(text::occurs_at(phrase, phrase, 0));
}

/// A unit whose files are there and whose fingerprint can be rewritten is requested: with
/// the keys of all its objects, the rewritten fingerprint, its platform and the version of
/// glibc. It counts as uploaded, and what did not come from the cache counts as uploaded
/// files and bytes.
pub proof fn complete_units_are_requested(
    state: session::SaveStateView,
    at: usize,
    glibc: Option<String>,
    fingerprint: Fingerprint,
    text: String,
    files: UnitFiles,
)
    requires
        session::consistent(state, session::PhaseView::ReadingFiles { at, glibc }),
        fingerprint::planned_walk(
            state.unit_at(at).saved_src_path(),
            state.inputs,
            state.rewritten,
            fingerprint,
        ).1 is None,
        session::files_fit(state.unit_at(at).kind, files),
    ensures
        ({
            let uploads = save::new_objects(save::unit_objects(files), state.restored);
            let prepared = after(
                state,
                session::PhaseView::ReadingFiles { at, glibc },
                seq![
                    SaveEvent::UnitFilesRead(fingerprint),
                    SaveEvent::Rewritten,
                    SaveEvent::FingerprintText(text),
                    SaveEvent::FilesPrepared(files),
                ],
            );
            let stored = if uploads.len() == 0 {
                prepared
            } else {
                after(prepared.0, prepared.1, seq![SaveEvent::Stored])
            };
            let then = after(stored.0, stored.1, seq![SaveEvent::Encoded]);
            &&& then.1 == session::PhaseView::Reporting { at }
            &&& then.0.requests == state.requests.push(
                save::SaveUnitRequestView {
                    unit: state.to_save[at as int],
                    saved: save::saved_unit(files, text),
                    resolved_target: state.arch_at(at).triple(),
                    linux_glibc_version: glibc,
                },
            )
            &&& then.0.progress == SaveProgress {
                uploaded_units: (state.progress.uploaded_units + 1) as u64,
                ..save::with_uploads(state.progress, uploads)
            }
        }),
{
    reveal(step);
    let events = seq![
        SaveEvent::UnitFilesRead(fingerprint),
        SaveEvent::Rewritten,
        SaveEvent::FingerprintText(text),
        SaveEvent::FilesPrepared(files),
    ];
    let start = session::PhaseView::ReadingFiles { at, glibc };
    let one = events.drop_last().drop_last().drop_last();
    let two = events.drop_last().drop_last();
    let three = events.drop_last();
    assert(one.drop_last() =~= Seq::empty());
    assert(after(state, start, one.drop_last()) == (state, start));
    assert(one.last() == events[0]);
    assert(two.last() == events[1]);
    assert(three.last() == events[2]);
    let (state1, phase1) = after(state, start, one);
    assert(phase1 is Rewriting);
    let (state2, phase2) = after(state, start, two);
    assert(phase2 == session::PhaseView::Rendering { at, purpose: Purpose::Saving(glibc) });
    let (state3, phase3) = after(state, start, three);
    assert(phase3 == session::PhaseView::Preparing { at, glibc, fingerprint: text });
    let (state4, phase4) = after(state, start, events);
    let uploads = save::new_objects(save::unit_objects(files), state.restored);
    let stored = seq![SaveEvent::Stored];
    let encoded = seq![SaveEvent::Encoded];
    assert(stored.drop_last() =~= Seq::empty());
    assert(encoded.drop_last() =~= Seq::empty());
    assert(after(state4, phase4, stored.drop_last()) == (state4, phase4));
    let (state5, phase5) = if uploads.len() == 0 {
        (state4, phase4)
    } else {
        after(state4, phase4, stored)
    };
    assert(phase5 is Encoding);
    assert(after(state5, phase5, encoded.drop_last()) == (state5, phase5));
}

/// The files of the unit at position `at` are ready, and the request is the one for them.
pub open spec fn prepared(
    phase: session::PhaseView,
    event: SaveEvent,
    at: usize,
    request: save::SaveUnitRequestView,
) -> bool {
    match (phase, event) {
        (
            session::PhaseView::Preparing { at: position, glibc, fingerprint },
            SaveEvent::FilesPrepared(files),
        ) => {
            &&& position == at
            &&& request.saved == save::saved_unit(files, fingerprint)
            &&& request.linux_glibc_version == glibc
        },
        _ => false,
    }
}

/// The objects in the event that did not come from the cache.
pub open spec fn new_objects_in(event: SaveEvent, restored: Restored) -> Seq<Blob> {
    match event {
        SaveEvent::FilesPrepared(files) => save::new_objects(save::unit_objects(files), restored),
        _ => Seq::empty(),
    }
}

/// The cache is told of a unit only after its objects were stored: a unit waits to be
/// encoded only where its objects were stored or all came from the cache, the objects that
/// are stored are those that did not, and only an encoded unit is requested.
pub proof fn objects_are_stored_before_the_cache_is_told(
    state: session::SaveStateView,
    phase: session::PhaseView,
    event: SaveEvent,
)
    ensures
        ({
            let next = session::next(state, phase, event);
            let uploads = new_objects_in(event, state.restored);
            &&& next.phase matches session::PhaseView::Encoding { at, request } ==> {
                ||| phase == next.phase
                ||| phase == session::PhaseView::Storing { at, request } && event is Stored
                ||| prepared(phase, event, at, request) && uploads.len() == 0
            }
            &&& next.phase matches session::PhaseView::Storing { at, request } ==> {
                ||| phase == next.phase
                ||| prepared(phase, event, at, request) && next.action
                    == session::SaveActionView::Store(uploads)
            }
            &&& {
                ||| next.state.requests == state.requests
                ||| next.action is Submit
                ||| phase matches session::PhaseView::Encoding { request, .. }
                    && next.state.requests == state.requests.push(request)
            }
        }),
{
}

/// A session that has ended stays as it is, whatever happens.
pub proof fn ended_sessions_stay(
    state: session::SaveStateView,
    phase: session::PhaseView,
    event: SaveEvent,
)
    requires
        phase is Finished || phase is Failed,
    ensures
        session::next(state, phase, event).state == state,
        session::next(state, phase, event).phase == phase,
        session::next(state, phase, event).action is Ignore,
{
}

} // verus!
