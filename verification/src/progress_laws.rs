//! What the reports, the stored objects and the submitted requests of a course of saving
//! have to do with each other.
use vstd::prelude::*;

use crate::fingerprint::{Fingerprint, FingerprintRewriteInput};
use crate::save;
use crate::save::{Blob, Key, Restored, SaveProgress, UnitFiles};
use crate::save_laws;
use crate::session;
use crate::session::{Purpose, SaveEvent, UnitPlan};
use crate::target::RustcTargetPlatform;

verus! {

/// What came of a course.
pub struct Told {
    /// The units that have both fingerprint files, in order.
    pub complete: Seq<usize>,
    /// What was reported, in order.
    pub reports: Seq<SaveProgress>,
    /// The objects that were stored, in order.
    pub stored: Seq<Blob>,
    /// The requests that were submitted, at each submission.
    pub submissions: Seq<Seq<save::SaveUnitRequestView>>,
}

impl Told {
    /// What came of the course once `action` was asked for, too.
    pub open spec fn with_action(self, action: session::SaveActionView) -> Self {
        match action {
            session::SaveActionView::Report(progress) => Told {
                reports: self.reports.push(progress),
                ..self
            },
            session::SaveActionView::Store(blobs) => Told {
                stored: self.stored + blobs,
                ..self
            },
            session::SaveActionView::Submit(requests) => Told {
                submissions: self.submissions.push(requests),
                ..self
            },
            _ => self,
        }
    }

    /// What came of the course once `event` happened, too.
    pub open spec fn with_event(self, phase: session::PhaseView, event: SaveEvent) -> Self {
        match (phase, event) {
            (
                session::PhaseView::CheckingFiles { unit },
                SaveEvent::FingerprintFiles { json: true, hash: true },
            ) => Told { complete: self.complete.push(unit), ..self },
            _ => self,
        }
    }
}

/// What came of the course in which `events` happened.
pub open spec fn told(
    state: session::SaveStateView,
    phase: session::PhaseView,
    events: Seq<SaveEvent>,
) -> Told
    decreases events.len(),
{
    if events.len() == 0 {
        Told {
            complete: Seq::empty(),
            reports: Seq::empty(),
            stored: Seq::empty(),
            submissions: Seq::empty(),
        }
    } else {
        let (before, waiting) = save_laws::after(state, phase, events.drop_last());
        told(state, phase, events.drop_last()).with_event(waiting, events.last()).with_action(
            save_laws::step(before, waiting, events.last()).action,
        )
    }
}

/// The progress counters can take what each of the events brings.
pub open spec fn all_fit(
    state: session::SaveStateView,
    phase: session::PhaseView,
    events: Seq<SaveEvent>,
) -> bool
    decreases events.len(),
{
    events.len() == 0 || {
        let (before, waiting) = save_laws::after(state, phase, events.drop_last());
        &&& all_fit(state, phase, events.drop_last())
        &&& session::event_fits(before, waiting, events.last())
    }
}

/// The progress when saving begins with this many units.
pub open spec fn at_first(count: nat) -> SaveProgress {
    SaveProgress {
        uploaded_units: 0,
        total_units: count as u64,
        uploaded_files: 0,
        uploaded_bytes: 0,
    }
}

/// The progress before report `k`, where saving begins with `count` units.
pub open spec fn before_report(reports: Seq<SaveProgress>, count: nat, k: int) -> SaveProgress {
    if k == 0 {
        at_first(count)
    } else {
        reports[k - 1]
    }
}

/// One unit more is uploaded, and no file or byte less.
pub open spec fn one_more_uploaded(before: SaveProgress, then: SaveProgress) -> bool {
    &&& then.uploaded_units == before.uploaded_units + 1
    &&& then.total_units == before.total_units
    &&& then.uploaded_files >= before.uploaded_files
    &&& then.uploaded_bytes >= before.uploaded_bytes
}

/// One unit less is to be uploaded, and all else is as it was.
pub open spec fn one_less_in_total(before: SaveProgress, then: SaveProgress) -> bool {
    &&& then.total_units == before.total_units - 1
    &&& then == SaveProgress { total_units: then.total_units, ..before }
}

/// Report `k` is right, where saving begins with `count` units: so many units are still to
/// be dealt with as were not reported yet, and one was uploaded or left out since the report
/// before.
pub open spec fn report_right(reports: Seq<SaveProgress>, count: nat, k: int) -> bool {
    &&& reports[k].total_units - reports[k].uploaded_units == count - (k + 1)
    &&& {
        ||| one_more_uploaded(before_report(reports, count, k), reports[k])
        ||| one_less_in_total(before_report(reports, count, k), reports[k])
    }
}

/// All reports are right.
pub open spec fn reports_right(reports: Seq<SaveProgress>, count: nat) -> bool {
    forall|k: int| 0 <= k < reports.len() ==> #[trigger] report_right(reports, count, k)
}

/// The progress counts these objects as uploaded.
pub open spec fn counts(progress: SaveProgress, stored: Seq<Blob>) -> bool {
    &&& progress.uploaded_files == stored.len()
    &&& progress.uploaded_bytes == save::total_bytes(stored)
}

/// The keys of the objects.
pub open spec fn keys_of(blobs: Seq<Blob>) -> Seq<Key> {
    blobs.map_values(|blob: Blob| blob.key)
}

/// The keys that did not come from the cache.
pub open spec fn new_keys(keys: Seq<Key>, restored: Restored) -> Seq<Key> {
    keys.filter(|key: Key| !restored.has_file(key))
}

/// The keys that the requests name and that did not come from the cache.
pub open spec fn requested_keys(
    requests: Seq<save::SaveUnitRequestView>,
    restored: Restored,
) -> Seq<Key>
    decreases requests.len(),
{
    if requests.len() == 0 {
        Seq::empty()
    } else {
        requested_keys(requests.drop_last(), restored) + new_keys(
            save_laws::saved_keys(requests.last().saved),
            restored,
        )
    }
}

/// Nothing came of the course yet but the units that have both fingerprint files.
spec fn nothing_but(told: Told, complete: Seq<usize>) -> bool {
    &&& told.complete == complete
    &&& told.reports.len() == 0
    &&& told.stored.len() == 0
    &&& told.submissions.len() == 0
}

/// This many units were reported, the reports are right, and the progress counts what was
/// stored.
spec fn reported(state: session::SaveStateView, told: Told, count: int) -> bool {
    &&& told.complete == state.to_save
    &&& told.reports.len() == count
    &&& reports_right(told.reports, state.to_save.len())
    &&& counts(state.progress, told.stored)
}

/// The progress is the one that was reported last.
spec fn unchanged(state: session::SaveStateView, told: Told) -> bool {
    state.progress == before_report(
        told.reports,
        state.to_save.len(),
        told.reports.len() as int,
    )
}

/// This many units have been dealt with, and what was stored is what is requested.
spec fn on_record(state: session::SaveStateView, told: Told, count: int) -> bool {
    &&& reported(state, told, count)
    &&& unchanged(state, told)
    &&& keys_of(told.stored) == requested_keys(state.requests, state.restored)
    &&& told.submissions.len() == 0
}

/// The unit at position `at` was prepared, and what was stored is what is requested with it.
spec fn in_store(
    state: session::SaveStateView,
    told: Told,
    at: usize,
    request: save::SaveUnitRequestView,
) -> bool {
    let last = before_report(told.reports, state.to_save.len(), told.reports.len() as int);
    &&& reported(state, told, at as int)
    &&& state.progress.uploaded_units == last.uploaded_units
    &&& state.progress.total_units == last.total_units
    &&& state.progress.uploaded_files >= last.uploaded_files
    &&& state.progress.uploaded_bytes >= last.uploaded_bytes
    &&& keys_of(told.stored) == requested_keys(state.requests.push(request), state.restored)
    &&& told.submissions.len() == 0
}

/// All units have been dealt with, and what was stored is what was submitted.
spec fn all_submitted(state: session::SaveStateView, told: Told) -> bool {
    &&& reported(state, told, state.to_save.len() as int)
    &&& unchanged(state, told)
    &&& told.submissions.len() == 1
    &&& keys_of(told.stored) == requested_keys(told.submissions[0], state.restored)
}

/// What came of a course that waits for `phase`.
spec fn accounted(state: session::SaveStateView, phase: session::PhaseView, told: Told) -> bool {
    match phase {
        session::PhaseView::Idle => nothing_but(told, state.to_save),
        session::PhaseView::CheckingFiles { .. } => nothing_but(told, state.to_save),
        session::PhaseView::Scanning { unit } => nothing_but(told, state.to_save.push(unit)),
        session::PhaseView::ReportingRestored { at }
        | session::PhaseView::ReadingRestored { at }
        | session::PhaseView::Reporting { at } => on_record(state, told, at + 1),
        session::PhaseView::AskingGlibc { at }
        | session::PhaseView::ReadingFiles { at, .. }
        | session::PhaseView::Preparing { at, .. } => on_record(state, told, at as int),
        session::PhaseView::Rewriting { at, purpose, .. }
        | session::PhaseView::Rendering { at, purpose } => on_record(
            state,
            told,
            if purpose is Dependents {
                at + 1
            } else {
                at as int
            },
        ),
        session::PhaseView::Storing { at, request }
        | session::PhaseView::Encoding { at, request } => in_store(state, told, at, request),
        session::PhaseView::Submitting | session::PhaseView::Finished => all_submitted(
            state,
            told,
        ),
        session::PhaseView::Failed => on_record(state, told, told.reports.len() as int),
    }
}

/// What came of a step is accounted for.
spec fn next_accounted(next: session::Next, told: Told) -> bool {
    accounted(next.state, next.phase, told.with_action(next.action))
}

/// One more report is right.
proof fn lemma_report(reports: Seq<SaveProgress>, count: nat, then: SaveProgress)
    requires
        reports_right(reports, count),
        then.total_units - then.uploaded_units == count - (reports.len() + 1),
        one_more_uploaded(before_report(reports, count, reports.len() as int), then)
            || one_less_in_total(before_report(reports, count, reports.len() as int), then),
    ensures
        reports_right(reports.push(then), count),
        before_report(reports.push(then), count, (reports.len() + 1) as int) == then,
{
    let more = reports.push(then);
    assert forall|k: int| 0 <= k < more.len() implies #[trigger] report_right(more, count, k) by {
        if k < reports.len() {
            assert(report_right(reports, count, k));
            assert(more[k] == reports[k]);
        }
        if k > 0 {
            assert(more[k - 1] == reports[k - 1]);
        }
    }
}

proof fn lemma_skip_accounted(state: session::SaveStateView, at: usize, told: Told)
    requires
        session::settled_up_to(state, at as int),
        at < state.to_save.len(),
        on_record(state, told, at as int),
    ensures
        on_record(
            state.without_unit(),
            told.with_action(session::SaveActionView::Report(state.without_unit().progress)),
            at + 1,
        ),
{
    lemma_report(told.reports, state.to_save.len(), state.without_unit().progress);
}

proof fn lemma_save_from_accounted(state: session::SaveStateView, at: usize, told: Told)
    requires
        session::settled_up_to(state, at as int),
        on_record(state, told, at as int),
    ensures
        next_accounted(session::save_from(state, at), told),
{
    if at < state.to_save.len() {
        lemma_skip_accounted(state, at, told);
    }
}

proof fn lemma_scan_from_accounted(state: session::SaveStateView, unit: usize, told: Told)
    requires
        session::units_sound(state),
        state.requests.len() == 0,
        nothing_but(told, state.to_save),
    ensures
        next_accounted(session::scan_from(state, unit), told),
{
    if unit >= state.units.len() {
        let begun = session::SaveStateView {
            progress: at_first(state.to_save.len()),
            ..state
        };
        assert(keys_of(told.stored) =~= Seq::empty());
        assert(session::requests_sound(begun, begun.requests, 0));
        lemma_save_from_accounted(begun, 0, told);
    }
}

proof fn lemma_total_bytes_add(one: Seq<Blob>, other: Seq<Blob>)
    ensures
        save::total_bytes(one + other) == save::total_bytes(one) + save::total_bytes(other),
    decreases other.len(),
{
    if other.len() == 0 {
        assert(one + other =~= one);
    } else {
        assert((one + other).drop_last() =~= one + other.drop_last());
        lemma_total_bytes_add(one, other.drop_last());
    }
}

/// Objects that did not come from the cache have keys that did not.
proof fn lemma_new_keys(blobs: Seq<Blob>, restored: Restored)
    ensures
        keys_of(save::new_objects(blobs, restored)) == new_keys(keys_of(blobs), restored),
    decreases blobs.len(),
{
    reveal(Seq::filter);
    if blobs.len() > 0 {
        lemma_new_keys(blobs.drop_last(), restored);
        assert(keys_of(blobs).drop_last() =~= keys_of(blobs.drop_last()));
    }
    assert(keys_of(save::new_objects(blobs, restored)) =~= new_keys(keys_of(blobs), restored));
}

proof fn lemma_store_accounted(
    state: session::SaveStateView,
    at: usize,
    glibc: Option<String>,
    fingerprint: String,
    files: UnitFiles,
    told: Told,
)
    requires
        on_record(state, told, at as int),
        save::counters_fit(
            state.progress,
            save::new_objects(save::unit_objects(files), state.restored),
        ),
    ensures
        next_accounted(session::store_unit(state, at, glibc, fingerprint, files), told),
{
    let objects = save::unit_objects(files);
    let uploads = save::new_objects(objects, state.restored);
    let request = save::SaveUnitRequestView {
        unit: state.to_save[at as int],
        saved: save::saved_unit(files, fingerprint),
        resolved_target: state.arch_at(at).triple(),
        linux_glibc_version: glibc,
    };
    lemma_total_bytes_add(told.stored, uploads);
    lemma_new_keys(objects, state.restored);
    save_laws::saved_objects_are_in_the_store(files, fingerprint, state.restored);
    assert(state.requests.push(request).drop_last() =~= state.requests);
    assert(keys_of(told.stored + uploads) =~= keys_of(told.stored) + keys_of(uploads));
    if uploads.len() == 0 {
        assert(told.stored + uploads =~= told.stored);
    }
}

proof fn lemma_encoded_accounted(
    state: session::SaveStateView,
    at: usize,
    request: save::SaveUnitRequestView,
    told: Told,
)
    requires
        session::settled_up_to(state, at as int),
        at < state.to_save.len(),
        in_store(state, told, at, request),
    ensures
        on_record(
            state.with_request(request),
            told.with_action(
                session::SaveActionView::Report(state.with_request(request).progress),
            ),
            at + 1,
        ),
{
    lemma_report(told.reports, state.to_save.len(), state.with_request(request).progress);
}

/// The rewriting of fingerprints changes nothing of what is accounted for.
proof fn lemma_rewritten_accounted(
    state: session::SaveStateView,
    at: usize,
    purpose: Purpose,
    hashes: Seq<u64>,
    told: Told,
)
    requires
        match purpose {
            Purpose::Dependents => session::past_unit(state, at) && on_record(
                state,
                told,
                at + 1,
            ),
            Purpose::Saving(glibc) => session::at_work(state, at, glibc) && on_record(
                state,
                told,
                at as int,
            ),
        },
    ensures
        next_accounted(
            session::give_up_unit(state.with_rewritten(hashes), at, purpose),
            told,
        ),
{
    let after = state.with_rewritten(hashes);
    session::lemma_given_up_consistent(state, at, purpose, hashes);
    match purpose {
        Purpose::Dependents => {
            lemma_save_from_accounted(after, (at + 1) as usize, told);
        },
        Purpose::Saving(_) => {
            lemma_skip_accounted(after, at, told);
        },
    }
}

proof fn lemma_step_accounted(
    state: session::SaveStateView,
    phase: session::PhaseView,
    event: SaveEvent,
    told: Told,
)
    requires
        session::consistent(state, phase),
        session::event_fits(state, phase, event),
        accounted(state, phase, told),
    ensures
        next_accounted(session::next(state, phase, event), told.with_event(phase, event)),
{
    match (phase, event) {
        (session::PhaseView::Idle, SaveEvent::Begin) => {
            lemma_scan_from_accounted(state, 0, told);
        },
        (
            session::PhaseView::CheckingFiles { unit },
            SaveEvent::FingerprintFiles { json, hash },
        ) => {
            if !(json && hash) {
                lemma_scan_from_accounted(state, (unit + 1) as usize, told);
            }
        },
        (session::PhaseView::Scanning { unit }, SaveEvent::FingerprintRead(fingerprint)) => {
            lemma_read_accounted(state, unit, fingerprint, told);
        },
        (session::PhaseView::ReadingFiles { at, .. }, SaveEvent::UnitFilesFailed(_)) => {
            lemma_skip_accounted(state, at, told);
        },
        (
            session::PhaseView::Rewriting { at, purpose, root, hashes, stop },
            SaveEvent::Rewritten,
        ) => {
            lemma_rewritten_accounted(state, at, purpose, hashes, told);
        },
        (
            session::PhaseView::Rewriting { at, purpose, hashes, .. },
            SaveEvent::RewriteFailed { done, report },
        ) => {
            lemma_rewritten_accounted(
                state,
                at,
                purpose,
                if done < hashes.len() {
                    hashes.subrange(0, done as int)
                } else {
                    hashes
                },
                told,
            );
        },
        (session::PhaseView::Rendering { at, purpose }, SaveEvent::FingerprintText(_)) => {
            if purpose is Dependents {
                lemma_save_from_accounted(state, (at + 1) as usize, told);
            }
        },
        (
            session::PhaseView::Preparing { at, glibc, fingerprint },
            SaveEvent::FilesPrepared(files),
        ) => {
            lemma_store_accounted(state, at, glibc, fingerprint, files, told);
        },
        (session::PhaseView::Encoding { at, request }, SaveEvent::Encoded) => {
            lemma_encoded_accounted(state, at, request, told);
        },
        (session::PhaseView::Reporting { at }, SaveEvent::Reported) => {
            lemma_save_from_accounted(state, (at + 1) as usize, told);
        },
        _ => {},
    }
}

proof fn lemma_read_accounted(
    state: session::SaveStateView,
    unit: usize,
    fingerprint: Fingerprint,
    told: Told,
)
    requires
        session::consistent(state, session::PhaseView::Scanning { unit }),
        nothing_but(told, state.to_save.push(unit)),
    ensures
        next_accounted(
            session::next(
                state,
                session::PhaseView::Scanning { unit },
                SaveEvent::FingerprintRead(fingerprint),
            ),
            told,
        ),
{
    let scanned = session::SaveStateView {
        inputs: state.inputs.insert(
            fingerprint.hash,
            FingerprintRewriteInput {
                src_path: state.units[unit as int].src_path,
                fingerprint,
            },
        ),
        to_save: state.to_save.push(unit),
        ..state
    };
    session::lemma_increasing_len(scanned.to_save, (unit + 1) as usize);
    lemma_scan_from_accounted(scanned, (unit + 1) as usize, told);
}

/// All that comes of a course is accounted for.
proof fn lemma_course_accounted(
    units: Seq<UnitPlan>,
    restored: Restored,
    host_arch: RustcTargetPlatform,
    events: Seq<SaveEvent>,
)
    requires
        units.len() <= usize::MAX,
        all_fit(
            save_laws::initial(units, restored, host_arch),
            session::PhaseView::Idle,
            events,
        ),
    ensures
        ({
            let start = save_laws::initial(units, restored, host_arch);
            let (state, phase) = save_laws::after(start, session::PhaseView::Idle, events);
            &&& accounted(state, phase, told(start, session::PhaseView::Idle, events))
            &&& state.restored == restored
        }),
    decreases events.len(),
{
    let start = save_laws::initial(units, restored, host_arch);
    let idle = session::PhaseView::Idle;
    save_laws::every_course_is_consistent(units, restored, host_arch, events);
    if events.len() > 0 {
        let fewer = events.drop_last();
        lemma_course_accounted(units, restored, host_arch, fewer);
        save_laws::every_course_is_consistent(units, restored, host_arch, fewer);
        let (state, phase) = save_laws::after(start, idle, fewer);
        lemma_step_accounted(state, phase, events.last(), told(start, idle, fewer));
        lemma_step_is_next(state, phase, events.last());
    }
}

proof fn lemma_step_is_next(
    state: session::SaveStateView,
    phase: session::PhaseView,
    event: SaveEvent,
)
    ensures
        save_laws::step(state, phase, event) == session::next(state, phase, event),
{
    reveal(save_laws::step);
}

/// A course makes at most one report for each unit that has both fingerprint files. In each
/// report, the units in total exceed the uploaded ones by those that were not reported yet,
/// and since the report before either one unit more was uploaded, or one less is in total
/// and nothing else has changed. A finished course has reported on all these units
/// and has submitted once, and no course submits more than once.
pub proof fn reports_account_for_the_units(
    units: Seq<UnitPlan>,
    restored: Restored,
    host_arch: RustcTargetPlatform,
    events: Seq<SaveEvent>,
)
    requires
        units.len() <= usize::MAX,
        all_fit(
            save_laws::initial(units, restored, host_arch),
            session::PhaseView::Idle,
            events,
        ),
    ensures
        ({
            let start = save_laws::initial(units, restored, host_arch);
            let (state, phase) = save_laws::after(start, session::PhaseView::Idle, events);
            let told = told(start, session::PhaseView::Idle, events);
            &&& save_laws::saving(phase) ==> state.to_save == told.complete
            &&& reports_right(told.reports, told.complete.len())
            &&& told.reports.len() <= told.complete.len()
            &&& told.submissions.len() <= 1
            &&& phase is Finished ==> {
                &&& told.reports.len() == told.complete.len()
                &&& told.submissions.len() == 1
            }
        }),
{
    let start = save_laws::initial(units, restored, host_arch);
    let (state, phase) = save_laws::after(start, session::PhaseView::Idle, events);
    let told = told(start, session::PhaseView::Idle, events);
    lemma_course_accounted(units, restored, host_arch, events);
    save_laws::every_course_is_consistent(units, restored, host_arch, events);
    let n = told.reports.len() as int;
    if n > 0 {
        assert(report_right(told.reports, told.complete.len(), n - 1));
    }
}

/// Once saving has begun, the uploaded files and bytes are the number and the bytes of all
/// objects stored so far. So they are in every report.
pub proof fn progress_counts_what_is_stored(
    units: Seq<UnitPlan>,
    restored: Restored,
    host_arch: RustcTargetPlatform,
    events: Seq<SaveEvent>,
)
    requires
        units.len() <= usize::MAX,
        all_fit(
            save_laws::initial(units, restored, host_arch),
            session::PhaseView::Idle,
            events,
        ),
    ensures
        ({
            let start = save_laws::initial(units, restored, host_arch);
            let idle = session::PhaseView::Idle;
            let (state, phase) = save_laws::after(start, idle, events);
            let told = told(start, idle, events);
            &&& save_laws::saving(phase) ==> counts(state.progress, told.stored)
            &&& events.len() > 0 ==> {
                let (before, waiting) = save_laws::after(start, idle, events.drop_last());
                save_laws::step(
                    before,
                    waiting,
                    events.last(),
                ).action matches session::SaveActionView::Report(progress) ==> counts(
                    progress,
                    told.stored,
                )
            }
        }),
{
    let start = save_laws::initial(units, restored, host_arch);
    let idle = session::PhaseView::Idle;
    lemma_course_accounted(units, restored, host_arch, events);
    if events.len() > 0 {
        let (before, waiting) = save_laws::after(start, idle, events.drop_last());
        lemma_step_is_next(before, waiting, events.last());
        lemma_report_is_progress(before, waiting, events.last());
    }
}

/// What is reported is the progress, and saving has begun.
proof fn lemma_report_is_progress(
    state: session::SaveStateView,
    phase: session::PhaseView,
    event: SaveEvent,
)
    ensures
        ({
            let next = session::next(state, phase, event);
            next.action matches session::SaveActionView::Report(progress) ==> {
                &&& progress == next.state.progress
                &&& save_laws::saving(next.phase)
            }
        }),
{
}

/// At the submission, the keys of the stored objects are those that the requests name,
/// without those that came from the cache, in the same order.
pub proof fn stored_keys_are_the_requested_ones(
    units: Seq<UnitPlan>,
    restored: Restored,
    host_arch: RustcTargetPlatform,
    events: Seq<SaveEvent>,
)
    requires
        units.len() <= usize::MAX,
        all_fit(
            save_laws::initial(units, restored, host_arch),
            session::PhaseView::Idle,
            events,
        ),
    ensures
        ({
            let start = save_laws::initial(units, restored, host_arch);
            let told = told(start, session::PhaseView::Idle, events);
            told.submissions.len() > 0 ==> keys_of(told.stored) == requested_keys(
                told.submissions[0],
                restored,
            )
        }),
{
    lemma_course_accounted(units, restored, host_arch, events);
}

} // verus!
