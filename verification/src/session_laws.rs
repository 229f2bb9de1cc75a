//! What a session does next, told by what it waits for and what happened.
use vstd::prelude::*;

use crate::fingerprint;
use crate::fingerprint::{Fingerprint, FingerprintRewriteInput, QualifiedPath};
use crate::fingerprint_laws;
use crate::save;
use crate::save::{Blob, SaveProgress, UnitFiles, UnitKind};
use crate::session;
use crate::session::{Purpose, SaveEvent, UnitPlan};
use crate::target::{RustcTarget, RustcTargetPlatform};
use crate::text;
use crate::text_laws;

verus! {

/// The unit at position `at` among those that have their fingerprint files.
pub open spec fn unit_of(state: session::SaveStateView, at: usize) -> UnitPlan {
    state.units[state.to_save[at as int] as int]
}

/// The cache gave the unit to this build.
pub open spec fn came_from_cache(state: session::SaveStateView, unit: UnitPlan) -> bool {
    exists|i: int|
        0 <= i < state.restored.units@.len() && (#[trigger] state.restored.units@[i])@
            == unit.unit_hash@
}

/// The unit is compiled for the platform that the build runs on.
pub open spec fn is_for_host(state: session::SaveStateView, unit: UnitPlan) -> bool {
    match (unit.target_arch, state.host_arch) {
        (RustcTarget::ImplicitHost, _) => true,
        (
            RustcTarget::Specified(RustcTargetPlatform::Supported(triple)),
            RustcTargetPlatform::Supported(host),
        ) => triple@ == host@,
        (
            RustcTarget::Specified(RustcTargetPlatform::Unsupported(triple)),
            RustcTargetPlatform::Unsupported(host),
        ) => triple@ == host@,
        _ => false,
    }
}

/// The target triple of a platform.
pub open spec fn triple_of(platform: RustcTargetPlatform) -> Seq<char> {
    match platform {
        RustcTargetPlatform::Supported(triple) => triple@,
        RustcTargetPlatform::Unsupported(triple) => triple@,
    }
}

/// The target triple of the platform that the unit is compiled for.
pub open spec fn target_triple(state: session::SaveStateView, unit: UnitPlan) -> Seq<char> {
    match unit.target_arch {
        RustcTarget::ImplicitHost => triple_of(state.host_arch),
        RustcTarget::Specified(platform) => triple_of(platform),
    }
}

/// The source path with which a unit is saved: the run of a build script has none, all
/// others keep theirs.
pub open spec fn source_to_save(unit: UnitPlan) -> Option<QualifiedPath> {
    match unit.kind {
        UnitKind::LibraryCrate => unit.src_path,
        UnitKind::BuildScriptCompilation => unit.src_path,
        UnitKind::BuildScriptExecution => None,
    }
}

/// The next state, phase and action are these.
pub open spec fn is_next(
    next: session::Next,
    state: session::SaveStateView,
    phase: session::PhaseView,
    action: session::SaveActionView,
) -> bool {
    next.state == state && next.phase == phase && next.action == action
}

/// The progress with one unit less in total.
pub open spec fn one_less(progress: SaveProgress) -> SaveProgress {
    SaveProgress {
        uploaded_units: progress.uploaded_units,
        total_units: (progress.total_units - 1) as u64,
        uploaded_files: progress.uploaded_files,
        uploaded_bytes: progress.uploaded_bytes,
    }
}

/// One unit is taken off the total, this is reported, and nothing else changes.
pub open spec fn takes_one_off(
    next: session::Next,
    state: session::SaveStateView,
    phase: session::PhaseView,
) -> bool {
    is_next(
        next,
        session::SaveStateView { progress: one_less(state.progress), ..state },
        phase,
        session::SaveActionView::Report(one_less(state.progress)),
    )
}

/// The session turns to position `at`. Behind the last unit all requests are submitted. A
/// unit from the cache is taken off the total. A unit that does not use glibc has its files
/// read, one that does only after the version of the host was found, and one that was built
/// against the glibc of another platform is taken off the total.
pub open spec fn turns_to(next: session::Next, state: session::SaveStateView, at: usize) -> bool {
    if at >= state.to_save.len() {
        is_next(
            next,
            session::SaveStateView { requests: Seq::empty(), ..state },
            session::PhaseView::Submitting,
            session::SaveActionView::Submit(state.requests),
        )
    } else if came_from_cache(state, unit_of(state, at)) {
        takes_one_off(next, state, session::PhaseView::ReportingRestored { at })
    } else if unit_of(state, at).uses_glibc && !is_for_host(state, unit_of(state, at)) {
        takes_one_off(next, state, session::PhaseView::Reporting { at })
    } else if unit_of(state, at).uses_glibc {
        is_next(
            next,
            state,
            session::PhaseView::AskingGlibc { at },
            session::SaveActionView::AskHostGlibc,
        )
    } else {
        is_next(
            next,
            state,
            session::PhaseView::ReadingFiles { at, glibc: None },
            session::SaveActionView::ReadUnitFiles { unit: state.to_save[at as int] },
        )
    }
}

/// The session looks at unit `unit`. After the last one it begins to save those that have
/// their fingerprint files, all of which make up the total.
pub open spec fn looks_at(next: session::Next, state: session::SaveStateView, unit: usize) -> bool {
    if unit < state.units.len() {
        is_next(
            next,
            state,
            session::PhaseView::CheckingFiles { unit },
            session::SaveActionView::CheckFingerprintFiles { unit },
        )
    } else {
        turns_to(
            next,
            session::SaveStateView {
                progress: SaveProgress {
                    uploaded_units: 0,
                    total_units: state.to_save.len() as u64,
                    uploaded_files: 0,
                    uploaded_bytes: 0,
                },
                ..state
            },
            0,
        )
    }
}

/// The plan for this fingerprint with this source path is to be carried out.
pub open spec fn plans(
    next: session::Next,
    state: session::SaveStateView,
    at: usize,
    purpose: Purpose,
    src_path: Option<QualifiedPath>,
    fingerprint: Fingerprint,
) -> bool {
    let (walk, reason) = fingerprint::planned_walk(
        src_path,
        state.inputs,
        state.rewritten,
        fingerprint,
    );
    &&& next.state == state
    &&& next.action == session::SaveActionView::Rewrite(walk.steps)
    &&& next.phase matches session::PhaseView::Rewriting {
        at: position,
        purpose: aim,
        root,
        hashes,
        stop,
    }
    &&& position == at
    &&& aim == purpose
    &&& root == fingerprint.hash
    &&& stop == reason
    &&& hashes.len() == walk.steps.len()
    &&& forall|i: int| 0 <= i < hashes.len() ==> #[trigger] hashes[i] == walk.steps[i].hash
}

proof fn lemma_turns_to(state: session::SaveStateView, at: usize)
    ensures
        turns_to(session::save_from(state, at), state, at),
{
    if at < state.to_save.len() {
        let unit = state.unit_at(at);
        assert(state.restored.has_unit(unit.unit_hash@) == came_from_cache(state, unit));
        assert(state.arch_at(at).is_same(state.host_arch) == is_for_host(state, unit));
    }
}

proof fn lemma_looks_at(state: session::SaveStateView, unit: usize)
    ensures
        looks_at(session::scan_from(state, unit), state, unit),
{
    if unit >= state.units.len() {
        lemma_turns_to(
            session::SaveStateView {
                progress: SaveProgress {
                    uploaded_units: 0,
                    total_units: state.to_save.len() as u64,
                    uploaded_files: 0,
                    uploaded_bytes: 0,
                },
                ..state
            },
            0,
        );
    }
}

/// All units are looked at, one after the other. One with both fingerprint files has its
/// fingerprint read, is to be saved, and its fingerprint is known from then on, by its hash
/// and with the source path of the unit. One without is passed over.
pub proof fn units_are_looked_at_in_order(
    state: session::SaveStateView,
    unit: usize,
    json: bool,
    hash: bool,
    fingerprint: Fingerprint,
)
    ensures
        looks_at(
            session::next(state, session::PhaseView::Idle, SaveEvent::Begin),
            state,
            0,
        ),
        json && hash ==> is_next(
            session::next(
                state,
                session::PhaseView::CheckingFiles { unit },
                SaveEvent::FingerprintFiles { json, hash },
            ),
            state,
            session::PhaseView::Scanning { unit },
            session::SaveActionView::ReadFingerprint { unit },
        ),
        !json || !hash ==> looks_at(
            session::next(
                state,
                session::PhaseView::CheckingFiles { unit },
                SaveEvent::FingerprintFiles { json, hash },
            ),
            state,
            (unit + 1) as usize,
        ),
        looks_at(
            session::next(
                state,
                session::PhaseView::Scanning { unit },
                SaveEvent::FingerprintRead(fingerprint),
            ),
            session::SaveStateView {
                inputs: state.inputs.insert(
                    fingerprint.hash,
                    FingerprintRewriteInput {
                        src_path: state.units[unit as int].src_path,
                        fingerprint,
                    },
                ),
                to_save: state.to_save.push(unit),
                ..state
            },
            (unit + 1) as usize,
        ),
{
    lemma_looks_at(state, 0);
    lemma_looks_at(state, (unit + 1) as usize);
    lemma_looks_at(
        session::SaveStateView {
            inputs: state.inputs.insert(
                fingerprint.hash,
                FingerprintRewriteInput {
                    src_path: state.units[unit as int].src_path,
                    fingerprint,
                },
            ),
            to_save: state.to_save.push(unit),
            ..state
        },
        (unit + 1) as usize,
    );
}

/// After the report on a unit that came from the cache its fingerprint is read again, and
/// rewritten with the source path of the unit, for the sake of the units that depend on it.
pub proof fn restored_units_have_their_fingerprint_rewritten(
    state: session::SaveStateView,
    at: usize,
    fingerprint: Fingerprint,
)
    ensures
        is_next(
            session::next(
                state,
                session::PhaseView::ReportingRestored { at },
                SaveEvent::Reported,
            ),
            state,
            session::PhaseView::ReadingRestored { at },
            session::SaveActionView::ReadFingerprint { unit: state.to_save[at as int] },
        ),
        plans(
            session::next(
                state,
                session::PhaseView::ReadingRestored { at },
                SaveEvent::FingerprintRead(fingerprint),
            ),
            state,
            at,
            Purpose::Dependents,
            unit_of(state, at).src_path,
            fingerprint,
        ),
{
}

/// The version of glibc that was found goes with the unit, and its files are read.
pub proof fn glibc_version_goes_with_the_unit(
    state: session::SaveStateView,
    at: usize,
    glibc: Option<String>,
)
    ensures
        is_next(
            session::next(
                state,
                session::PhaseView::AskingGlibc { at },
                SaveEvent::HostGlibc(glibc),
            ),
            state,
            session::PhaseView::ReadingFiles { at, glibc },
            session::SaveActionView::ReadUnitFiles { unit: state.to_save[at as int] },
        ),
{
}

/// Once the files of a unit are read, its fingerprint is rewritten: with the source path of
/// the unit if that is a library crate or the compilation of a build script, and without one
/// if it is the run of a build script.
pub proof fn saved_units_have_their_fingerprint_rewritten(
    state: session::SaveStateView,
    at: usize,
    glibc: Option<String>,
    fingerprint: Fingerprint,
)
    ensures
        plans(
            session::next(
                state,
                session::PhaseView::ReadingFiles { at, glibc },
                SaveEvent::UnitFilesRead(fingerprint),
            ),
            state,
            at,
            Purpose::Saving(glibc),
            source_to_save(unit_of(state, at)),
            fingerprint,
        ),
{
}

/// The fingerprint of a unit that depends on nothing is rewritten in one step. For a library
/// crate and for the compilation of a build script the step gives it the source path of the
/// unit, rooted at `/cargo_home`, and for the run of a build script it gives it none.
pub proof fn each_kind_of_unit_is_saved_with_its_path(
    state: session::SaveStateView,
    at: usize,
    glibc: Option<String>,
    fingerprint: Fingerprint,
    p: String,
)
    requires
        state.inputs.dom().finite(),
        fingerprint.deps@.len() == 0,
        !state.rewritten.contains(fingerprint.hash),
        state.units[state.to_save[at as int] as int].src_path == Some(
            QualifiedPath::RelativeCargoHome(p),
        ),
        p@.len() == 0 || p@[0] != '/',
    ensures
        session::next(
            state,
            session::PhaseView::ReadingFiles { at, glibc },
            SaveEvent::UnitFilesRead(fingerprint),
        ).action matches session::SaveActionView::Rewrite(steps) && {
            &&& steps.len() == 1
            &&& steps[0].hash == fingerprint.hash
            &&& match state.units[state.to_save[at as int] as int].kind {
                UnitKind::LibraryCrate | UnitKind::BuildScriptCompilation => steps[0].src_path
                    == Some(
                    seq!['/', 'c', 'a', 'r', 'g', 'o', '_', 'h', 'o', 'm', 'e', '/'] + p@,
                ),
                UnitKind::BuildScriptExecution => steps[0].src_path is None,
            }
        },
{
    let src_path = source_to_save(unit_of(state, at));
    saved_units_have_their_fingerprint_rewritten(state, at, glibc, fingerprint);
    fingerprint_laws::source_paths_are_rooted_at_one_cargo_home(p);
    fingerprint_laws::single_fingerprints_take_one_step(
        state.inputs,
        src_path,
        fingerprint,
        fingerprint::Walk { done: state.rewritten, steps: Seq::empty() },
        Set::empty(),
    );
}

/// A report tells that a file was missing, or a fingerprint that another one depends on,
/// exactly if it holds the words for that, wherever they stand.
pub proof fn reports_are_told_apart_by_their_words(before: Seq<char>, after: Seq<char>)
    ensures
        session::missing_file(before + "No such file or directory"@ + after),
        session::missing_dependency(before + "dependency fingerprint hash not found"@ + after),
        forall|report: Seq<char>| #[trigger]
            session::missing_file(report) ==> text::occurs(report, "No such file or directory"@),
        forall|report: Seq<char>| #[trigger]
            session::missing_dependency(report) ==> text::occurs(
                report,
                "dependency fingerprint hash not found"@,
            ),
{
    text_laws::parts_occur(before, "No such file or directory"@, after);
    text_laws::parts_occur(before, "dependency fingerprint hash not found"@, after);
}

/// A unit whose files are missing is taken off the total. Files that cannot be read for any
/// other reason fail the whole.
pub proof fn missing_files_only_skip_the_unit(
    state: session::SaveStateView,
    at: usize,
    glibc: Option<String>,
    report: String,
)
    ensures
        ({
            let next = session::next(
                state,
                session::PhaseView::ReadingFiles { at, glibc },
                SaveEvent::UnitFilesFailed(report),
            );
            &&& text::occurs(report@, "No such file or directory"@) ==> takes_one_off(
                next,
                state,
                session::PhaseView::Reporting { at },
            )
            &&& !text::occurs(report@, "No such file or directory"@) ==> is_next(
                next,
                state,
                session::PhaseView::Failed,
                session::SaveActionView::Abort,
            )
        }),
{
}

/// A unit whose fingerprint lacks one that it depends on is not saved: it is taken off the
/// total, or passed over where it came from the cache and was taken off already.
pub open spec fn goes_on_without(
    next: session::Next,
    state: session::SaveStateView,
    at: usize,
    purpose: Purpose,
) -> bool {
    match purpose {
        Purpose::Dependents => turns_to(next, state, (at + 1) as usize),
        Purpose::Saving(_) => takes_one_off(next, state, session::PhaseView::Reporting { at }),
    }
}

/// The fingerprints with these hashes are rewritten in `then`, besides those that were in
/// `state`, and nothing else is different.
pub open spec fn notes_rewritten(
    state: session::SaveStateView,
    then: session::SaveStateView,
    hashes: Seq<u64>,
) -> bool {
    &&& then == (session::SaveStateView { rewritten: then.rewritten, ..state })
    &&& forall|hash: u64| #[trigger]
        then.rewritten.contains(hash) <==> state.rewritten.contains(hash) || hashes.contains(hash)
}

/// Once all steps of a plan were done, their fingerprints count as rewritten. Where nothing
/// stopped the plan, the text of the fingerprint that it was for is asked for. Where a
/// dependency was missing, the session goes on without the unit. Any other reason fails the
/// whole.
pub proof fn done_plans_are_noted(
    state: session::SaveStateView,
    at: usize,
    purpose: Purpose,
    root: u64,
    hashes: Seq<u64>,
    stop: Option<fingerprint::RewriteErrorView>,
) -> (then: session::SaveStateView)
    ensures
        notes_rewritten(state, then, hashes),
        ({
            let next = session::next(
                state,
                session::PhaseView::Rewriting { at, purpose, root, hashes, stop },
                SaveEvent::Rewritten,
            );
            match stop {
                None => is_next(
                    next,
                    then,
                    session::PhaseView::Rendering { at, purpose },
                    session::SaveActionView::RenderFingerprint { hash: root },
                ),
                Some(error) => if text::occurs(
                    error.message(),
                    "dependency fingerprint hash not found"@,
                ) {
                    goes_on_without(next, then, at, purpose)
                } else {
                    is_next(
                        next,
                        then,
                        session::PhaseView::Failed,
                        session::SaveActionView::Fail(error),
                    )
                },
            }
        }),
{
    let then = state.with_rewritten(hashes);
    lemma_turns_to(then, (at + 1) as usize);
    then
}

/// Where a step of a plan fails, the fingerprints of the steps before it count as rewritten.
/// For want of a dependency the session goes on without the unit. Any other report fails the
/// whole.
pub proof fn failed_plans_are_noted(
    state: session::SaveStateView,
    at: usize,
    purpose: Purpose,
    root: u64,
    hashes: Seq<u64>,
    stop: Option<fingerprint::RewriteErrorView>,
    done: usize,
    report: String,
) -> (then: session::SaveStateView)
    requires
        done <= hashes.len(),
    ensures
        notes_rewritten(state, then, hashes.subrange(0, done as int)),
        ({
            let next = session::next(
                state,
                session::PhaseView::Rewriting { at, purpose, root, hashes, stop },
                SaveEvent::RewriteFailed { done, report },
            );
            if text::occurs(report@, "dependency fingerprint hash not found"@) {
                goes_on_without(next, then, at, purpose)
            } else {
                is_next(
                    next,
                    then,
                    session::PhaseView::Failed,
                    session::SaveActionView::Abort,
                )
            }
        }),
{
    let some = hashes.subrange(0, done as int);
    assert(done == hashes.len() ==> some =~= hashes);
    let then = state.with_rewritten(some);
    lemma_turns_to(then, (at + 1) as usize);
    then
}

/// With the text of its rewritten fingerprint a unit is made ready to be stored. A unit from
/// the cache needs no more, and the session turns to the next one.
pub proof fn rewritten_fingerprints_go_with_the_unit(
    state: session::SaveStateView,
    at: usize,
    glibc: Option<String>,
    text: String,
)
    ensures
        turns_to(
            session::next(
                state,
                session::PhaseView::Rendering { at, purpose: Purpose::Dependents },
                SaveEvent::FingerprintText(text),
            ),
            state,
            (at + 1) as usize,
        ),
        is_next(
            session::next(
                state,
                session::PhaseView::Rendering { at, purpose: Purpose::Saving(glibc) },
                SaveEvent::FingerprintText(text),
            ),
            state,
            session::PhaseView::Preparing { at, glibc, fingerprint: text },
            session::SaveActionView::PrepareFiles { unit: state.to_save[at as int] },
        ),
{
    lemma_turns_to(state, (at + 1) as usize);
}

/// The files are those of a unit of this kind.
pub open spec fn of_kind(files: UnitFiles, kind: UnitKind) -> bool {
    match kind {
        UnitKind::LibraryCrate => files is LibraryCrate,
        UnitKind::BuildScriptCompilation => files is BuildScriptCompilation,
        UnitKind::BuildScriptExecution => files is BuildScriptExecution,
    }
}

/// Once the files of a unit are ready, those of its objects that the cache did not give to
/// this build are stored and counted, if there are any, and the unit is encoded after that.
/// The request for it names the unit, its files, the fingerprint, the target triple and the
/// version of glibc. Files of another kind change nothing.
pub proof fn ready_units_are_stored(
    state: session::SaveStateView,
    at: usize,
    glibc: Option<String>,
    text: String,
    files: UnitFiles,
    uploads: Seq<Blob>,
)
    requires
        uploads == save::new_objects(save::unit_objects(files), state.restored),
        state.progress.uploaded_files + uploads.len() <= u64::MAX,
        state.progress.uploaded_bytes + save::total_bytes(uploads) <= u64::MAX,
    ensures
        ({
            let waiting = session::PhaseView::Preparing { at, glibc, fingerprint: text };
            let next = session::next(state, waiting, SaveEvent::FilesPrepared(files));
            let request = save::SaveUnitRequestView {
                unit: state.to_save[at as int],
                saved: save::saved_unit(files, text),
                resolved_target: target_triple(state, unit_of(state, at)),
                linux_glibc_version: glibc,
            };
            let then = session::SaveStateView {
                progress: SaveProgress {
                    uploaded_units: state.progress.uploaded_units,
                    total_units: state.progress.total_units,
                    uploaded_files: (state.progress.uploaded_files + uploads.len()) as u64,
                    uploaded_bytes: (state.progress.uploaded_bytes + save::total_bytes(
                        uploads,
                    )) as u64,
                },
                ..state
            };
            &&& !of_kind(files, unit_of(state, at).kind) ==> is_next(
                next,
                state,
                waiting,
                session::SaveActionView::Ignore,
            )
            &&& of_kind(files, unit_of(state, at).kind) && uploads.len() > 0 ==> is_next(
                next,
                then,
                session::PhaseView::Storing { at, request },
                session::SaveActionView::Store(uploads),
            )
            &&& of_kind(files, unit_of(state, at).kind) && uploads.len() == 0 ==> is_next(
                next,
                then,
                session::PhaseView::Encoding { at, request },
                session::SaveActionView::EncodeUnit { unit: state.to_save[at as int] },
            )
        }),
{
    assert(state.arch_at(at).triple() == target_triple(state, unit_of(state, at)));
}

/// Once its objects are stored, a unit is encoded. Then its request joins the others at the
/// end, it counts as uploaded, and that is reported. After a report the session turns to the
/// next unit, and after the submission it is done.
pub proof fn stored_units_are_requested(
    state: session::SaveStateView,
    at: usize,
    request: save::SaveUnitRequestView,
)
    ensures
        is_next(
            session::next(
                state,
                session::PhaseView::Storing { at, request },
                SaveEvent::Stored,
            ),
            state,
            session::PhaseView::Encoding { at, request },
            session::SaveActionView::EncodeUnit { unit: state.to_save[at as int] },
        ),
        ({
            let progress = SaveProgress {
                uploaded_units: (state.progress.uploaded_units + 1) as u64,
                total_units: state.progress.total_units,
                uploaded_files: state.progress.uploaded_files,
                uploaded_bytes: state.progress.uploaded_bytes,
            };
            is_next(
                session::next(
                    state,
                    session::PhaseView::Encoding { at, request },
                    SaveEvent::Encoded,
                ),
                session::SaveStateView {
                    progress,
                    requests: state.requests.push(request),
                    ..state
                },
                session::PhaseView::Reporting { at },
                session::SaveActionView::Report(progress),
            )
        }),
        turns_to(
            session::next(state, session::PhaseView::Reporting { at }, SaveEvent::Reported),
            state,
            (at + 1) as usize,
        ),
        is_next(
            session::next(state, session::PhaseView::Submitting, SaveEvent::Submitted),
            state,
            session::PhaseView::Finished,
            session::SaveActionView::Finish,
        ),
{
    lemma_turns_to(state, (at + 1) as usize);
}

/// The event is an answer to what the session waits for.
pub open spec fn answers(phase: session::PhaseView, event: SaveEvent) -> bool {
    match event {
        SaveEvent::Begin => phase is Idle,
        SaveEvent::FingerprintFiles { .. } => phase is CheckingFiles,
        SaveEvent::FingerprintRead(_) => phase is Scanning || phase is ReadingRestored,
        SaveEvent::Reported => phase is ReportingRestored || phase is Reporting,
        SaveEvent::HostGlibc(_) => phase is AskingGlibc,
        SaveEvent::UnitFilesRead(_) => phase is ReadingFiles,
        SaveEvent::UnitFilesFailed(_) => phase is ReadingFiles,
        SaveEvent::Rewritten => phase is Rewriting,
        SaveEvent::RewriteFailed { .. } => phase is Rewriting,
        SaveEvent::FingerprintText(_) => phase is Rendering,
        SaveEvent::FilesPrepared(_) => phase is Preparing,
        SaveEvent::Stored => phase is Storing,
        SaveEvent::Encoded => phase is Encoding,
        SaveEvent::Submitted => phase is Submitting,
    }
}

/// An event that is no answer to what the session waits for changes nothing, and an answer
/// is ignored only where the files of a unit are not of its kind.
pub proof fn only_answers_count(
    state: session::SaveStateView,
    phase: session::PhaseView,
    event: SaveEvent,
)
    ensures
        !answers(phase, event) ==> is_next(
            session::next(state, phase, event),
            state,
            phase,
            session::SaveActionView::Ignore,
        ),
        answers(phase, event) && !(event is FilesPrepared) ==> !(session::next(
            state,
            phase,
            event,
        ).action is Ignore),
{
}

/// Every event can be taken but files that would overflow a counter of the progress.
pub proof fn only_full_counters_refuse_an_event(
    state: session::SaveStateView,
    phase: session::PhaseView,
    event: SaveEvent,
)
    ensures
        !session::event_fits(state, phase, event) ==> phase is Preparing && (
        event matches SaveEvent::FilesPrepared(files) && {
            let uploads = save::new_objects(save::unit_objects(files), state.restored);
            ||| state.progress.uploaded_files + uploads.len() > u64::MAX
            ||| state.progress.uploaded_bytes + save::total_bytes(uploads) > u64::MAX
        }),
{
}

} // verus!
