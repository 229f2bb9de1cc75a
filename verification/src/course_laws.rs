//! What a unit that came from the cache is worth to the units that depend on it.
use vstd::prelude::*;

use crate::fingerprint;
use crate::fingerprint::{Fingerprint, FingerprintRewriteInput, QualifiedPath};
use crate::save;
use crate::save::{Restored, SaveProgress, UnitFiles};
use crate::save_laws;
use crate::session;
use crate::session::{Purpose, SaveEvent, UnitPlan};
use crate::target::RustcTargetPlatform;

verus! {

/// What a session asked for: which fingerprints to rewrite, of which ones it wanted the
/// text, and which requests to submit, each in order.
#[verifier::ext_equal]
pub struct Asked {
    pub rewrites: Seq<fingerprint::RewriteStepView>,
    pub renders: Seq<u64>,
    pub submits: Seq<save::SaveUnitRequestView>,
}

impl Asked {
    /// First this, then the other.
    pub open spec fn plus(self, other: Self) -> Self {
        Asked {
            rewrites: self.rewrites + other.rewrites,
            renders: self.renders + other.renders,
            submits: self.submits + other.submits,
        }
    }
}

/// Nothing was asked for.
pub open spec fn nothing() -> Asked {
    Asked { rewrites: Seq::empty(), renders: Seq::empty(), submits: Seq::empty() }
}

/// What an action asks for.
pub open spec fn asked_by(action: session::SaveActionView) -> Asked {
    match action {
        session::SaveActionView::Rewrite(steps) => Asked {
            rewrites: steps,
            renders: Seq::empty(),
            submits: Seq::empty(),
        },
        session::SaveActionView::RenderFingerprint { hash } => Asked {
            rewrites: Seq::empty(),
            renders: seq![hash],
            submits: Seq::empty(),
        },
        session::SaveActionView::Submit(requests) => Asked {
            rewrites: Seq::empty(),
            renders: Seq::empty(),
            submits: requests,
        },
        _ => nothing(),
    }
}

/// What a session asks for while `events` happen.
pub open spec fn asked(
    state: session::SaveStateView,
    phase: session::PhaseView,
    events: Seq<SaveEvent>,
) -> Asked
    decreases events.len(),
{
    if events.len() == 0 {
        nothing()
    } else {
        let (before, waiting) = save_laws::after(state, phase, events.drop_last());
        asked(state, phase, events.drop_last()).plus(
            asked_by(save_laws::step(before, waiting, events.last()).action),
        )
    }
}

/// Two units are looked at, and both have their fingerprint files.
pub open spec fn scanning(first: Fingerprint, second: Fingerprint) -> Seq<SaveEvent> {
    seq![
        SaveEvent::Begin,
        SaveEvent::FingerprintFiles { json: true, hash: true },
        SaveEvent::FingerprintRead(first),
        SaveEvent::FingerprintFiles { json: true, hash: true },
        SaveEvent::FingerprintRead(second),
    ]
}

/// A unit that came from the cache is dealt with, and all goes well.
pub open spec fn passing(fingerprint: Fingerprint, text: String) -> Seq<SaveEvent> {
    seq![
        SaveEvent::Reported,
        SaveEvent::FingerprintRead(fingerprint),
        SaveEvent::Rewritten,
        SaveEvent::FingerprintText(text),
    ]
}

/// The version of glibc is found, where it is asked for.
pub open spec fn finding_glibc(unit: UnitPlan, glibc: Option<String>) -> Seq<SaveEvent> {
    if unit.uses_glibc {
        seq![SaveEvent::HostGlibc(glibc)]
    } else {
        Seq::empty()
    }
}

/// The files of a unit are read, its fingerprint is rewritten, and the files are made ready.
pub open spec fn preparing(fingerprint: Fingerprint, text: String, files: UnitFiles) -> Seq<
    SaveEvent,
> {
    seq![
        SaveEvent::UnitFilesRead(fingerprint),
        SaveEvent::Rewritten,
        SaveEvent::FingerprintText(text),
        SaveEvent::FilesPrepared(files),
    ]
}

/// The objects of a unit are stored, where there are any to store, and the unit is encoded.
pub open spec fn storing(files: UnitFiles, restored: Restored) -> Seq<SaveEvent> {
    if save::new_objects(save::unit_objects(files), restored).len() == 0 {
        seq![SaveEvent::Encoded, SaveEvent::Reported]
    } else {
        seq![SaveEvent::Stored, SaveEvent::Encoded, SaveEvent::Reported]
    }
}

/// A unit is saved, and all goes well.
pub open spec fn saving(
    unit: UnitPlan,
    glibc: Option<String>,
    fingerprint: Fingerprint,
    text: String,
    files: UnitFiles,
    restored: Restored,
) -> Seq<SaveEvent> {
    finding_glibc(unit, glibc) + preparing(fingerprint, text, files) + storing(files, restored)
}

/// The version of glibc that a unit is saved with.
pub open spec fn saved_glibc(unit: UnitPlan, glibc: Option<String>) -> Option<String> {
    if unit.uses_glibc {
        glibc
    } else {
        None
    }
}

/// The request for a unit at position `position` among the units.
pub open spec fn request_of(
    unit: UnitPlan,
    position: usize,
    host_arch: RustcTargetPlatform,
    glibc: Option<String>,
    text: String,
    files: UnitFiles,
) -> save::SaveUnitRequestView {
    save::SaveUnitRequestView {
        unit: position,
        saved: save::saved_unit(files, text),
        resolved_target: unit.target_arch.resolved(host_arch).triple(),
        linux_glibc_version: saved_glibc(unit, glibc),
    }
}

/// What a session knows once two units have been looked at.
spec fn scanned(
    first: UnitPlan,
    second: UnitPlan,
    first_fingerprint: Fingerprint,
    second_fingerprint: Fingerprint,
    restored: Restored,
    host_arch: RustcTargetPlatform,
) -> session::SaveStateView {
    session::SaveStateView {
        inputs: Map::empty().insert(
            first_fingerprint.hash,
            FingerprintRewriteInput {
                src_path: first.src_path,
                fingerprint: first_fingerprint,
            },
        ).insert(
            second_fingerprint.hash,
            FingerprintRewriteInput {
                src_path: second.src_path,
                fingerprint: second_fingerprint,
            },
        ),
        to_save: seq![0usize, 1usize],
        progress: SaveProgress {
            uploaded_units: 0,
            total_units: 2,
            uploaded_files: 0,
            uploaded_bytes: 0,
        },
        ..save_laws::initial(seq![first, second], restored, host_arch)
    }
}

/// The hashes of the steps.
spec fn hashes_of(steps: Seq<fingerprint::RewriteStepView>) -> Seq<u64> {
    steps.map_values(|step: fingerprint::RewriteStepView| step.hash)
}

/// What a session knows once a unit that came from the cache has been dealt with.
spec fn passed(
    state: session::SaveStateView,
    steps: Seq<fingerprint::RewriteStepView>,
) -> session::SaveStateView {
    state.without_unit().with_rewritten(hashes_of(steps))
}

/// What a session knows once the files of a unit are ready.
spec fn counted(
    state: session::SaveStateView,
    steps: Seq<fingerprint::RewriteStepView>,
    files: UnitFiles,
) -> session::SaveStateView {
    session::SaveStateView {
        progress: save::with_uploads(
            state.progress,
            save::new_objects(save::unit_objects(files), state.restored),
        ),
        ..state.with_rewritten(hashes_of(steps))
    }
}

proof fn lemma_begin(state: session::SaveStateView)
    ensures
        save_laws::step(state, session::PhaseView::Idle, SaveEvent::Begin) == session::scan_from(
            state,
            0,
        ),
{
    reveal(save_laws::step);
}

proof fn lemma_files_exist(state: session::SaveStateView, unit: usize)
    ensures
        save_laws::step(
            state,
            session::PhaseView::CheckingFiles { unit },
            SaveEvent::FingerprintFiles { json: true, hash: true },
        ) == (session::Next {
            state,
            phase: session::PhaseView::Scanning { unit },
            action: session::SaveActionView::ReadFingerprint { unit },
        }),
{
    reveal(save_laws::step);
}

/// What a session knows once the fingerprint of a unit was read.
spec fn with_input(
    state: session::SaveStateView,
    unit: usize,
    fingerprint: Fingerprint,
) -> session::SaveStateView {
    session::SaveStateView {
        inputs: state.inputs.insert(
            fingerprint.hash,
            FingerprintRewriteInput {
                src_path: state.units[unit as int].src_path,
                fingerprint,
            },
        ),
        to_save: state.to_save.push(unit),
        ..state
    }
}

proof fn lemma_scanned(state: session::SaveStateView, unit: usize, fingerprint: Fingerprint)
    ensures
        save_laws::step(
            state,
            session::PhaseView::Scanning { unit },
            SaveEvent::FingerprintRead(fingerprint),
        ) == session::scan_from(with_input(state, unit, fingerprint), (unit + 1) as usize),
{
    reveal(save_laws::step);
}

proof fn lemma_restored_reported(state: session::SaveStateView, at: usize)
    ensures
        save_laws::step(
            state,
            session::PhaseView::ReportingRestored { at },
            SaveEvent::Reported,
        ) == (session::Next {
            state,
            phase: session::PhaseView::ReadingRestored { at },
            action: session::SaveActionView::ReadFingerprint { unit: state.to_save[at as int] },
        }),
{
    reveal(save_laws::step);
}

/// The rewriting of a fingerprint that nothing stops.
spec fn rewriting(
    state: session::SaveStateView,
    at: usize,
    purpose: Purpose,
    fingerprint: Fingerprint,
    walk: fingerprint::Walk,
) -> session::Next {
    session::Next {
        state,
        phase: session::PhaseView::Rewriting {
            at,
            purpose,
            root: fingerprint.hash,
            hashes: hashes_of(walk.steps),
            stop: None,
        },
        action: session::SaveActionView::Rewrite(walk.steps),
    }
}

proof fn lemma_restored_read(
    state: session::SaveStateView,
    at: usize,
    fingerprint: Fingerprint,
    walk: fingerprint::Walk,
)
    requires
        fingerprint::planned_walk(
            state.unit_at(at).src_path,
            state.inputs,
            state.rewritten,
            fingerprint,
        ) == (walk, None::<fingerprint::RewriteErrorView>),
    ensures
        save_laws::step(
            state,
            session::PhaseView::ReadingRestored { at },
            SaveEvent::FingerprintRead(fingerprint),
        ) == rewriting(state, at, Purpose::Dependents, fingerprint, walk),
{
    reveal(save_laws::step);
}

proof fn lemma_files_read(
    state: session::SaveStateView,
    at: usize,
    version: Option<String>,
    fingerprint: Fingerprint,
    walk: fingerprint::Walk,
)
    requires
        fingerprint::planned_walk(
            state.unit_at(at).saved_src_path(),
            state.inputs,
            state.rewritten,
            fingerprint,
        ) == (walk, None::<fingerprint::RewriteErrorView>),
    ensures
        save_laws::step(
            state,
            session::PhaseView::ReadingFiles { at, glibc: version },
            SaveEvent::UnitFilesRead(fingerprint),
        ) == rewriting(state, at, Purpose::Saving(version), fingerprint, walk),
{
    reveal(save_laws::step);
}

proof fn lemma_rewritten(
    state: session::SaveStateView,
    at: usize,
    purpose: Purpose,
    fingerprint: Fingerprint,
    walk: fingerprint::Walk,
)
    ensures
        save_laws::step(
            state,
            rewriting(state, at, purpose, fingerprint, walk).phase,
            SaveEvent::Rewritten,
        ) == (session::Next {
            state: state.with_rewritten(hashes_of(walk.steps)),
            phase: session::PhaseView::Rendering { at, purpose },
            action: session::SaveActionView::RenderFingerprint { hash: fingerprint.hash },
        }),
{
    reveal(save_laws::step);
}

proof fn lemma_rendered(
    state: session::SaveStateView,
    at: usize,
    version: Option<String>,
    text: String,
)
    ensures
        save_laws::step(
            state,
            session::PhaseView::Rendering { at, purpose: Purpose::Dependents },
            SaveEvent::FingerprintText(text),
        ) == session::save_from(state, (at + 1) as usize),
        save_laws::step(
            state,
            session::PhaseView::Rendering { at, purpose: Purpose::Saving(version) },
            SaveEvent::FingerprintText(text),
        ) == (session::Next {
            state,
            phase: session::PhaseView::Preparing { at, glibc: version, fingerprint: text },
            action: session::SaveActionView::PrepareFiles { unit: state.to_save[at as int] },
        }),
{
    reveal(save_laws::step);
}

proof fn lemma_glibc_found(state: session::SaveStateView, at: usize, glibc: Option<String>)
    ensures
        save_laws::step(
            state,
            session::PhaseView::AskingGlibc { at },
            SaveEvent::HostGlibc(glibc),
        ) == (session::Next {
            state,
            phase: session::PhaseView::ReadingFiles { at, glibc },
            action: session::SaveActionView::ReadUnitFiles { unit: state.to_save[at as int] },
        }),
{
    reveal(save_laws::step);
}

proof fn lemma_prepared(
    state: session::SaveStateView,
    at: usize,
    version: Option<String>,
    text: String,
    files: UnitFiles,
)
    requires
        session::files_fit(state.unit_at(at).kind, files),
    ensures
        save_laws::step(
            state,
            session::PhaseView::Preparing { at, glibc: version, fingerprint: text },
            SaveEvent::FilesPrepared(files),
        ) == session::store_unit(state, at, version, text, files),
{
    reveal(save_laws::step);
}

proof fn lemma_stored(
    state: session::SaveStateView,
    at: usize,
    request: save::SaveUnitRequestView,
)
    ensures
        save_laws::step(
            state,
            session::PhaseView::Storing { at, request },
            SaveEvent::Stored,
        ) == session::encode_unit(state, at, request),
        save_laws::step(
            state,
            session::PhaseView::Encoding { at, request },
            SaveEvent::Encoded,
        ) == (session::Next {
            state: state.with_request(request),
            phase: session::PhaseView::Reporting { at },
            action: session::SaveActionView::Report(state.with_request(request).progress),
        }),
{
    reveal(save_laws::step);
}

proof fn lemma_reported(state: session::SaveStateView, at: usize)
    ensures
        save_laws::step(state, session::PhaseView::Reporting { at }, SaveEvent::Reported)
            == session::save_from(state, (at + 1) as usize),
{
    reveal(save_laws::step);
}

proof fn lemma_submitted(state: session::SaveStateView)
    ensures
        save_laws::step(state, session::PhaseView::Submitting, SaveEvent::Submitted) == (
        session::Next {
            state,
            phase: session::PhaseView::Finished,
            action: session::SaveActionView::Finish,
        }),
{
    reveal(save_laws::step);
}

proof fn lemma_plus(one: Asked, two: Asked, three: Asked)
    ensures
        one.plus(two).plus(three) == one.plus(two.plus(three)),
        one.plus(nothing()) == one,
        nothing().plus(one) == one,
{
    assert(one.plus(two).plus(three) =~= one.plus(two.plus(three)));
    assert(one.plus(nothing()) =~= one);
    assert(nothing().plus(one) =~= one);
}

proof fn lemma_push(
    state: session::SaveStateView,
    phase: session::PhaseView,
    events: Seq<SaveEvent>,
    event: SaveEvent,
)
    ensures
        ({
            let (before, waiting) = save_laws::after(state, phase, events);
            let next = save_laws::step(before, waiting, event);
            &&& save_laws::after(state, phase, events.push(event)) == (next.state, next.phase)
            &&& asked(state, phase, events.push(event)) == asked(state, phase, events).plus(
                asked_by(next.action),
            )
        }),
{
    assert(events.push(event).drop_last() =~= events);
}

proof fn lemma_cat(
    state: session::SaveStateView,
    phase: session::PhaseView,
    events: Seq<SaveEvent>,
    more: Seq<SaveEvent>,
)
    ensures
        ({
            let (middle, waiting) = save_laws::after(state, phase, events);
            &&& save_laws::after(state, phase, events + more) == save_laws::after(
                middle,
                waiting,
                more,
            )
            &&& asked(state, phase, events + more) == asked(state, phase, events).plus(
                asked(middle, waiting, more),
            )
        }),
    decreases more.len(),
{
    let (middle, waiting) = save_laws::after(state, phase, events);
    let begun = asked(state, phase, events);
    if more.len() == 0 {
        assert(events + more =~= events);
        lemma_plus(begun, nothing(), nothing());
    } else {
        let fewer = more.drop_last();
        lemma_cat(state, phase, events, fewer);
        assert((events + more).drop_last() =~= events + fewer);
        assert((events + more).last() == more.last());
        let (before, last) = save_laws::after(middle, waiting, fewer);
        lemma_plus(
            begun,
            asked(middle, waiting, fewer),
            asked_by(save_laws::step(before, last, more.last()).action),
        );
    }
}

proof fn lemma_scanning(
    first: UnitPlan,
    second: UnitPlan,
    first_fingerprint: Fingerprint,
    second_fingerprint: Fingerprint,
    restored: Restored,
    host_arch: RustcTargetPlatform,
)
    ensures
        ({
            let start = save_laws::initial(seq![first, second], restored, host_arch);
            let events = scanning(first_fingerprint, second_fingerprint);
            let then = session::save_from(
                scanned(
                    first,
                    second,
                    first_fingerprint,
                    second_fingerprint,
                    restored,
                    host_arch,
                ),
                0,
            );
            &&& save_laws::after(start, session::PhaseView::Idle, events) == (
                then.state,
                then.phase,
            )
            &&& asked(start, session::PhaseView::Idle, events) == asked_by(then.action)
        }),
{
    let start = save_laws::initial(seq![first, second], restored, host_arch);
    let idle = session::PhaseView::Idle;
    let files = SaveEvent::FingerprintFiles { json: true, hash: true };
    let none = Seq::<SaveEvent>::empty();
    let one = none.push(SaveEvent::Begin);
    let two = one.push(files);
    let three = two.push(SaveEvent::FingerprintRead(first_fingerprint));
    let four = three.push(files);
    let read = with_input(start, 0, first_fingerprint);
    let all = with_input(read, 1, second_fingerprint);
    lemma_begin(start);
    lemma_files_exist(start, 0);
    lemma_scanned(start, 0, first_fingerprint);
    lemma_files_exist(read, 1);
    lemma_scanned(read, 1, second_fingerprint);
    lemma_push(start, idle, none, SaveEvent::Begin);
    lemma_push(start, idle, one, files);
    lemma_push(start, idle, two, SaveEvent::FingerprintRead(first_fingerprint));
    lemma_push(start, idle, three, files);
    lemma_push(start, idle, four, SaveEvent::FingerprintRead(second_fingerprint));
    let done = scanned(
        first,
        second,
        first_fingerprint,
        second_fingerprint,
        restored,
        host_arch,
    );
    assert(all.to_save =~= done.to_save);
    assert(session::scan_from(all, 2) == session::save_from(done, 0));
    assert(scanning(first_fingerprint, second_fingerprint) =~= four.push(
        SaveEvent::FingerprintRead(second_fingerprint),
    ));
    lemma_plus(asked_by(session::save_from(done, 0).action), nothing(), nothing());
}

proof fn lemma_passing(
    state: session::SaveStateView,
    at: usize,
    fingerprint: Fingerprint,
    text: String,
    walk: fingerprint::Walk,
)
    requires
        at < state.to_save.len(),
        state.restored.has_unit(state.unit_at(at).unit_hash@),
        fingerprint::planned_walk(
            state.unit_at(at).src_path,
            state.inputs,
            state.rewritten,
            fingerprint,
        ) == (walk, None::<fingerprint::RewriteErrorView>),
    ensures
        ({
            let start = session::save_from(state, at);
            let then = session::save_from(passed(state, walk.steps), (at + 1) as usize);
            let events = passing(fingerprint, text);
            &&& save_laws::after(start.state, start.phase, events) == (then.state, then.phase)
            &&& asked(start.state, start.phase, events) == (Asked {
                rewrites: walk.steps,
                renders: seq![fingerprint.hash],
                submits: Seq::empty(),
            }).plus(asked_by(then.action))
        }),
{
    let start = session::save_from(state, at);
    let then = session::save_from(passed(state, walk.steps), (at + 1) as usize);
    let none = Seq::<SaveEvent>::empty();
    let one = none.push(SaveEvent::Reported);
    let two = one.push(SaveEvent::FingerprintRead(fingerprint));
    let three = two.push(SaveEvent::Rewritten);
    let without = state.without_unit();
    lemma_restored_reported(without, at);
    lemma_restored_read(without, at, fingerprint, walk);
    lemma_rewritten(without, at, Purpose::Dependents, fingerprint, walk);
    lemma_rendered(passed(state, walk.steps), at, None, text);
    lemma_push(start.state, start.phase, none, SaveEvent::Reported);
    lemma_push(start.state, start.phase, one, SaveEvent::FingerprintRead(fingerprint));
    lemma_push(start.state, start.phase, two, SaveEvent::Rewritten);
    lemma_push(start.state, start.phase, three, SaveEvent::FingerprintText(text));
    assert(passing(fingerprint, text) =~= three.push(SaveEvent::FingerprintText(text)));
    assert(asked(start.state, start.phase, three) =~= Asked {
        rewrites: walk.steps,
        renders: seq![fingerprint.hash],
        submits: Seq::empty(),
    });
}

proof fn lemma_finding_glibc(state: session::SaveStateView, at: usize, glibc: Option<String>)
    requires
        at < state.to_save.len(),
        !state.restored.has_unit(state.unit_at(at).unit_hash@),
        state.unit_at(at).uses_glibc ==> state.arch_at(at).is_same(state.host_arch),
    ensures
        ({
            let start = session::save_from(state, at);
            let unit = state.unit_at(at);
            let events = finding_glibc(unit, glibc);
            &&& save_laws::after(start.state, start.phase, events) == (
                state,
                session::PhaseView::ReadingFiles { at, glibc: saved_glibc(unit, glibc) },
            )
            &&& asked(start.state, start.phase, events) == nothing()
        }),
{
    let start = session::save_from(state, at);
    if state.unit_at(at).uses_glibc {
        lemma_glibc_found(state, at, glibc);
        lemma_push(
            start.state,
            start.phase,
            Seq::<SaveEvent>::empty(),
            SaveEvent::HostGlibc(glibc),
        );
        lemma_plus(nothing(), nothing(), nothing());
    }
}

proof fn lemma_preparing(
    state: session::SaveStateView,
    at: usize,
    version: Option<String>,
    fingerprint: Fingerprint,
    text: String,
    files: UnitFiles,
    walk: fingerprint::Walk,
)
    requires
        at < state.to_save.len(),
        session::files_fit(state.unit_at(at).kind, files),
        fingerprint::planned_walk(
            state.unit_at(at).saved_src_path(),
            state.inputs,
            state.rewritten,
            fingerprint,
        ) == (walk, None::<fingerprint::RewriteErrorView>),
    ensures
        ({
            let start = session::PhaseView::ReadingFiles { at, glibc: version };
            let events = preparing(fingerprint, text, files);
            let then = session::store_unit(
                state.with_rewritten(hashes_of(walk.steps)),
                at,
                version,
                text,
                files,
            );
            &&& save_laws::after(state, start, events) == (then.state, then.phase)
            &&& asked(state, start, events) == (Asked {
                rewrites: walk.steps,
                renders: seq![fingerprint.hash],
                submits: Seq::empty(),
            })
        }),
{
    let start = session::PhaseView::ReadingFiles { at, glibc: version };
    let none = Seq::<SaveEvent>::empty();
    let one = none.push(SaveEvent::UnitFilesRead(fingerprint));
    let two = one.push(SaveEvent::Rewritten);
    let three = two.push(SaveEvent::FingerprintText(text));
    let read = state.with_rewritten(hashes_of(walk.steps));
    lemma_files_read(state, at, version, fingerprint, walk);
    lemma_rewritten(state, at, Purpose::Saving(version), fingerprint, walk);
    lemma_rendered(read, at, version, text);
    lemma_prepared(read, at, version, text, files);
    lemma_push(state, start, none, SaveEvent::UnitFilesRead(fingerprint));
    lemma_push(state, start, one, SaveEvent::Rewritten);
    lemma_push(state, start, two, SaveEvent::FingerprintText(text));
    lemma_push(state, start, three, SaveEvent::FilesPrepared(files));
    assert(preparing(fingerprint, text, files) =~= three.push(SaveEvent::FilesPrepared(files)));
    assert(asked(state, start, preparing(fingerprint, text, files)) =~= Asked {
        rewrites: walk.steps,
        renders: seq![fingerprint.hash],
        submits: Seq::empty(),
    });
}

proof fn lemma_storing(
    state: session::SaveStateView,
    at: usize,
    version: Option<String>,
    text: String,
    files: UnitFiles,
)
    requires
        at < state.to_save.len(),
    ensures
        ({
            let start = session::store_unit(state, at, version, text, files);
            let events = storing(files, state.restored);
            let request = save::SaveUnitRequestView {
                unit: state.to_save[at as int],
                saved: save::saved_unit(files, text),
                resolved_target: state.arch_at(at).triple(),
                linux_glibc_version: version,
            };
            let then = session::save_from(
                start.state.with_request(request),
                (at + 1) as usize,
            );
            &&& save_laws::after(start.state, start.phase, events) == (then.state, then.phase)
            &&& asked(start.state, start.phase, events) == asked_by(then.action)
        }),
{
    let start = session::store_unit(state, at, version, text, files);
    let request = save::SaveUnitRequestView {
        unit: state.to_save[at as int],
        saved: save::saved_unit(files, text),
        resolved_target: state.arch_at(at).triple(),
        linux_glibc_version: version,
    };
    let none = Seq::<SaveEvent>::empty();
    lemma_stored(start.state, at, request);
    lemma_reported(start.state.with_request(request), at);
    let stored = if save::new_objects(save::unit_objects(files), state.restored).len() == 0 {
        none
    } else {
        lemma_push(start.state, start.phase, none, SaveEvent::Stored);
        none.push(SaveEvent::Stored)
    };
    let encoded = stored.push(SaveEvent::Encoded);
    lemma_push(start.state, start.phase, stored, SaveEvent::Encoded);
    lemma_push(start.state, start.phase, encoded, SaveEvent::Reported);
    assert(storing(files, state.restored) =~= encoded.push(SaveEvent::Reported));
    let then = session::save_from(start.state.with_request(request), (at + 1) as usize);
    lemma_plus(asked_by(then.action), nothing(), nothing());
}

proof fn lemma_saving(
    state: session::SaveStateView,
    at: usize,
    glibc: Option<String>,
    fingerprint: Fingerprint,
    text: String,
    files: UnitFiles,
    walk: fingerprint::Walk,
)
    requires
        at < state.to_save.len(),
        !state.restored.has_unit(state.unit_at(at).unit_hash@),
        state.unit_at(at).uses_glibc ==> state.arch_at(at).is_same(state.host_arch),
        session::files_fit(state.unit_at(at).kind, files),
        fingerprint::planned_walk(
            state.unit_at(at).saved_src_path(),
            state.inputs,
            state.rewritten,
            fingerprint,
        ) == (walk, None::<fingerprint::RewriteErrorView>),
    ensures
        ({
            let start = session::save_from(state, at);
            let unit = state.unit_at(at);
            let events = saving(unit, glibc, fingerprint, text, files, state.restored);
            let request = request_of(
                unit,
                state.to_save[at as int],
                state.host_arch,
                glibc,
                text,
                files,
            );
            let then = session::save_from(
                counted(state, walk.steps, files).with_request(request),
                (at + 1) as usize,
            );
            &&& save_laws::after(start.state, start.phase, events) == (then.state, then.phase)
            &&& asked(start.state, start.phase, events) == (Asked {
                rewrites: walk.steps,
                renders: seq![fingerprint.hash],
                submits: Seq::empty(),
            }).plus(asked_by(then.action))
        }),
{
    let start = session::save_from(state, at);
    let unit = state.unit_at(at);
    let version = saved_glibc(unit, glibc);
    let one = finding_glibc(unit, glibc);
    let two = preparing(fingerprint, text, files);
    let three = storing(files, state.restored);
    lemma_finding_glibc(state, at, glibc);
    lemma_preparing(state, at, version, fingerprint, text, files, walk);
    lemma_storing(state.with_rewritten(hashes_of(walk.steps)), at, version, text, files);
    lemma_cat(start.state, start.phase, one, two);
    lemma_cat(start.state, start.phase, one + two, three);
    let events = saving(unit, glibc, fingerprint, text, files, state.restored);
    let request = request_of(unit, state.to_save[at as int], state.host_arch, glibc, text, files);
    let then = session::save_from(
        counted(state, walk.steps, files).with_request(request),
        (at + 1) as usize,
    );
    assert(asked(start.state, start.phase, events) =~= (Asked {
        rewrites: walk.steps,
        renders: seq![fingerprint.hash],
        submits: Seq::empty(),
    }).plus(asked_by(then.action)));
}

/// The step that rewrites a fingerprint.
pub open spec fn step_of(
    src_path: Option<QualifiedPath>,
    fingerprint: Fingerprint,
) -> fingerprint::RewriteStepView {
    fingerprint::RewriteStepView {
        hash: fingerprint.hash,
        src_path: fingerprint::rewritten_src_path(src_path)->Ok_0,
    }
}

/// A fingerprint that depends on nothing is rewritten by itself, and only once.
proof fn lemma_walk_alone(
    src_path: Option<QualifiedPath>,
    inputs: Map<u64, FingerprintRewriteInput>,
    fingerprint: Fingerprint,
    walk: fingerprint::Walk,
    visiting: Set<u64>,
)
    requires
        inputs.dom().finite(),
        fingerprint.deps@.len() == 0,
        fingerprint::rewritten_src_path(src_path) is Ok,
        !visiting.contains(fingerprint.hash),
    ensures
        fingerprint::walked(inputs, src_path, fingerprint, walk, visiting) == (
            if walk.done.contains(fingerprint.hash) {
                walk
            } else {
                fingerprint::Walk {
                    done: walk.done.insert(fingerprint.hash),
                    steps: walk.steps.push(step_of(src_path, fingerprint)),
                }
            },
            None::<fingerprint::RewriteErrorView>,
        ),
{
    assert(fingerprint::walked_deps(
        inputs,
        fingerprint.deps@,
        walk,
        visiting.insert(fingerprint.hash),
    ) == (walk, None::<fingerprint::RewriteErrorView>));
}

/// A fingerprint that depends on one that depends on nothing is rewritten after it.
proof fn lemma_walk_pair(
    src_path: Option<QualifiedPath>,
    dep_src_path: Option<QualifiedPath>,
    inputs: Map<u64, FingerprintRewriteInput>,
    done: Set<u64>,
    fingerprint: Fingerprint,
    dep: Fingerprint,
)
    requires
        inputs.dom().finite(),
        dep.deps@.len() == 0,
        fingerprint.deps@ == seq![dep.hash],
        dep.hash != fingerprint.hash,
        !done.contains(fingerprint.hash),
        inputs.contains_key(dep.hash),
        inputs[dep.hash] == (FingerprintRewriteInput {
            src_path: dep_src_path,
            fingerprint: dep,
        }),
        fingerprint::rewritten_src_path(src_path) is Ok,
        fingerprint::rewritten_src_path(dep_src_path) is Ok,
    ensures
        ({
            let (walk, stop) = fingerprint::planned_walk(src_path, inputs, done, fingerprint);
            &&& stop is None
            &&& walk.steps == if done.contains(dep.hash) {
                seq![step_of(src_path, fingerprint)]
            } else {
                seq![step_of(dep_src_path, dep), step_of(src_path, fingerprint)]
            }
        }),
{
    let start = fingerprint::Walk { done, steps: Seq::empty() };
    let visiting = Set::<u64>::empty().insert(fingerprint.hash);
    lemma_walk_alone(dep_src_path, inputs, dep, start, visiting);
    let after = fingerprint::walked(inputs, dep_src_path, dep, start, visiting).0;
    let rest = fingerprint.deps@.drop_first();
    assert(rest.len() == 0);
    assert(fingerprint::walked_deps(inputs, rest, after, visiting) == (
        after,
        None::<fingerprint::RewriteErrorView>,
    ));
    assert(fingerprint::walked_deps(inputs, fingerprint.deps@, start, visiting) == (
        after,
        None::<fingerprint::RewriteErrorView>,
    ));
}

/// All that happens when a unit that came from the cache and one that depends on it are
/// saved in this order, and all goes well.
pub open spec fn restored_first(
    unit: UnitPlan,
    dep_fingerprint: Fingerprint,
    fingerprint: Fingerprint,
    dep_text: String,
    text: String,
    glibc: Option<String>,
    files: UnitFiles,
    restored: Restored,
) -> Seq<SaveEvent> {
    scanning(dep_fingerprint, fingerprint) + passing(dep_fingerprint, dep_text) + saving(
        unit,
        glibc,
        fingerprint,
        text,
        files,
        restored,
    ) + seq![SaveEvent::Submitted]
}

/// All that happens when a unit and one that it depends on and that came from the cache
/// are saved in this order, and all goes well.
pub open spec fn restored_last(
    unit: UnitPlan,
    dep_fingerprint: Fingerprint,
    fingerprint: Fingerprint,
    dep_text: String,
    text: String,
    glibc: Option<String>,
    files: UnitFiles,
    restored: Restored,
) -> Seq<SaveEvent> {
    scanning(fingerprint, dep_fingerprint) + saving(
        unit,
        glibc,
        fingerprint,
        text,
        files,
        restored,
    ) + passing(dep_fingerprint, dep_text) + seq![SaveEvent::Submitted]
}

/// The unit `dep` came from the cache, `unit` did not and depends on it, and all that is
/// needed to save `unit` is there.
pub open spec fn one_depends_on_restored(
    dep: UnitPlan,
    unit: UnitPlan,
    dep_fingerprint: Fingerprint,
    fingerprint: Fingerprint,
    files: UnitFiles,
    restored: Restored,
    host_arch: RustcTargetPlatform,
) -> bool {
    &&& restored.has_unit(dep.unit_hash@)
    &&& !restored.has_unit(unit.unit_hash@)
    &&& unit.uses_glibc ==> unit.target_arch.resolved(host_arch).is_same(host_arch)
    &&& session::files_fit(unit.kind, files)
    &&& dep_fingerprint.deps@.len() == 0
    &&& fingerprint.deps@ == seq![dep_fingerprint.hash]
    &&& dep_fingerprint.hash != fingerprint.hash
    &&& fingerprint::rewritten_src_path(dep.src_path) is Ok
    &&& fingerprint::rewritten_src_path(unit.saved_src_path()) is Ok
}

/// The progress at the end, where one of two units was uploaded and the other one came from
/// the cache.
pub open spec fn one_uploaded(files: UnitFiles, restored: Restored) -> SaveProgress {
    save::with_uploads(
        SaveProgress { uploaded_units: 1, total_units: 1, uploaded_files: 0, uploaded_bytes: 0 },
        save::new_objects(save::unit_objects(files), restored),
    )
}

/// A unit that came from the cache still supplies its rewritten fingerprint to a unit that
/// depends on it, where it comes first: both fingerprints are rewritten, its own before the
/// other, the text of the latter is asked for, and one request is submitted, for the unit
/// that did not come from the cache, with that text.
pub proof fn restored_unit_serves_a_later_one(
    dep: UnitPlan,
    unit: UnitPlan,
    dep_fingerprint: Fingerprint,
    fingerprint: Fingerprint,
    dep_text: String,
    text: String,
    glibc: Option<String>,
    files: UnitFiles,
    restored: Restored,
    host_arch: RustcTargetPlatform,
)
    requires
        one_depends_on_restored(
            dep,
            unit,
            dep_fingerprint,
            fingerprint,
            files,
            restored,
            host_arch,
        ),
    ensures
        ({
            let start = save_laws::initial(seq![dep, unit], restored, host_arch);
            let events = restored_first(
                unit,
                dep_fingerprint,
                fingerprint,
                dep_text,
                text,
                glibc,
                files,
                restored,
            );
            let (end, phase) = save_laws::after(start, session::PhaseView::Idle, events);
            &&& phase == session::PhaseView::Finished
            &&& end.progress == one_uploaded(files, restored)
            &&& asked(start, session::PhaseView::Idle, events) == (Asked {
                rewrites: seq![
                    step_of(dep.src_path, dep_fingerprint),
                    step_of(unit.saved_src_path(), fingerprint),
                ],
                renders: seq![dep_fingerprint.hash, fingerprint.hash],
                submits: seq![request_of(unit, 1, host_arch, glibc, text, files)],
            })
        }),
{
    let start = save_laws::initial(seq![dep, unit], restored, host_arch);
    let idle = session::PhaseView::Idle;
    let state = scanned(dep, unit, dep_fingerprint, fingerprint, restored, host_arch);
    lemma_scanning(dep, unit, dep_fingerprint, fingerprint, restored, host_arch);

    let none = fingerprint::Walk { done: state.rewritten, steps: Seq::empty() };
    lemma_walk_alone(dep.src_path, state.inputs, dep_fingerprint, none, Set::empty());
    let dep_walk = fingerprint::planned_walk(
        dep.src_path,
        state.inputs,
        state.rewritten,
        dep_fingerprint,
    ).0;
    lemma_passing(state, 0, dep_fingerprint, dep_text, dep_walk);

    let middle = passed(state, dep_walk.steps);
    let hashes = hashes_of(dep_walk.steps);
    assert(hashes =~= seq![dep_fingerprint.hash]);
    assert(hashes[0] == dep_fingerprint.hash);
    assert(middle.rewritten.contains(dep_fingerprint.hash));
    assert(!middle.rewritten.contains(fingerprint.hash));
    lemma_walk_pair(
        unit.saved_src_path(),
        dep.src_path,
        middle.inputs,
        middle.rewritten,
        fingerprint,
        dep_fingerprint,
    );
    let walk = fingerprint::planned_walk(
        unit.saved_src_path(),
        middle.inputs,
        middle.rewritten,
        fingerprint,
    ).0;
    lemma_saving(middle, 1, glibc, fingerprint, text, files, walk);

    let scan = scanning(dep_fingerprint, fingerprint);
    let pass = passing(dep_fingerprint, dep_text);
    let save = saving(unit, glibc, fingerprint, text, files, restored);
    let submit = seq![SaveEvent::Submitted];
    lemma_cat(start, idle, scan, pass);
    lemma_cat(start, idle, scan + pass, save);
    lemma_cat(start, idle, scan + pass + save, submit);
    let (before, waiting) = save_laws::after(start, idle, scan + pass + save);
    assert(waiting == session::PhaseView::Submitting);
    lemma_submitted(before);
    lemma_push(before, waiting, Seq::<SaveEvent>::empty(), SaveEvent::Submitted);
    assert(asked(start, idle, scan + pass + save + submit) =~= Asked {
        rewrites: seq![
            step_of(dep.src_path, dep_fingerprint),
            step_of(unit.saved_src_path(), fingerprint),
        ],
        renders: seq![dep_fingerprint.hash, fingerprint.hash],
        submits: seq![request_of(unit, 1, host_arch, glibc, text, files)],
    });
}

/// A unit that came from the cache still supplies its rewritten fingerprint to a unit that
/// depends on it, where it comes last: the same fingerprints are rewritten in the same
/// order as where it comes first, and the request is the same but for the position of the
/// unit.
pub proof fn restored_unit_serves_an_earlier_one(
    dep: UnitPlan,
    unit: UnitPlan,
    dep_fingerprint: Fingerprint,
    fingerprint: Fingerprint,
    dep_text: String,
    text: String,
    glibc: Option<String>,
    files: UnitFiles,
    restored: Restored,
    host_arch: RustcTargetPlatform,
)
    requires
        one_depends_on_restored(
            dep,
            unit,
            dep_fingerprint,
            fingerprint,
            files,
            restored,
            host_arch,
        ),
    ensures
        ({
            let start = save_laws::initial(seq![unit, dep], restored, host_arch);
            let events = restored_last(
                unit,
                dep_fingerprint,
                fingerprint,
                dep_text,
                text,
                glibc,
                files,
                restored,
            );
            let (end, phase) = save_laws::after(start, session::PhaseView::Idle, events);
            &&& phase == session::PhaseView::Finished
            &&& end.progress == one_uploaded(files, restored)
            &&& asked(start, session::PhaseView::Idle, events) == (Asked {
                rewrites: seq![
                    step_of(dep.src_path, dep_fingerprint),
                    step_of(unit.saved_src_path(), fingerprint),
                ],
                renders: seq![fingerprint.hash, dep_fingerprint.hash],
                submits: seq![request_of(unit, 0, host_arch, glibc, text, files)],
            })
        }),
{
    let start = save_laws::initial(seq![unit, dep], restored, host_arch);
    let idle = session::PhaseView::Idle;
    let state = scanned(unit, dep, fingerprint, dep_fingerprint, restored, host_arch);
    lemma_scanning(unit, dep, fingerprint, dep_fingerprint, restored, host_arch);

    lemma_walk_pair(
        unit.saved_src_path(),
        dep.src_path,
        state.inputs,
        state.rewritten,
        fingerprint,
        dep_fingerprint,
    );
    let walk = fingerprint::planned_walk(
        unit.saved_src_path(),
        state.inputs,
        state.rewritten,
        fingerprint,
    ).0;
    lemma_saving(state, 0, glibc, fingerprint, text, files, walk);

    let request = request_of(unit, 0, host_arch, glibc, text, files);
    let middle = counted(state, walk.steps, files).with_request(request);
    assert(hashes_of(walk.steps)[0] == dep_fingerprint.hash);
    assert(middle.rewritten.contains(dep_fingerprint.hash));
    let none = fingerprint::Walk { done: middle.rewritten, steps: Seq::empty() };
    lemma_walk_alone(dep.src_path, middle.inputs, dep_fingerprint, none, Set::empty());
    lemma_passing(middle, 1, dep_fingerprint, dep_text, none);

    let scan = scanning(fingerprint, dep_fingerprint);
    let pass = passing(dep_fingerprint, dep_text);
    let save = saving(unit, glibc, fingerprint, text, files, restored);
    let submit = seq![SaveEvent::Submitted];
    lemma_cat(start, idle, scan, save);
    lemma_cat(start, idle, scan + save, pass);
    lemma_cat(start, idle, scan + save + pass, submit);
    let (before, waiting) = save_laws::after(start, idle, scan + save + pass);
    assert(waiting == session::PhaseView::Submitting);
    lemma_submitted(before);
    lemma_push(before, waiting, Seq::<SaveEvent>::empty(), SaveEvent::Submitted);
    assert(asked(start, idle, scan + save + pass + submit) =~= Asked {
        rewrites: seq![
            step_of(dep.src_path, dep_fingerprint),
            step_of(unit.saved_src_path(), fingerprint),
        ],
        renders: seq![fingerprint.hash, dep_fingerprint.hash],
        submits: seq![request],
    });
}

/// What was rewritten stays rewritten, whatever happens.
pub proof fn rewritten_fingerprints_stay_rewritten(
    state: session::SaveStateView,
    phase: session::PhaseView,
    events: Seq<SaveEvent>,
)
    ensures
        state.rewritten.subset_of(save_laws::after(state, phase, events).0.rewritten),
    decreases events.len(),
{
    if events.len() > 0 {
        reveal(save_laws::step);
        rewritten_fingerprints_stay_rewritten(state, phase, events.drop_last());
        let (before, waiting) = save_laws::after(state, phase, events.drop_last());
        let next = session::next(before, waiting, events.last());
        assert(before.rewritten.subset_of(next.state.rewritten));
    }
}

} // verus!
