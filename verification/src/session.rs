//! The course of saving the units of a build, one event at a time.
//!
//! Reading files, rewriting fingerprints and talking to the cache happen elsewhere. A
//! [`SaveSession`] decides what happens next: it takes an event, the answer to the last
//! action, and gives the next action.
use vstd::prelude::*;

use std::collections::{HashMap, HashSet};

use crate::fingerprint;
use crate::fingerprint::{
    Fingerprint, FingerprintRewriteInput, QualifiedPath, RewriteError, RewriteStep,
};
use crate::save;
use crate::save::{Blob, Restored, SaveProgress, SaveUnitRequest, UnitFiles, UnitKind};
use crate::target::{RustcTarget, RustcTargetPlatform};
use crate::text;

verus! {

broadcast use vstd::std_specs::hash::group_hash_axioms;

/// A unit of the build that may be saved.
#[derive(Debug)]
pub struct UnitPlan {
    pub kind: UnitKind,
    pub unit_hash: String,
    pub target_arch: RustcTarget,
    /// Whether the platform that the unit is compiled for uses glibc.
    pub uses_glibc: bool,
    /// The source file, where the unit has one.
    pub src_path: Option<QualifiedPath>,
}

impl UnitPlan {
    /// The source path under which the fingerprint of the unit is saved: running a build
    /// script has none.
    pub open spec fn saved_src_path(self) -> Option<QualifiedPath> {
        if self.kind == UnitKind::BuildScriptExecution {
            None
        } else {
            self.src_path
        }
    }
}

/// What a fingerprint is rewritten for.
#[derive(Debug)]
pub enum Purpose {
    /// Other units depend on it. Its own unit came from the cache.
    Dependents,
    /// Its own unit is saved, built for this version of glibc.
    Saving(Option<String>),
}

/// What the session waits for. A position `at` counts the units that have their
/// fingerprint files, a position `unit` all units of the build.
#[derive(Debug)]
pub enum Phase {
    /// The start.
    Idle,
    /// Whether the fingerprint files of the unit exist.
    CheckingFiles { unit: usize },
    /// The fingerprint of the unit.
    Scanning { unit: usize },
    /// The word that the progress was reported, after a unit that came from the cache
    /// was taken off the total.
    ReportingRestored { at: usize },
    /// The fingerprint of a unit that came from the cache.
    ReadingRestored { at: usize },
    /// The version of glibc on the host.
    AskingGlibc { at: usize },
    /// The files of the unit.
    ReadingFiles { at: usize, glibc: Option<String> },
    /// The word that the fingerprints with these hashes were rewritten. What `outcome`
    /// says holds after that.
    Rewriting {
        at: usize,
        purpose: Purpose,
        root: u64,
        hashes: Vec<u64>,
        outcome: Result<(), RewriteError>,
    },
    /// The text of the rewritten fingerprint.
    Rendering { at: usize, purpose: Purpose },
    /// The files of the unit, ready to be stored.
    Preparing { at: usize, glibc: Option<String>, fingerprint: String },
    /// The word that the objects of the unit were stored.
    Storing { at: usize, request: SaveUnitRequest },
    /// The word that the unit was encoded for the cache.
    Encoding { at: usize, request: SaveUnitRequest },
    /// The word that the progress was reported, after the unit was dealt with.
    Reporting { at: usize },
    /// The word that the requests were submitted.
    Submitting,
    /// Nothing: all units were saved.
    Finished,
    /// Nothing: saving failed.
    Failed,
}

/// What a [`Phase`] stands for.
pub enum PhaseView {
    Idle,
    CheckingFiles { unit: usize },
    Scanning { unit: usize },
    ReportingRestored { at: usize },
    ReadingRestored { at: usize },
    AskingGlibc { at: usize },
    ReadingFiles { at: usize, glibc: Option<String> },
    Rewriting {
        at: usize,
        purpose: Purpose,
        root: u64,
        hashes: Seq<u64>,
        stop: Option<fingerprint::RewriteErrorView>,
    },
    Rendering { at: usize, purpose: Purpose },
    Preparing { at: usize, glibc: Option<String>, fingerprint: String },
    Storing { at: usize, request: save::SaveUnitRequestView },
    Encoding { at: usize, request: save::SaveUnitRequestView },
    Reporting { at: usize },
    Submitting,
    Finished,
    Failed,
}

/// Why a rewriting stops short, if it does.
pub open spec fn stop_of(outcome: Result<(), RewriteError>) -> Option<
    fingerprint::RewriteErrorView,
> {
    match outcome {
        Ok(_) => None,
        Err(error) => Some(error@),
    }
}

impl View for Phase {
    type V = PhaseView;

    open spec fn view(&self) -> PhaseView {
        match *self {
            Phase::Idle => PhaseView::Idle,
            Phase::CheckingFiles { unit } => PhaseView::CheckingFiles { unit },
            Phase::Scanning { unit } => PhaseView::Scanning { unit },
            Phase::ReportingRestored { at } => PhaseView::ReportingRestored { at },
            Phase::ReadingRestored { at } => PhaseView::ReadingRestored { at },
            Phase::AskingGlibc { at } => PhaseView::AskingGlibc { at },
            Phase::ReadingFiles { at, glibc } => PhaseView::ReadingFiles { at, glibc },
            Phase::Rewriting { at, purpose, root, hashes, outcome } => PhaseView::Rewriting {
                at,
                purpose,
                root,
                hashes: hashes@,
                stop: stop_of(outcome),
            },
            Phase::Rendering { at, purpose } => PhaseView::Rendering { at, purpose },
            Phase::Preparing { at, glibc, fingerprint } => PhaseView::Preparing {
                at,
                glibc,
                fingerprint,
            },
            Phase::Storing { at, request } => PhaseView::Storing { at, request: request@ },
            Phase::Encoding { at, request } => PhaseView::Encoding { at, request: request@ },
            Phase::Reporting { at } => PhaseView::Reporting { at },
            Phase::Submitting => PhaseView::Submitting,
            Phase::Finished => PhaseView::Finished,
            Phase::Failed => PhaseView::Failed,
        }
    }
}

/// What a session has to know besides what it waits for.
#[derive(Debug)]
pub struct SaveState {
    /// The units of the build.
    pub units: Vec<UnitPlan>,
    /// What the cache gave to this build.
    pub restored: Restored,
    /// The platform that the build runs on.
    pub host_arch: RustcTargetPlatform,
    /// The fingerprints of the units, by their hash.
    pub inputs: HashMap<u64, FingerprintRewriteInput>,
    /// The hashes of the fingerprints that were rewritten.
    pub rewritten: HashSet<u64>,
    /// The units that have their fingerprint files.
    pub to_save: Vec<usize>,
    pub progress: SaveProgress,
    /// The requests for the units that were saved.
    pub requests: Vec<SaveUnitRequest>,
}

/// What a [`SaveState`] stands for.
pub struct SaveStateView {
    pub units: Seq<UnitPlan>,
    pub restored: Restored,
    pub host_arch: RustcTargetPlatform,
    pub inputs: Map<u64, FingerprintRewriteInput>,
    pub rewritten: Set<u64>,
    pub to_save: Seq<usize>,
    pub progress: SaveProgress,
    pub requests: Seq<save::SaveUnitRequestView>,
}

impl View for SaveState {
    type V = SaveStateView;

    open spec fn view(&self) -> SaveStateView {
        SaveStateView {
            units: self.units@,
            restored: self.restored,
            host_arch: self.host_arch,
            inputs: self.inputs@,
            rewritten: self.rewritten@,
            to_save: self.to_save@,
            progress: self.progress,
            requests: save::requests_view(self.requests@),
        }
    }
}

/// What happened: the answer to the last action.
#[derive(Debug)]
pub enum SaveEvent {
    /// Saving begins.
    Begin,
    /// Which of the two fingerprint files of the unit exist.
    FingerprintFiles { json: bool, hash: bool },
    /// The fingerprint of the unit was read.
    FingerprintRead(Fingerprint),
    /// The progress was reported.
    Reported,
    /// The version of glibc on the host.
    HostGlibc(Option<String>),
    /// The files of the unit were read, this fingerprint among them.
    UnitFilesRead(Fingerprint),
    /// The files of the unit could not be read. The report tells why.
    UnitFilesFailed(String),
    /// All steps of the rewriting were done.
    Rewritten,
    /// So many steps of the rewriting were done, and the next one failed. The report
    /// tells why.
    RewriteFailed { done: usize, report: String },
    /// The text of the rewritten fingerprint.
    FingerprintText(String),
    /// The files of the unit, ready to be stored.
    FilesPrepared(UnitFiles),
    /// The objects were stored.
    Stored,
    /// The unit was encoded for the cache.
    Encoded,
    /// The requests were submitted.
    Submitted,
}

/// What to do next.
#[derive(Debug)]
pub enum SaveAction {
    /// Look whether the fingerprint files of the unit exist.
    CheckFingerprintFiles { unit: usize },
    /// Read the fingerprint of the unit.
    ReadFingerprint { unit: usize },
    /// Report the progress.
    Report(SaveProgress),
    /// Find the version of glibc on the host.
    AskHostGlibc,
    /// Read the files of the unit.
    ReadUnitFiles { unit: usize },
    /// Rewrite these fingerprints, in this order.
    Rewrite(Vec<RewriteStep>),
    /// Give the text of the rewritten fingerprint that had this hash.
    RenderFingerprint { hash: u64 },
    /// Make the files of the unit ready to be stored.
    PrepareFiles { unit: usize },
    /// Store these objects.
    Store(Vec<Blob>),
    /// Encode the unit for the cache.
    EncodeUnit { unit: usize },
    /// Submit the requests.
    Submit(Vec<SaveUnitRequest>),
    /// Stop: all units were saved.
    Finish,
    /// Stop: saving failed for this reason.
    Fail(RewriteError),
    /// Stop: saving failed for the reason that was just reported.
    Abort,
    /// Nothing: the event does not answer the last action.
    Ignore,
}

/// What a [`SaveAction`] stands for.
pub enum SaveActionView {
    CheckFingerprintFiles { unit: usize },
    ReadFingerprint { unit: usize },
    Report(SaveProgress),
    AskHostGlibc,
    ReadUnitFiles { unit: usize },
    Rewrite(Seq<fingerprint::RewriteStepView>),
    RenderFingerprint { hash: u64 },
    PrepareFiles { unit: usize },
    Store(Seq<Blob>),
    EncodeUnit { unit: usize },
    Submit(Seq<save::SaveUnitRequestView>),
    Finish,
    Fail(fingerprint::RewriteErrorView),
    Abort,
    Ignore,
}

impl View for SaveAction {
    type V = SaveActionView;

    open spec fn view(&self) -> SaveActionView {
        match *self {
            SaveAction::CheckFingerprintFiles { unit } => SaveActionView::CheckFingerprintFiles {
                unit,
            },
            SaveAction::ReadFingerprint { unit } => SaveActionView::ReadFingerprint { unit },
            SaveAction::Report(progress) => SaveActionView::Report(progress),
            SaveAction::AskHostGlibc => SaveActionView::AskHostGlibc,
            SaveAction::ReadUnitFiles { unit } => SaveActionView::ReadUnitFiles { unit },
            SaveAction::Rewrite(steps) => SaveActionView::Rewrite(fingerprint::steps_view(steps@)),
            SaveAction::RenderFingerprint { hash } => SaveActionView::RenderFingerprint { hash },
            SaveAction::PrepareFiles { unit } => SaveActionView::PrepareFiles { unit },
            SaveAction::Store(blobs) => SaveActionView::Store(blobs@),
            SaveAction::EncodeUnit { unit } => SaveActionView::EncodeUnit { unit },
            SaveAction::Submit(requests) => SaveActionView::Submit(save::requests_view(requests@)),
            SaveAction::Finish => SaveActionView::Finish,
            SaveAction::Fail(error) => SaveActionView::Fail(error@),
            SaveAction::Abort => SaveActionView::Abort,
            SaveAction::Ignore => SaveActionView::Ignore,
        }
    }
}

/// What a step leads to.
pub struct Next {
    pub state: SaveStateView,
    pub phase: PhaseView,
    pub action: SaveActionView,
}

/// The report tells that a fingerprint was missing that another one depends on.
pub open spec fn missing_dependency(report: Seq<char>) -> bool {
    text::occurs(report, "dependency fingerprint hash not found"@)
}

/// The report tells that a file was missing.
pub open spec fn missing_file(report: Seq<char>) -> bool {
    text::occurs(report, "No such file or directory"@)
}

/// Whether the report tells that a fingerprint was missing that another one depends on.
pub fn is_missing_dependency_fingerprint(report: &str) -> (result: bool)
    ensures
        result == missing_dependency(report@),
{
    text::contains(report, "dependency fingerprint hash not found")
}

/// Whether the report tells that a file was missing.
pub fn is_missing_unit_file(report: &str) -> (result: bool)
    ensures
        result == missing_file(report@),
{
    text::contains(report, "No such file or directory")
}

/// Whether both fingerprint files of a unit exist.
pub fn has_fingerprint_files(json: bool, hash: bool) -> (result: bool)
    ensures
        result == (json && hash),
{
    json && hash
}

/// Goes on after the rewriting of a fingerprint: `true` if it was rewritten, `false` if
/// it was not for want of a fingerprint it depends on, which only keeps its unit from
/// being saved. Any other error stands.
pub fn rewrite_fingerprint_for_save(outcome: Result<(), RewriteError>) -> (result: Result<
    bool,
    RewriteError,
>)
    ensures
        match outcome {
            Ok(_) => result == Ok::<bool, RewriteError>(true),
            Err(error) => if missing_dependency(error@.message()) {
                result == Ok::<bool, RewriteError>(false)
            } else {
                result == Err::<bool, _>(error)
            },
        },
{
    match outcome {
        Ok(_) => Ok(true),
        Err(error) => {
            let message = error.message();
            if is_missing_dependency_fingerprint(message.as_str()) {
                Ok(false)
            } else {
                Err(error)
            }
        },
    }
}

impl SaveStateView {
    /// The unit at position `at` among those that have their fingerprint files.
    pub open spec fn unit_at(self, at: usize) -> UnitPlan {
        self.units[self.to_save[at as int] as int]
    }

    /// The platform that the unit at this position is compiled for.
    pub open spec fn arch_at(self, at: usize) -> RustcTargetPlatform {
        self.unit_at(at).target_arch.resolved(self.host_arch)
    }

    /// One unit less will be uploaded.
    pub open spec fn without_unit(self) -> Self {
        SaveStateView {
            progress: SaveProgress {
                total_units: (self.progress.total_units - 1) as u64,
                ..self.progress
            },
            ..self
        }
    }

    /// The fingerprints with these hashes were rewritten.
    pub open spec fn with_rewritten(self, hashes: Seq<u64>) -> Self {
        SaveStateView { rewritten: self.rewritten.union(hashes.to_set()), ..self }
    }

    /// The request joins the others, and its unit counts as uploaded.
    pub open spec fn with_request(self, request: save::SaveUnitRequestView) -> Self {
        SaveStateView {
            requests: self.requests.push(request),
            progress: SaveProgress {
                uploaded_units: (self.progress.uploaded_units + 1) as u64,
                ..self.progress
            },
            ..self
        }
    }
}

/// Looking at the units goes on with `unit`. After the last one, saving begins with all
/// units that have their fingerprint files.
pub open spec fn scan_from(state: SaveStateView, unit: usize) -> Next {
    if unit < state.units.len() {
        Next {
            state,
            phase: PhaseView::CheckingFiles { unit },
            action: SaveActionView::CheckFingerprintFiles { unit },
        }
    } else {
        save_from(
            SaveStateView {
                progress: SaveProgress {
                    uploaded_units: 0,
                    total_units: state.to_save.len() as u64,
                    uploaded_files: 0,
                    uploaded_bytes: 0,
                },
                ..state
            },
            0,
        )
    }
}

/// Saving goes on with the unit at position `at`, or with the requests after the last
/// unit.
///
/// A unit that came from the cache is not saved again. A unit for a platform with glibc
/// is saved only if it is the platform of the host, together with the version there.
pub open spec fn save_from(state: SaveStateView, at: usize) -> Next {
    if at >= state.to_save.len() {
        Next {
            state: SaveStateView { requests: Seq::empty(), ..state },
            phase: PhaseView::Submitting,
            action: SaveActionView::Submit(state.requests),
        }
    } else if state.restored.has_unit(state.unit_at(at).unit_hash@) {
        let state = state.without_unit();
        Next {
            state,
            phase: PhaseView::ReportingRestored { at },
            action: SaveActionView::Report(state.progress),
        }
    } else if !state.unit_at(at).uses_glibc {
        Next {
            state,
            phase: PhaseView::ReadingFiles { at, glibc: None },
            action: SaveActionView::ReadUnitFiles { unit: state.to_save[at as int] },
        }
    } else if !state.arch_at(at).is_same(state.host_arch) {
        skip_unit(state, at)
    } else {
        Next { state, phase: PhaseView::AskingGlibc { at }, action: SaveActionView::AskHostGlibc }
    }
}

/// The unit at position `at` is not saved.
pub open spec fn skip_unit(state: SaveStateView, at: usize) -> Next {
    let state = state.without_unit();
    Next { state, phase: PhaseView::Reporting { at }, action: SaveActionView::Report(state.progress) }
}

/// The fingerprint of the unit at position `at` is to be rewritten.
pub open spec fn rewrite_unit(
    state: SaveStateView,
    at: usize,
    purpose: Purpose,
    src_path: Option<QualifiedPath>,
    fingerprint: Fingerprint,
) -> Next {
    let (walk, stop) = fingerprint::planned_walk(
        src_path,
        state.inputs,
        state.rewritten,
        fingerprint,
    );
    Next {
        state,
        phase: PhaseView::Rewriting {
            at,
            purpose,
            root: fingerprint.hash,
            hashes: walk.steps.map_values(|step: fingerprint::RewriteStepView| step.hash),
            stop,
        },
        action: SaveActionView::Rewrite(walk.steps),
    }
}

/// A fingerprint could not be rewritten for want of one that it depends on: its unit is
/// not saved.
pub open spec fn give_up_unit(state: SaveStateView, at: usize, purpose: Purpose) -> Next {
    match purpose {
        Purpose::Dependents => save_from(state, (at + 1) as usize),
        Purpose::Saving(_) => skip_unit(state, at),
    }
}

/// Saving failed.
pub open spec fn fail(state: SaveStateView, action: SaveActionView) -> Next {
    Next { state, phase: PhaseView::Failed, action }
}

/// The files are those of a unit of this kind.
pub open spec fn files_fit(kind: UnitKind, files: UnitFiles) -> bool {
    match files {
        UnitFiles::LibraryCrate { .. } => kind == UnitKind::LibraryCrate,
        UnitFiles::BuildScriptCompilation { .. } => kind == UnitKind::BuildScriptCompilation,
        UnitFiles::BuildScriptExecution { .. } => kind == UnitKind::BuildScriptExecution,
    }
}

/// The files of the unit at position `at` are ready: what did not come from the cache is
/// to be stored.
pub open spec fn store_unit(
    state: SaveStateView,
    at: usize,
    glibc: Option<String>,
    fingerprint: String,
    files: UnitFiles,
) -> Next {
    let uploads = save::new_objects(save::unit_objects(files), state.restored);
    let request = save::SaveUnitRequestView {
        unit: state.to_save[at as int],
        saved: save::saved_unit(files, fingerprint),
        resolved_target: state.arch_at(at).triple(),
        linux_glibc_version: glibc,
    };
    let state = SaveStateView { progress: save::with_uploads(state.progress, uploads), ..state };
    if uploads.len() == 0 {
        encode_unit(state, at, request)
    } else {
        Next {
            state,
            phase: PhaseView::Storing { at, request },
            action: SaveActionView::Store(uploads),
        }
    }
}

/// The unit at position `at` is to be encoded.
pub open spec fn encode_unit(
    state: SaveStateView,
    at: usize,
    request: save::SaveUnitRequestView,
) -> Next {
    Next {
        state,
        phase: PhaseView::Encoding { at, request },
        action: SaveActionView::EncodeUnit { unit: state.to_save[at as int] },
    }
}

/// What follows when `event` happens while the session waits for `phase`.
pub open spec fn next(state: SaveStateView, phase: PhaseView, event: SaveEvent) -> Next {
    match (phase, event) {
        (PhaseView::Idle, SaveEvent::Begin) => scan_from(state, 0),
        (PhaseView::CheckingFiles { unit }, SaveEvent::FingerprintFiles { json, hash }) => {
            if json && hash {
                Next {
                    state,
                    phase: PhaseView::Scanning { unit },
                    action: SaveActionView::ReadFingerprint { unit },
                }
            } else {
                scan_from(state, (unit + 1) as usize)
            }
        },
        (PhaseView::Scanning { unit }, SaveEvent::FingerprintRead(fingerprint)) => scan_from(
            SaveStateView {
                inputs: state.inputs.insert(
                    fingerprint.hash,
                    FingerprintRewriteInput {
                        src_path: state.units[unit as int].src_path,
                        fingerprint,
                    },
                ),
                to_save: state.to_save.push(unit),
                ..state
            },
            (unit + 1) as usize,
        ),
        (PhaseView::ReportingRestored { at }, SaveEvent::Reported) => Next {
            state,
            phase: PhaseView::ReadingRestored { at },
            action: SaveActionView::ReadFingerprint { unit: state.to_save[at as int] },
        },
        (PhaseView::ReadingRestored { at }, SaveEvent::FingerprintRead(fingerprint)) =>
            rewrite_unit(
            state,
            at,
            Purpose::Dependents,
            state.unit_at(at).src_path,
            fingerprint,
        ),
        (PhaseView::AskingGlibc { at }, SaveEvent::HostGlibc(glibc)) => Next {
            state,
            phase: PhaseView::ReadingFiles { at, glibc },
            action: SaveActionView::ReadUnitFiles { unit: state.to_save[at as int] },
        },
        (PhaseView::ReadingFiles { at, glibc }, SaveEvent::UnitFilesRead(fingerprint)) =>
            rewrite_unit(
            state,
            at,
            Purpose::Saving(glibc),
            state.unit_at(at).saved_src_path(),
            fingerprint,
        ),
        (PhaseView::ReadingFiles { at, .. }, SaveEvent::UnitFilesFailed(report)) => {
            if missing_file(report@) {
                skip_unit(state, at)
            } else {
                fail(state, SaveActionView::Abort)
            }
        },
        (
            PhaseView::Rewriting { at, purpose, root, hashes, stop },
            SaveEvent::Rewritten,
        ) => {
            let state = state.with_rewritten(hashes);
            match stop {
                None => Next {
                    state,
                    phase: PhaseView::Rendering { at, purpose },
                    action: SaveActionView::RenderFingerprint { hash: root },
                },
                Some(error) => if missing_dependency(error.message()) {
                    give_up_unit(state, at, purpose)
                } else {
                    fail(state, SaveActionView::Fail(error))
                },
            }
        },
        (
            PhaseView::Rewriting { at, purpose, hashes, .. },
            SaveEvent::RewriteFailed { done, report },
        ) => {
            let state = state.with_rewritten(
                if done < hashes.len() {
                    hashes.subrange(0, done as int)
                } else {
                    hashes
                },
            );
            if missing_dependency(report@) {
                give_up_unit(state, at, purpose)
            } else {
                fail(state, SaveActionView::Abort)
            }
        },
        (PhaseView::Rendering { at, purpose }, SaveEvent::FingerprintText(fingerprint)) => {
            match purpose {
                Purpose::Dependents => save_from(state, (at + 1) as usize),
                Purpose::Saving(glibc) => Next {
                    state,
                    phase: PhaseView::Preparing { at, glibc, fingerprint },
                    action: SaveActionView::PrepareFiles { unit: state.to_save[at as int] },
                },
            }
        },
        (
            PhaseView::Preparing { at, glibc, fingerprint },
            SaveEvent::FilesPrepared(files),
        ) => {
            if files_fit(state.unit_at(at).kind, files) {
                store_unit(state, at, glibc, fingerprint, files)
            } else {
                Next { state, phase, action: SaveActionView::Ignore }
            }
        },
        (PhaseView::Storing { at, request }, SaveEvent::Stored) => encode_unit(state, at, request),
        (PhaseView::Encoding { at, request }, SaveEvent::Encoded) => {
            let state = state.with_request(request);
            Next {
                state,
                phase: PhaseView::Reporting { at },
                action: SaveActionView::Report(state.progress),
            }
        },
        (PhaseView::Reporting { at }, SaveEvent::Reported) => save_from(state, (at + 1) as usize),
        (PhaseView::Submitting, SaveEvent::Submitted) => Next {
            state,
            phase: PhaseView::Finished,
            action: SaveActionView::Finish,
        },
        _ => Next { state, phase, action: SaveActionView::Ignore },
    }
}

/// The progress counters can take what the event brings.
pub open spec fn event_fits(state: SaveStateView, phase: PhaseView, event: SaveEvent) -> bool {
    match (phase, event) {
        (PhaseView::Preparing { .. }, SaveEvent::FilesPrepared(files)) => save::counters_fit(
            state.progress,
            save::new_objects(save::unit_objects(files), state.restored),
        ),
        _ => true,
    }
}

/// The unit at position `at` may be saved with this version of glibc: it did not come
/// from the cache, and if its platform uses glibc, it is the platform of the host.
/// Without glibc there is no version of it.
pub open spec fn may_save(state: SaveStateView, at: usize, glibc: Option<String>) -> bool {
    &&& !state.restored.has_unit(state.unit_at(at).unit_hash@)
    &&& if state.unit_at(at).uses_glibc {
        state.arch_at(at).is_same(state.host_arch)
    } else {
        glibc is None
    }
}

/// What was saved is a unit of this kind.
pub open spec fn saved_fits(kind: UnitKind, saved: save::SavedUnitView) -> bool {
    match saved {
        save::SavedUnitView::LibraryCrate { .. } => kind == UnitKind::LibraryCrate,
        save::SavedUnitView::BuildScriptCompilation { .. } => kind
            == UnitKind::BuildScriptCompilation,
        save::SavedUnitView::BuildScriptExecution { .. } => kind == UnitKind::BuildScriptExecution,
    }
}

/// The request is one for the unit at position `at`, which may be saved.
pub open spec fn request_for(
    state: SaveStateView,
    at: usize,
    request: save::SaveUnitRequestView,
) -> bool {
    &&& at < state.to_save.len()
    &&& request.unit == state.to_save[at as int]
    &&& request.resolved_target == state.arch_at(at).triple()
    &&& saved_fits(state.unit_at(at).kind, request.saved)
    &&& may_save(state, at, request.linux_glibc_version)
}

/// The request is one for a unit before position `end`, which may be saved.
pub open spec fn request_before(
    state: SaveStateView,
    end: int,
    request: save::SaveUnitRequestView,
) -> bool {
    exists|at: usize| at < end && #[trigger] request_for(state, at, request)
}

/// The requests are for units that may be saved, each for another one, in the order of
/// the units, and for no unit from position `end` on.
pub open spec fn requests_sound(
    state: SaveStateView,
    requests: Seq<save::SaveUnitRequestView>,
    end: int,
) -> bool {
    &&& forall|k: int|
        0 <= k < requests.len() ==> request_before(state, end, #[trigger] requests[k])
    &&& forall|j: int, k: int|
        0 <= j < k < requests.len() ==> (#[trigger] requests[j]).unit < (#[trigger] requests[k]).unit
}

/// The units in `to_save` are units of the build, in their order.
pub open spec fn units_sound(state: SaveStateView) -> bool {
    &&& forall|i: int|
        0 <= i < state.to_save.len() ==> (#[trigger] state.to_save[i]) < state.units.len()
    &&& forall|i: int, j: int|
        0 <= i < j < state.to_save.len() ==> (#[trigger] state.to_save[i]) < (
        #[trigger] state.to_save[j])
    &&& state.to_save.len() <= state.units.len() <= usize::MAX
    &&& fingerprint::filed_by_hash(state.inputs)
    &&& state.inputs.dom().finite()
}

/// The units before position `at` have been dealt with: the uploaded ones have their
/// requests, and the total counts these and the units from `at` on.
pub open spec fn settled_up_to(state: SaveStateView, at: int) -> bool {
    &&& units_sound(state)
    &&& 0 <= at <= state.to_save.len()
    &&& state.progress.uploaded_units == state.requests.len()
    &&& state.progress.total_units == state.progress.uploaded_units + (state.to_save.len() - at)
    &&& requests_sound(state, state.requests, at)
}

/// The session is at work on the unit at position `at`, which may be saved with this
/// version of glibc.
pub open spec fn at_work(state: SaveStateView, at: usize, glibc: Option<String>) -> bool {
    &&& at < state.to_save.len()
    &&& settled_up_to(state, at as int)
    &&& may_save(state, at, glibc)
}

/// The unit at position `at` has been dealt with.
pub open spec fn past_unit(state: SaveStateView, at: usize) -> bool {
    &&& at < state.to_save.len()
    &&& settled_up_to(state, at + 1)
}

/// What holds of the state while the session waits for `phase`.
pub open spec fn consistent(state: SaveStateView, phase: PhaseView) -> bool {
    match phase {
        PhaseView::Idle => {
            &&& units_sound(state)
            &&& state.to_save.len() == 0
            &&& state.requests.len() == 0
            &&& state.progress.uploaded_units == 0
        },
        PhaseView::CheckingFiles { unit } | PhaseView::Scanning { unit } => {
            &&& units_sound(state)
            &&& unit < state.units.len()
            &&& forall|i: int| 0 <= i < state.to_save.len() ==> (#[trigger] state.to_save[i]) < unit
            &&& state.requests.len() == 0
            &&& state.progress.uploaded_units == 0
        },
        PhaseView::ReportingRestored { at }
        | PhaseView::ReadingRestored { at }
        | PhaseView::Reporting { at } => past_unit(state, at),
        PhaseView::AskingGlibc { at } => at_work(state, at, None) && state.unit_at(at).uses_glibc,
        PhaseView::ReadingFiles { at, glibc } => at_work(state, at, glibc),
        PhaseView::Rewriting { at, purpose, .. } | PhaseView::Rendering { at, purpose } => {
            match purpose {
                Purpose::Dependents => past_unit(state, at),
                Purpose::Saving(glibc) => at_work(state, at, glibc),
            }
        },
        PhaseView::Preparing { at, glibc, .. } => at_work(state, at, glibc),
        PhaseView::Storing { at, request } | PhaseView::Encoding { at, request } => {
            &&& at_work(state, at, request.linux_glibc_version)
            &&& request_for(state, at, request)
        },
        PhaseView::Submitting | PhaseView::Finished => {
            &&& units_sound(state)
            &&& state.progress.uploaded_units == state.progress.total_units
        },
        PhaseView::Failed => {
            &&& units_sound(state)
            &&& state.progress.uploaded_units <= state.progress.total_units
        },
    }
}

/// What is submitted, if anything, is what was requested when all units had been dealt
/// with.
pub open spec fn submits_settled(next: Next) -> bool {
    next.action matches SaveActionView::Submit(requests) ==> {
        &&& next.phase is Submitting
        &&& settled_up_to(
            SaveStateView { requests, ..next.state },
            next.state.to_save.len() as int,
        )
    }
}

/// What is known of the requests carries over to a state that only counts otherwise.
proof fn lemma_requests_carry_over(
    state: SaveStateView,
    other: SaveStateView,
    requests: Seq<save::SaveUnitRequestView>,
    end: int,
    other_end: int,
)
    requires
        requests_sound(state, requests, end),
        end <= other_end,
        other.units == state.units,
        other.restored == state.restored,
        other.host_arch == state.host_arch,
        other.to_save == state.to_save,
    ensures
        requests_sound(other, requests, other_end),
{
    assert forall|k: int| 0 <= k < requests.len() implies request_before(
        other,
        other_end,
        #[trigger] requests[k],
    ) by {
        assert(request_before(state, end, requests[k]));
        let at = choose|at: usize| at < end && #[trigger] request_for(state, at, requests[k]);
        assert(request_for(other, at, requests[k]));
    }
}

proof fn lemma_save_from_consistent(state: SaveStateView, at: usize)
    requires
        settled_up_to(state, at as int),
    ensures
        consistent(save_from(state, at).state, save_from(state, at).phase),
        submits_settled(save_from(state, at)),
{
    if at < state.to_save.len() {
        lemma_skip_consistent(state, at);
    } else {
        let next = save_from(state, at);
        assert(SaveStateView { requests: state.requests, ..next.state } == state);
    }
}

proof fn lemma_skip_consistent(state: SaveStateView, at: usize)
    requires
        settled_up_to(state, at as int),
        at < state.to_save.len(),
    ensures
        past_unit(state.without_unit(), at),
{
    lemma_requests_carry_over(state, state.without_unit(), state.requests, at as int, at + 1);
}

proof fn lemma_scan_from_consistent(state: SaveStateView, unit: usize)
    requires
        units_sound(state),
        unit <= state.units.len(),
        forall|i: int| 0 <= i < state.to_save.len() ==> (#[trigger] state.to_save[i]) < unit,
        state.requests.len() == 0,
        state.progress.uploaded_units == 0,
    ensures
        consistent(scan_from(state, unit).state, scan_from(state, unit).phase),
        submits_settled(scan_from(state, unit)),
{
    if unit >= state.units.len() {
        let begun = SaveStateView {
            progress: SaveProgress {
                uploaded_units: 0,
                total_units: state.to_save.len() as u64,
                uploaded_files: 0,
                uploaded_bytes: 0,
            },
            ..state
        };
        lemma_save_from_consistent(begun, 0);
    }
}

/// Rising numbers below a bound are no more than the bound.
pub proof fn lemma_increasing_len(list: Seq<usize>, bound: usize)
    requires
        forall|i: int| 0 <= i < list.len() ==> (#[trigger] list[i]) < bound,
        forall|i: int, j: int|
            0 <= i < j < list.len() ==> (#[trigger] list[i]) < (#[trigger] list[j]),
    ensures
        list.len() <= bound,
    decreases list.len(),
{
    if list.len() > 0 {
        let shorter = list.drop_last();
        assert forall|i: int| 0 <= i < shorter.len() implies (#[trigger] shorter[i])
            < list.last() by {
            assert(shorter[i] == list[i]);
        }
        lemma_increasing_len(shorter, list.last());
    }
}

/// The commit of rewritten hashes leaves the rest as it is.
proof fn lemma_rewritten_consistent(state: SaveStateView, hashes: Seq<u64>, at: int)
    requires
        settled_up_to(state, at),
    ensures
        settled_up_to(state.with_rewritten(hashes), at),
{
    lemma_requests_carry_over(state, state.with_rewritten(hashes), state.requests, at, at);
}

proof fn lemma_encoded_consistent(
    state: SaveStateView,
    at: usize,
    request: save::SaveUnitRequestView,
)
    requires
        at_work(state, at, request.linux_glibc_version),
        request_for(state, at, request),
    ensures
        past_unit(state.with_request(request), at),
{
    let with = state.with_request(request);
    lemma_requests_carry_over(state, with, state.requests, at as int, at + 1);
    assert forall|k: int| 0 <= k < with.requests.len() implies request_before(
        with,
        at + 1,
        #[trigger] with.requests[k],
    ) by {
        if k < state.requests.len() {
            assert(with.requests[k] == state.requests[k]);
            assert(request_before(with, at + 1, state.requests[k]));
        } else {
            assert(request_for(with, at, with.requests[k]));
        }
    }
    assert forall|j: int, k: int| 0 <= j < k < with.requests.len() implies (
    #[trigger] with.requests[j]).unit < (#[trigger] with.requests[k]).unit by {
        assert(with.requests[j] == state.requests[j]);
        if k == state.requests.len() {
            assert(request_before(state, at as int, state.requests[j]));
            let p = choose|p: usize| p < at && #[trigger] request_for(state, p, state.requests[j]);
            assert(state.to_save[p as int] < state.to_save[at as int]);
        } else {
            assert(with.requests[k] == state.requests[k]);
        }
    }
}

/// Every step leaves a consistent session consistent: the uploaded units are those with
/// a request, the total counts these and the units that are still to be dealt with, and
/// only units that may be saved are requested. The requests are submitted once all units
/// have been dealt with.
pub proof fn step_keeps_consistent(state: SaveStateView, phase: PhaseView, event: SaveEvent)
    requires
        consistent(state, phase),
    ensures
        consistent(next(state, phase, event).state, next(state, phase, event).phase),
        submits_settled(next(state, phase, event)),
        next(state, phase, event).state.units == state.units,
{
    match (phase, event) {
        (PhaseView::Idle, SaveEvent::Begin) => {
            lemma_scan_from_consistent(state, 0);
        },
        (PhaseView::CheckingFiles { unit }, SaveEvent::FingerprintFiles { json, hash }) => {
            if !(json && hash) {
                lemma_scan_from_consistent(state, (unit + 1) as usize);
            }
        },
        (PhaseView::Scanning { unit }, SaveEvent::FingerprintRead(fingerprint)) => {
            let scanned = SaveStateView {
                inputs: state.inputs.insert(
                    fingerprint.hash,
                    FingerprintRewriteInput {
                        src_path: state.units[unit as int].src_path,
                        fingerprint,
                    },
                ),
                to_save: state.to_save.push(unit),
                ..state
            };
            lemma_increasing_len(scanned.to_save, (unit + 1) as usize);
            lemma_scan_from_consistent(scanned, (unit + 1) as usize);
        },
        (PhaseView::ReadingFiles { at, .. }, SaveEvent::UnitFilesFailed(_)) => {
            lemma_skip_consistent(state, at);
        },
        (
            PhaseView::Rewriting { at, purpose, root, hashes, stop },
            SaveEvent::Rewritten,
        ) => {
            lemma_given_up_consistent(state, at, purpose, hashes);
        },
        (
            PhaseView::Rewriting { at, purpose, hashes, .. },
            SaveEvent::RewriteFailed { done, report },
        ) => {
            lemma_given_up_consistent(
                state,
                at,
                purpose,
                if done < hashes.len() {
                    hashes.subrange(0, done as int)
                } else {
                    hashes
                },
            );
        },
        (PhaseView::Rendering { at, purpose }, SaveEvent::FingerprintText(_)) => {
            if purpose is Dependents {
                lemma_save_from_consistent(state, (at + 1) as usize);
            }
        },
        (
            PhaseView::Preparing { at, glibc, fingerprint },
            SaveEvent::FilesPrepared(files),
        ) => {
            let uploads = save::new_objects(save::unit_objects(files), state.restored);
            let counted = SaveStateView {
                progress: save::with_uploads(state.progress, uploads),
                ..state
            };
            lemma_requests_carry_over(state, counted, state.requests, at as int, at as int);
        },
        (PhaseView::Encoding { at, request }, SaveEvent::Encoded) => {
            lemma_encoded_consistent(state, at, request);
        },
        (PhaseView::Reporting { at }, SaveEvent::Reported) => {
            lemma_save_from_consistent(state, (at + 1) as usize);
        },
        _ => {},
    }
}

/// Going on without a unit whose fingerprint could not be rewritten leaves a session
/// consistent, and so does the commit of what was rewritten.
pub proof fn lemma_given_up_consistent(
    state: SaveStateView,
    at: usize,
    purpose: Purpose,
    hashes: Seq<u64>,
)
    requires
        match purpose {
            Purpose::Dependents => past_unit(state, at),
            Purpose::Saving(glibc) => at_work(state, at, glibc),
        },
    ensures
        ({
            let state = state.with_rewritten(hashes);
            let next = give_up_unit(state, at, purpose);
            &&& consistent(next.state, next.phase)
            &&& submits_settled(next)
            &&& match purpose {
                Purpose::Dependents => past_unit(state, at),
                Purpose::Saving(glibc) => at_work(state, at, glibc),
            }
        }),
{
    let after = state.with_rewritten(hashes);
    match purpose {
        Purpose::Dependents => {
            lemma_rewritten_consistent(state, hashes, at + 1);
            lemma_save_from_consistent(after, (at + 1) as usize);
        },
        Purpose::Saving(glibc) => {
            lemma_rewritten_consistent(state, hashes, at as int);
            lemma_skip_consistent(after, at);
        },
    }
}

/// The step led to `next`.
spec fn leads_to(state: SaveState, result: (Phase, SaveAction), next: Next) -> bool {
    &&& state@ == next.state
    &&& result.0@ == next.phase
    &&& result.1@ == next.action
}

/// The hashes of the steps.
fn step_hashes(steps: &Vec<RewriteStep>) -> (result: Vec<u64>)
    ensures
        result@ == fingerprint::steps_view(steps@).map_values(
            |step: fingerprint::RewriteStepView| step.hash,
        ),
{
    let mut result: Vec<u64> = Vec::new();
    let mut i: usize = 0;
    while i < steps.len()
        invariant
            i <= steps@.len(),
            result@.len() == i,
            forall|j: int| 0 <= j < i ==> result@[j] == steps@[j].hash,
        decreases steps@.len() - i,
    {
        result.push(steps[i].hash);
        i = i + 1;
    }
    assert(result@ =~= fingerprint::steps_view(steps@).map_values(
        |step: fingerprint::RewriteStepView| step.hash,
    ));
    result
}

impl SaveState {
    /// Goes on with the unit at position `at`.
    fn save_from(&mut self, at: usize) -> (result: (Phase, SaveAction))
        requires
            settled_up_to(old(self)@, at as int),
        ensures
            leads_to(*final(self), result, save_from(old(self)@, at)),
    {
        if at >= self.to_save.len() {
            let mut requests: Vec<SaveUnitRequest> = Vec::new();
            std::mem::swap(&mut requests, &mut self.requests);
            assert(save::requests_view(self.requests@) =~= Seq::empty());
            return (Phase::Submitting, SaveAction::Submit(requests));
        }
        let unit: usize = self.to_save[at];
        if self.restored.contains_unit(self.units[unit].unit_hash.as_str()) {
            self.progress.total_units = self.progress.total_units - 1;
            return (Phase::ReportingRestored { at }, SaveAction::Report(self.progress));
        }
        if !self.units[unit].uses_glibc {
            return (Phase::ReadingFiles { at, glibc: None }, SaveAction::ReadUnitFiles { unit });
        }
        if !self.units[unit].target_arch.resolve(&self.host_arch).same(&self.host_arch) {
            return self.skip_unit(at);
        }
        (Phase::AskingGlibc { at }, SaveAction::AskHostGlibc)
    }

    /// Leaves out the unit at position `at`.
    fn skip_unit(&mut self, at: usize) -> (result: (Phase, SaveAction))
        requires
            old(self).progress.total_units > 0,
        ensures
            leads_to(*final(self), result, skip_unit(old(self)@, at)),
    {
        self.progress.total_units = self.progress.total_units - 1;
        (Phase::Reporting { at }, SaveAction::Report(self.progress))
    }

    /// Goes on looking at the units with `unit`.
    fn scan_from(&mut self, unit: usize) -> (result: (Phase, SaveAction))
        requires
            units_sound(old(self)@),
            old(self).requests@.len() == 0,
        ensures
            leads_to(*final(self), result, scan_from(old(self)@, unit)),
    {
        if unit < self.units.len() {
            (Phase::CheckingFiles { unit }, SaveAction::CheckFingerprintFiles { unit })
        } else {
            self.progress = SaveProgress {
                uploaded_units: 0,
                total_units: self.to_save.len() as u64,
                uploaded_files: 0,
                uploaded_bytes: 0,
            };
            self.save_from(0)
        }
    }

    /// Plans the rewriting of the fingerprint of the unit at position `at`.
    fn rewrite_unit(
        &self,
        at: usize,
        purpose: Purpose,
        src_path: &Option<QualifiedPath>,
        fingerprint: &Fingerprint,
    ) -> (result: (Phase, SaveAction))
        ensures
            leads_to(*self, result, rewrite_unit(self@, at, purpose, *src_path, *fingerprint)),
    {
        let plan = fingerprint::rewrite_fingerprint(
            src_path,
            &self.inputs,
            &self.rewritten,
            fingerprint,
        );
        let hashes = step_hashes(&plan.steps);
        (
            Phase::Rewriting {
                at,
                purpose,
                root: fingerprint.hash,
                hashes,
                outcome: plan.outcome,
            },
            SaveAction::Rewrite(plan.steps),
        )
    }

    /// Notes that the first `count` of these fingerprints were rewritten.
    fn note_rewritten(&mut self, hashes: &Vec<u64>, count: usize)
        requires
            count <= hashes@.len(),
        ensures
            final(self)@ == old(self)@.with_rewritten(hashes@.subrange(0, count as int)),
    {
        let ghost before = self.rewritten@;
        let mut i: usize = 0;
        assert(before.union(hashes@.subrange(0, 0).to_set()) =~= before);
        while i < count
            invariant
                i <= count <= hashes@.len(),
                self@ == (SaveStateView {
                    rewritten: before.union(hashes@.subrange(0, i as int).to_set()),
                    ..old(self)@
                }),
            decreases count - i,
        {
            self.rewritten.insert(hashes[i]);
            proof {
                let some = hashes@.subrange(0, i as int);
                let more = hashes@.subrange(0, i + 1);
                assert(more =~= some.push(hashes@[i as int]));
                some.lemma_push_to_set_commute(hashes@[i as int]);
                assert(self.rewritten@ =~= before.union(more.to_set()));
            }
            i = i + 1;
        }
    }

    /// Goes on where a fingerprint could not be rewritten for want of another one.
    fn give_up_unit(&mut self, at: usize, purpose: Purpose) -> (result: (Phase, SaveAction))
        requires
            match purpose {
                Purpose::Dependents => past_unit(old(self)@, at),
                Purpose::Saving(glibc) => at_work(old(self)@, at, glibc),
            },
        ensures
            leads_to(*final(self), result, give_up_unit(old(self)@, at, purpose)),
    {
        match purpose {
            Purpose::Dependents => self.save_from(at + 1),
            Purpose::Saving(_) => self.skip_unit(at),
        }
    }

    /// Goes on once the files of the unit at position `at` are ready.
    fn store_unit(
        &mut self,
        at: usize,
        glibc: Option<String>,
        fingerprint: String,
        files: UnitFiles,
    ) -> (result: (Phase, SaveAction))
        requires
            at_work(old(self)@, at, glibc),
            save::counters_fit(
                old(self).progress,
                save::new_objects(save::unit_objects(files), old(self).restored),
            ),
        ensures
            leads_to(
                *final(self),
                result,
                store_unit(old(self)@, at, glibc, fingerprint, files),
            ),
    {
        let unit: usize = self.to_save[at];
        let resolved_target = self.units[unit].target_arch.resolve(
            &self.host_arch,
        ).as_str().to_owned();
        let mut progress = self.progress;
        let (saved, uploads) = save::prepare_unit(
            &mut progress,
            &self.restored,
            files,
            fingerprint,
        );
        self.progress = progress;
        let request = SaveUnitRequest { unit, saved, resolved_target, linux_glibc_version: glibc };
        if uploads.is_empty() {
            (Phase::Encoding { at, request }, SaveAction::EncodeUnit { unit })
        } else {
            (Phase::Storing { at, request }, SaveAction::Store(uploads))
        }
    }

    /// Goes on once the unit at position `at` is saved.
    fn add_request(&mut self, at: usize, request: SaveUnitRequest) -> (result: (Phase, SaveAction))
        requires
            at_work(old(self)@, at, request.linux_glibc_version),
        ensures
            leads_to(
                *final(self),
                result,
                Next {
                    state: old(self)@.with_request(request@),
                    phase: PhaseView::Reporting { at },
                    action: SaveActionView::Report(old(self)@.with_request(request@).progress),
                },
            ),
    {
        self.progress.uploaded_units = self.progress.uploaded_units + 1;
        self.requests.push(request);
        assert(save::requests_view(self.requests@) =~= old(self)@.requests.push(request@));
        (Phase::Reporting { at }, SaveAction::Report(self.progress))
    }
}

/// Whether the files are those of a unit of this kind.
fn files_are_of(kind: UnitKind, files: &UnitFiles) -> (result: bool)
    ensures
        result == files_fit(kind, *files),
{
    match files {
        UnitFiles::LibraryCrate { .. } => kind == UnitKind::LibraryCrate,
        UnitFiles::BuildScriptCompilation { .. } => kind == UnitKind::BuildScriptCompilation,
        UnitFiles::BuildScriptExecution { .. } => kind == UnitKind::BuildScriptExecution,
    }
}

/// The saving of the units of a build.
#[derive(Debug)]
pub struct SaveSession {
    state: SaveState,
    phase: Phase,
}

impl SaveSession {
    /// What the session knows.
    pub closed spec fn state(self) -> SaveStateView {
        self.state@
    }

    /// What the session waits for.
    pub closed spec fn phase(self) -> PhaseView {
        self.phase@
    }

    #[verifier::type_invariant]
    spec fn is_consistent(self) -> bool {
        consistent(self.state@, self.phase@)
    }

    /// A session that is about to save `units`, where `restored` came from the cache.
    pub fn new(
        units: Vec<UnitPlan>,
        restored: Restored,
        host_arch: RustcTargetPlatform,
    ) -> (result: Self)
        ensures
            result.phase() == PhaseView::Idle,
            result.state() == (SaveStateView {
                units: units@,
                restored,
                host_arch,
                inputs: Map::empty(),
                rewritten: Set::empty(),
                to_save: Seq::empty(),
                progress: SaveProgress {
                    uploaded_units: 0,
                    total_units: 0,
                    uploaded_files: 0,
                    uploaded_bytes: 0,
                },
                requests: Seq::empty(),
            }),
            consistent(result.state(), result.phase()),
    {
        let state = SaveState {
            units,
            restored,
            host_arch,
            inputs: HashMap::new(),
            rewritten: HashSet::new(),
            to_save: Vec::new(),
            progress: SaveProgress {
                uploaded_units: 0,
                total_units: 0,
                uploaded_files: 0,
                uploaded_bytes: 0,
            },
            requests: Vec::new(),
        };
        let ghost length: usize = state.units.len();
        assert(state.units@.len() == length);
        assert(save::requests_view(state.requests@) =~= Seq::empty());
        SaveSession { state, phase: Phase::Idle }
    }
}

impl SaveSession {
    /// Whether the progress counters can take what the event brings.
    pub fn has_room_for(&self, event: &SaveEvent) -> (result: bool)
        ensures
            result == event_fits(self.state(), self.phase(), *event),
    {
        match (&self.phase, event) {
            (Phase::Preparing { .. }, SaveEvent::FilesPrepared(files)) => save::counters_take(
                &self.state.progress,
                &self.state.restored,
                files,
            ),
            _ => true,
        }
    }
}

/// Takes the answer to the last action, and gives the next action.
pub fn save_units(session: SaveSession, event: SaveEvent) -> (result: (SaveSession, SaveAction))
    requires
        event_fits(session.state(), session.phase(), event),
    ensures
        result.0.state() == next(session.state(), session.phase(), event).state,
        result.0.phase() == next(session.state(), session.phase(), event).phase,
        result.1@ == next(session.state(), session.phase(), event).action,
        consistent(session.state(), session.phase()),
        consistent(result.0.state(), result.0.phase()),
{
    proof {
        use_type_invariant(&session);
        step_keeps_consistent(session.state@, session.phase@, event);
    }
    let SaveSession { mut state, phase } = session;
    let (phase, action) = match (phase, event) {
        (Phase::Idle, SaveEvent::Begin) => state.scan_from(0),
        (Phase::CheckingFiles { unit }, SaveEvent::FingerprintFiles { json, hash }) => {
            if has_fingerprint_files(json, hash) {
                (Phase::Scanning { unit }, SaveAction::ReadFingerprint { unit })
            } else {
                state.scan_from(unit + 1)
            }
        },
        (Phase::Scanning { unit }, SaveEvent::FingerprintRead(fingerprint)) => {
            let src_path = match &state.units[unit].src_path {
                Some(path) => Some(path.duplicate()),
                None => None,
            };
            state.inputs.insert(
                fingerprint.hash,
                FingerprintRewriteInput { src_path, fingerprint },
            );
            state.to_save.push(unit);
            proof {
                lemma_increasing_len(state.to_save@, (unit + 1) as usize);
            }
            state.scan_from(unit + 1)
        },
        (Phase::ReportingRestored { at }, SaveEvent::Reported) => {
            let unit: usize = state.to_save[at];
            (Phase::ReadingRestored { at }, SaveAction::ReadFingerprint { unit })
        },
        (Phase::ReadingRestored { at }, SaveEvent::FingerprintRead(fingerprint)) => {
            let unit: usize = state.to_save[at];
            state.rewrite_unit(
                at,
                Purpose::Dependents,
                &state.units[unit].src_path,
                &fingerprint,
            )
        },
        (Phase::AskingGlibc { at }, SaveEvent::HostGlibc(glibc)) => {
            let unit: usize = state.to_save[at];
            (Phase::ReadingFiles { at, glibc }, SaveAction::ReadUnitFiles { unit })
        },
        (Phase::ReadingFiles { at, glibc }, SaveEvent::UnitFilesRead(fingerprint)) => {
            let unit: usize = state.to_save[at];
            if state.units[unit].kind == UnitKind::BuildScriptExecution {
                state.rewrite_unit(at, Purpose::Saving(glibc), &None, &fingerprint)
            } else {
                state.rewrite_unit(
                    at,
                    Purpose::Saving(glibc),
                    &state.units[unit].src_path,
                    &fingerprint,
                )
            }
        },
        (Phase::ReadingFiles { at, .. }, SaveEvent::UnitFilesFailed(report)) => {
            if is_missing_unit_file(report.as_str()) {
                state.skip_unit(at)
            } else {
                (Phase::Failed, SaveAction::Abort)
            }
        },
        (Phase::Rewriting { at, purpose, root, hashes, outcome }, SaveEvent::Rewritten) => {
            proof {
                lemma_given_up_consistent(state@, at, purpose, hashes@);
                assert(hashes@.subrange(0, hashes@.len() as int) =~= hashes@);
            }
            state.note_rewritten(&hashes, hashes.len());
            match rewrite_fingerprint_for_save(outcome) {
                Ok(true) => (
                    Phase::Rendering { at, purpose },
                    SaveAction::RenderFingerprint { hash: root },
                ),
                Ok(false) => state.give_up_unit(at, purpose),
                Err(error) => (Phase::Failed, SaveAction::Fail(error)),
            }
        },
        (
            Phase::Rewriting { at, purpose, hashes, .. },
            SaveEvent::RewriteFailed { done, report },
        ) => {
            let count: usize = if done < hashes.len() {
                done
            } else {
                hashes.len()
            };
            proof {
                lemma_given_up_consistent(
                    state@,
                    at,
                    purpose,
                    hashes@.subrange(0, count as int),
                );
                assert(hashes@.subrange(0, hashes@.len() as int) =~= hashes@);
            }
            state.note_rewritten(&hashes, count);
            if is_missing_dependency_fingerprint(report.as_str()) {
                state.give_up_unit(at, purpose)
            } else {
                (Phase::Failed, SaveAction::Abort)
            }
        },
        (Phase::Rendering { at, purpose }, SaveEvent::FingerprintText(fingerprint)) => {
            match purpose {
                Purpose::Dependents => state.save_from(at + 1),
                Purpose::Saving(glibc) => {
                    let unit: usize = state.to_save[at];
                    (
                        Phase::Preparing { at, glibc, fingerprint },
                        SaveAction::PrepareFiles { unit },
                    )
                },
            }
        },
        (Phase::Preparing { at, glibc, fingerprint }, SaveEvent::FilesPrepared(files)) => {
            let unit: usize = state.to_save[at];
            if files_are_of(state.units[unit].kind, &files) {
                state.store_unit(at, glibc, fingerprint, files)
            } else {
                (Phase::Preparing { at, glibc, fingerprint }, SaveAction::Ignore)
            }
        },
        (Phase::Storing { at, request }, SaveEvent::Stored) => {
            let unit: usize = state.to_save[at];
            (Phase::Encoding { at, request }, SaveAction::EncodeUnit { unit })
        },
        (Phase::Encoding { at, request }, SaveEvent::Encoded) => state.add_request(at, request),
        (Phase::Reporting { at }, SaveEvent::Reported) => state.save_from(at + 1),
        (Phase::Submitting, SaveEvent::Submitted) => (Phase::Finished, SaveAction::Finish),
        (phase, _) => (phase, SaveAction::Ignore),
    };
    (SaveSession { state, phase }, action)
}

} // verus!
