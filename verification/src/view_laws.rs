//! What errors, results, requests and actions stand for, told by what they are made of.
use vstd::prelude::*;

use crate::build_plan;
use crate::build_plan::{UnitHash, UnitHashError};
use crate::fingerprint;
use crate::fingerprint::{RewriteError, RewriteStep};
use crate::save;
use crate::save::{SaveUnitRequest, SavedUnit};
use crate::session;
use crate::session::SaveAction;

verus! {

/// An error of a plan stands for the same error, with the text of the path that it names.
pub proof fn rewrite_errors_stand_for_themselves(error: RewriteError)
    ensures
        match error {
            RewriteError::Cycle => error@ is Cycle,
            RewriteError::DependencyNotFound => error@ is DependencyNotFound,
            RewriteError::PathNotAbsolute(p) => error@
                == fingerprint::RewriteErrorView::PathNotAbsolute(p@),
            RewriteError::UnexpectedPathRoot(p) => error@
                == fingerprint::RewriteErrorView::UnexpectedPathRoot(p@),
        },
{
}

/// A plan ends well exactly if nothing stops it, and otherwise with the reason that stops it.
pub proof fn outcomes_tell_the_reason(
    stop: Option<fingerprint::RewriteErrorView>,
    outcome: Result<(), RewriteError>,
)
    ensures
        fingerprint::stopped_by(stop, outcome) <==> match (stop, outcome) {
            (None, Ok(_)) => true,
            (Some(reason), Err(error)) => error@ == reason,
            _ => false,
        },
        match outcome {
            Ok(_) => session::stop_of(outcome) is None,
            Err(error) => session::stop_of(outcome) == Some(error@),
        },
{
}

/// The steps of a plan stand for the hashes and the texts of the paths in them, in order.
pub proof fn steps_stand_for_hash_and_path(steps: Seq<RewriteStep>, i: int)
    requires
        0 <= i < steps.len(),
    ensures
        fingerprint::steps_view(steps).len() == steps.len(),
        fingerprint::steps_view(steps)[i].hash == steps[i].hash,
        match steps[i].src_path {
            None => fingerprint::steps_view(steps)[i].src_path is None,
            Some(p) => fingerprint::steps_view(steps)[i].src_path == Some(p@),
        },
{
}

/// The result of the search for a unit hash stands for the text of the hash, for none, or
/// for the error.
pub proof fn unit_hash_results_stand_for_themselves(hash: UnitHash, error: UnitHashError)
    ensures
        build_plan::hash_result(Ok(Some(hash))) == Ok::<_, build_plan::UnitHashErrorView>(
            Some(hash.0@),
        ),
        build_plan::hash_result(Ok(None)) == Ok::<_, build_plan::UnitHashErrorView>(
            None::<Seq<char>>,
        ),
        build_plan::hash_result(Err(error)) == Err::<Option<Seq<char>>, _>(error@),
        match error {
            UnitHashError::BuildScriptWithoutOutputs => error@ is BuildScriptWithoutOutputs,
            UnitHashError::ProgramWithoutName => error@ is ProgramWithoutName,
            UnitHashError::ProgramWithoutHash => error@ is ProgramWithoutHash,
            UnitHashError::OutDirNotSet => error@ is OutDirNotSet,
            UnitHashError::OutDirWithoutParent => error@ is OutDirWithoutParent,
            UnitHashError::DirectoryWithoutName => error@ is DirectoryWithoutName,
            UnitHashError::DirectoryWithoutHash => error@ is DirectoryWithoutHash,
            UnitHashError::LibraryWithoutOutputs => error@ is LibraryWithoutOutputs,
            UnitHashError::LibraryWithoutName => error@ is LibraryWithoutName,
            UnitHashError::LibraryWithoutExtension => error@ is LibraryWithoutExtension,
            UnitHashError::LibraryWithoutHash { filename, outputs } => error@
                == (build_plan::UnitHashErrorView::LibraryWithoutHash {
                filename: filename@,
                outputs: outputs.deep_view(),
            }),
            UnitHashError::PathNotAbsolute(p) => error@
                == build_plan::UnitHashErrorView::PathNotAbsolute(p@),
        },
{
}

/// What the cache is told of a unit stands for its files, its keys and its fingerprint.
pub proof fn saved_units_stand_for_their_parts(saved: SavedUnit)
    ensures
        match saved {
            SavedUnit::LibraryCrate {
                output_files,
                dep_info_file,
                encoded_dep_info_file,
                fingerprint,
            } => saved@ == (save::SavedUnitView::LibraryCrate {
                output_files: output_files@,
                dep_info_file,
                encoded_dep_info_file,
                fingerprint,
            }),
            SavedUnit::BuildScriptCompilation {
                compiled_program,
                dep_info_file,
                encoded_dep_info_file,
                fingerprint,
            } => saved@ == (save::SavedUnitView::BuildScriptCompilation {
                compiled_program,
                dep_info_file,
                encoded_dep_info_file,
                fingerprint,
            }),
            SavedUnit::BuildScriptExecution { out_dir_files, stdout, stderr, fingerprint } =>
                saved@ == (save::SavedUnitView::BuildScriptExecution {
                out_dir_files: out_dir_files@,
                stdout,
                stderr,
                fingerprint,
            }),
        },
{
}

/// A list of requests stands for the requests in it, in order, each with its unit, what the
/// cache is told of that, the target triple and the version of glibc.
pub proof fn requests_stand_for_their_parts(requests: Seq<SaveUnitRequest>, i: int)
    requires
        0 <= i < requests.len(),
    ensures
        save::requests_view(requests).len() == requests.len(),
        save::requests_view(requests)[i].unit == requests[i].unit,
        save::requests_view(requests)[i].saved == requests[i].saved@,
        save::requests_view(requests)[i].resolved_target == requests[i].resolved_target@,
        save::requests_view(requests)[i].linux_glibc_version == requests[i].linux_glibc_version,
{
}

/// An action stands for itself, with what it is about.
pub proof fn actions_stand_for_themselves(action: SaveAction)
    ensures
        match action {
            SaveAction::CheckFingerprintFiles { unit } => action@
                == (session::SaveActionView::CheckFingerprintFiles { unit }),
            SaveAction::ReadFingerprint { unit } => action@
                == (session::SaveActionView::ReadFingerprint { unit }),
            SaveAction::Report(progress) => action@ == session::SaveActionView::Report(progress),
            SaveAction::AskHostGlibc => action@ is AskHostGlibc,
            SaveAction::ReadUnitFiles { unit } => action@
                == (session::SaveActionView::ReadUnitFiles { unit }),
            SaveAction::Rewrite(steps) => action@ == session::SaveActionView::Rewrite(
                fingerprint::steps_view(steps@),
            ),
            SaveAction::RenderFingerprint { hash } => action@
                == (session::SaveActionView::RenderFingerprint { hash }),
            SaveAction::PrepareFiles { unit } => action@
                == (session::SaveActionView::PrepareFiles { unit }),
            SaveAction::Store(blobs) => action@ == session::SaveActionView::Store(blobs@),
            SaveAction::EncodeUnit { unit } => action@
                == (session::SaveActionView::EncodeUnit { unit }),
            SaveAction::Submit(requests) => action@ == session::SaveActionView::Submit(
                save::requests_view(requests@),
            ),
            SaveAction::Finish => action@ is Finish,
            SaveAction::Fail(error) => action@ == session::SaveActionView::Fail(error@),
            SaveAction::Abort => action@ is Abort,
            SaveAction::Ignore => action@ is Ignore,
        },
{
}

} // verus!
