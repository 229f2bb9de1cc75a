//! What is stored of a unit and what the cache is told of it, told by its files.
use vstd::prelude::*;

use crate::save;
use crate::save::{Blob, Key, OutputFile, Restored, SaveProgress, SavedFile, UnitFiles};

verus! {

/// The cache is told of exactly these files: of each its key, whether it is executable, and
/// its path.
pub open spec fn tells_of(saved: Seq<SavedFile>, files: Seq<OutputFile>) -> bool {
    &&& saved.len() == files.len()
    &&& forall|i: int|
        #![trigger saved[i]]
        #![trigger files[i]]
        0 <= i < files.len() ==> {
            &&& saved[i].object_key == files[i].blob.key
            &&& saved[i].executable == files[i].executable
            &&& saved[i].path == files[i].path
        }
}

/// What the cache is told of a unit is of its kind, tells of every file of the unit with its
/// key, its executable flag and its path, names the keys of the other objects each in its
/// place, and carries the fingerprint.
pub proof fn cache_is_told_of_the_files(files: UnitFiles, text: String)
    ensures
        match files {
            UnitFiles::LibraryCrate { output_files, dep_info_file, encoded_dep_info_file } => {
                &&& save::saved_unit(files, text) matches save::SavedUnitView::LibraryCrate {
                    output_files: saved,
                    dep_info_file: dep_info,
                    encoded_dep_info_file: encoded,
                    fingerprint,
                }
                &&& tells_of(saved, output_files@)
                &&& dep_info == dep_info_file.key
                &&& encoded == encoded_dep_info_file.key
                &&& fingerprint == text
            },
            UnitFiles::BuildScriptCompilation {
                compiled_program,
                dep_info_file,
                encoded_dep_info_file,
            } => {
                &&& save::saved_unit(
                    files,
                    text,
                ) matches save::SavedUnitView::BuildScriptCompilation {
                    compiled_program: program,
                    dep_info_file: dep_info,
                    encoded_dep_info_file: encoded,
                    fingerprint,
                }
                &&& program == compiled_program.key
                &&& dep_info == dep_info_file.key
                &&& encoded == encoded_dep_info_file.key
                &&& fingerprint == text
            },
            UnitFiles::BuildScriptExecution { out_dir_files, stdout, stderr } => {
                &&& save::saved_unit(
                    files,
                    text,
                ) matches save::SavedUnitView::BuildScriptExecution {
                    out_dir_files: saved,
                    stdout: out,
                    stderr: err,
                    fingerprint,
                }
                &&& tells_of(saved, out_dir_files@)
                &&& out == stdout.key
                &&& err == stderr.key
                &&& fingerprint == text
            },
        },
{
}

/// The objects of a unit are the contents of all its files, in the order of the files, and
/// then the other objects of its kind. A unit has no others.
pub proof fn objects_are_those_of_the_files(files: UnitFiles)
    ensures
        ({
            let objects = save::unit_objects(files);
            match files {
                UnitFiles::LibraryCrate { output_files, dep_info_file, encoded_dep_info_file } => {
                    let n = output_files@.len() as int;
                    &&& objects.len() == n + 2
                    &&& forall|i: int| 0 <= i < n ==> #[trigger] objects[i] == output_files@[i].blob
                    &&& objects[n] == dep_info_file
                    &&& objects[n + 1] == encoded_dep_info_file
                },
                UnitFiles::BuildScriptCompilation {
                    compiled_program,
                    dep_info_file,
                    encoded_dep_info_file,
                } => {
                    &&& objects.len() == 3
                    &&& objects[0] == compiled_program
                    &&& objects[1] == dep_info_file
                    &&& objects[2] == encoded_dep_info_file
                },
                UnitFiles::BuildScriptExecution { out_dir_files, stdout, stderr } => {
                    let n = out_dir_files@.len() as int;
                    &&& objects.len() == n + 2
                    &&& forall|i: int|
                        0 <= i < n ==> #[trigger] objects[i] == out_dir_files@[i].blob
                    &&& objects[n] == stdout
                    &&& objects[n + 1] == stderr
                },
            }
        }),
{
}

/// What came from the cache is what is listed as such, told by its text.
pub proof fn restored_is_what_is_listed(restored: Restored, hash: Seq<char>, key: Key)
    ensures
        restored.has_unit(hash) <==> exists|i: int|
            0 <= i < restored.units@.len() && (#[trigger] restored.units@[i])@ == hash,
        restored.has_file(key) <==> exists|i: int|
            0 <= i < restored.files@.len() && (#[trigger] restored.files@[i]).0@ == key.0@,
{
}

/// Of no objects none is uploaded. One more object is uploaded after the others, with its
/// contents, exactly if the cache did not give it to this build.
pub proof fn objects_are_uploaded_one_by_one(objects: Seq<Blob>, blob: Blob, restored: Restored)
    ensures
        save::new_objects(Seq::empty(), restored).len() == 0,
        (exists|i: int|
            0 <= i < restored.files@.len() && (#[trigger] restored.files@[i]).0@ == blob.key.0@)
            ==> save::new_objects(objects.push(blob), restored) == save::new_objects(
            objects,
            restored,
        ),
        (forall|i: int|
            0 <= i < restored.files@.len() ==> (#[trigger] restored.files@[i]).0@ != blob.key.0@)
            ==> save::new_objects(objects.push(blob), restored) == save::new_objects(
            objects,
            restored,
        ).push(blob),
{
    reveal(Seq::filter);
    assert(objects.push(blob).drop_last() =~= objects);
}

/// No objects hold no bytes, and one more adds as many bytes as it holds.
pub proof fn bytes_are_those_of_the_contents(objects: Seq<Blob>, blob: Blob)
    ensures
        save::total_bytes(Seq::empty()) == 0,
        save::total_bytes(objects.push(blob)) == save::total_bytes(objects)
            + blob.contents@.len(),
{
    assert(objects.push(blob).drop_last() =~= objects);
}

/// Uploads are counted as files and by their bytes, and the counters of units stay. That
/// fails only where a counter would overflow.
pub proof fn uploads_are_counted(progress: SaveProgress, uploads: Seq<Blob>)
    ensures
        save::counters_fit(progress, uploads) <==> {
            &&& progress.uploaded_files + uploads.len() <= 0xffff_ffff_ffff_ffff
            &&& progress.uploaded_bytes + save::total_bytes(uploads) <= 0xffff_ffff_ffff_ffff
        },
        save::counters_fit(progress, uploads) ==> {
            let then = save::with_uploads(progress, uploads);
            &&& then.uploaded_files == progress.uploaded_files + uploads.len()
            &&& then.uploaded_bytes == progress.uploaded_bytes + save::total_bytes(uploads)
            &&& then.uploaded_units == progress.uploaded_units
            &&& then.total_units == progress.total_units
        },
{
}

} // verus!
