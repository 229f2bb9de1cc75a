//! What is saved of a unit: the objects that are stored, and what the cache is told.
use vstd::prelude::*;

use crate::text;

verus! {

/// How far saving has come.
#[derive(Debug, Clone, Copy, Eq, PartialEq, Hash, Structural)]
pub struct SaveProgress {
    pub uploaded_units: u64,
    pub total_units: u64,
    pub uploaded_files: u64,
    pub uploaded_bytes: u64,
}

/// The key of an object in the content-addressed store.
#[derive(Debug)]
pub struct Key(pub String);

impl Key {
    /// The same key again.
    pub fn duplicate(&self) -> (result: Self)
        ensures
            result == *self,
    {
        Key(self.0.clone())
    }
}

/// An object for the content-addressed store.
#[derive(Debug)]
pub struct Blob {
    pub key: Key,
    pub contents: Vec<u8>,
}

/// A file that a unit put into a directory of the build.
#[derive(Debug)]
pub struct OutputFile {
    pub blob: Blob,
    pub executable: bool,
    /// The path, encoded for the cache.
    pub path: String,
}

/// The kinds of units that are saved.
#[derive(Debug, Clone, Copy, Eq, PartialEq, Structural)]
pub enum UnitKind {
    LibraryCrate,
    BuildScriptCompilation,
    BuildScriptExecution,
}

/// The files of a unit, ready to be stored.
#[derive(Debug)]
pub enum UnitFiles {
    LibraryCrate {
        output_files: Vec<OutputFile>,
        dep_info_file: Blob,
        encoded_dep_info_file: Blob,
    },
    BuildScriptCompilation {
        compiled_program: Blob,
        dep_info_file: Blob,
        encoded_dep_info_file: Blob,
    },
    BuildScriptExecution { out_dir_files: Vec<OutputFile>, stdout: Blob, stderr: Blob },
}

/// A stored file, as the cache is told of it.
#[derive(Debug)]
pub struct SavedFile {
    pub object_key: Key,
    pub executable: bool,
    pub path: String,
}

/// A stored unit, as the cache is told of it.
#[derive(Debug)]
pub enum SavedUnit {
    LibraryCrate {
        output_files: Vec<SavedFile>,
        dep_info_file: Key,
        encoded_dep_info_file: Key,
        fingerprint: String,
    },
    BuildScriptCompilation {
        compiled_program: Key,
        dep_info_file: Key,
        encoded_dep_info_file: Key,
        fingerprint: String,
    },
    BuildScriptExecution {
        out_dir_files: Vec<SavedFile>,
        stdout: Key,
        stderr: Key,
        fingerprint: String,
    },
}

/// What a [`SavedUnit`] stands for.
pub enum SavedUnitView {
    LibraryCrate {
        output_files: Seq<SavedFile>,
        dep_info_file: Key,
        encoded_dep_info_file: Key,
        fingerprint: String,
    },
    BuildScriptCompilation {
        compiled_program: Key,
        dep_info_file: Key,
        encoded_dep_info_file: Key,
        fingerprint: String,
    },
    BuildScriptExecution {
        out_dir_files: Seq<SavedFile>,
        stdout: Key,
        stderr: Key,
        fingerprint: String,
    },
}

impl View for SavedUnit {
    type V = SavedUnitView;

    open spec fn view(&self) -> SavedUnitView {
        match *self {
            SavedUnit::LibraryCrate {
                output_files,
                dep_info_file,
                encoded_dep_info_file,
                fingerprint,
            } => SavedUnitView::LibraryCrate {
                output_files: output_files@,
                dep_info_file,
                encoded_dep_info_file,
                fingerprint,
            },
            SavedUnit::BuildScriptCompilation {
                compiled_program,
                dep_info_file,
                encoded_dep_info_file,
                fingerprint,
            } => SavedUnitView::BuildScriptCompilation {
                compiled_program,
                dep_info_file,
                encoded_dep_info_file,
                fingerprint,
            },
            SavedUnit::BuildScriptExecution { out_dir_files, stdout, stderr, fingerprint } =>
                SavedUnitView::BuildScriptExecution {
                out_dir_files: out_dir_files@,
                stdout,
                stderr,
                fingerprint,
            },
        }
    }
}

/// A request to save one unit.
#[derive(Debug)]
pub struct SaveUnitRequest {
    /// The position of the unit among the units of the build.
    pub unit: usize,
    pub saved: SavedUnit,
    pub resolved_target: String,
    pub linux_glibc_version: Option<String>,
}

/// What a [`SaveUnitRequest`] stands for.
pub struct SaveUnitRequestView {
    pub unit: usize,
    pub saved: SavedUnitView,
    pub resolved_target: Seq<char>,
    pub linux_glibc_version: Option<String>,
}

impl View for SaveUnitRequest {
    type V = SaveUnitRequestView;

    open spec fn view(&self) -> SaveUnitRequestView {
        SaveUnitRequestView {
            unit: self.unit,
            saved: self.saved@,
            resolved_target: self.resolved_target@,
            linux_glibc_version: self.linux_glibc_version,
        }
    }
}

/// What a list of requests stands for.
pub open spec fn requests_view(list: Seq<SaveUnitRequest>) -> Seq<SaveUnitRequestView> {
    list.map_values(|request: SaveUnitRequest| request@)
}

/// What the cache gave to this build: the units, by their hash, and the files, by their
/// key. There is no need to save these again.
#[derive(Debug)]
pub struct Restored {
    pub units: Vec<String>,
    pub files: Vec<Key>,
}

impl Restored {
    /// The unit with this hash came from the cache.
    pub open spec fn has_unit(self, hash: Seq<char>) -> bool {
        exists|i: int| 0 <= i < self.units@.len() && #[trigger] self.units@[i]@ == hash
    }

    /// The file with this key came from the cache.
    pub open spec fn has_file(self, key: Key) -> bool {
        exists|i: int| 0 <= i < self.files@.len() && (#[trigger] self.files@[i]).0@ == key.0@
    }

    /// Whether the unit with this hash came from the cache.
    pub fn contains_unit(&self, hash: &str) -> (result: bool)
        ensures
            result == self.has_unit(hash@),
    {
        let mut i: usize = 0;
        while i < self.units.len()
            invariant
                i <= self.units@.len(),
                forall|j: int| 0 <= j < i ==> self.units@[j]@ != hash@,
            decreases self.units@.len() - i,
        {
            if text::same(self.units[i].as_str(), hash) {
                return true;
            }
            i = i + 1;
        }
        false
    }

    /// Whether the file with this key came from the cache.
    pub fn contains_file(&self, key: &Key) -> (result: bool)
        ensures
            result == self.has_file(*key),
    {
        let mut i: usize = 0;
        while i < self.files.len()
            invariant
                i <= self.files@.len(),
                forall|j: int| 0 <= j < i ==> self.files@[j].0@ != key.0@,
            decreases self.files@.len() - i,
        {
            if text::same(self.files[i].0.as_str(), key.0.as_str()) {
                return true;
            }
            i = i + 1;
        }
        false
    }
}

/// The objects of some files, in order.
pub open spec fn file_objects(files: Seq<OutputFile>) -> Seq<Blob> {
    files.map_values(|file: OutputFile| file.blob)
}

/// The objects of a unit, in the order in which they are stored.
pub open spec fn unit_objects(files: UnitFiles) -> Seq<Blob> {
    match files {
        UnitFiles::LibraryCrate { output_files, dep_info_file, encoded_dep_info_file } =>
            file_objects(output_files@) + seq![dep_info_file, encoded_dep_info_file],
        UnitFiles::BuildScriptCompilation {
            compiled_program,
            dep_info_file,
            encoded_dep_info_file,
        } => seq![compiled_program, dep_info_file, encoded_dep_info_file],
        UnitFiles::BuildScriptExecution { out_dir_files, stdout, stderr } => file_objects(
            out_dir_files@,
        ) + seq![stdout, stderr],
    }
}

/// The objects that did not come from the cache.
pub open spec fn new_objects(objects: Seq<Blob>, restored: Restored) -> Seq<Blob> {
    objects.filter(|blob: Blob| !restored.has_file(blob.key))
}

/// How many bytes the objects hold.
pub open spec fn total_bytes(objects: Seq<Blob>) -> nat
    decreases objects.len(),
{
    if objects.len() == 0 {
        0
    } else {
        total_bytes(objects.drop_last()) + objects.last().contents@.len()
    }
}

/// The files as the cache is told of them.
pub open spec fn saved_files(files: Seq<OutputFile>) -> Seq<SavedFile> {
    files.map_values(
        |file: OutputFile|
            SavedFile {
                object_key: file.blob.key,
                executable: file.executable,
                path: file.path,
            },
    )
}

/// The unit as the cache is told of it.
pub open spec fn saved_unit(files: UnitFiles, fingerprint: String) -> SavedUnitView {
    match files {
        UnitFiles::LibraryCrate { output_files, dep_info_file, encoded_dep_info_file } =>
            SavedUnitView::LibraryCrate {
            output_files: saved_files(output_files@),
            dep_info_file: dep_info_file.key,
            encoded_dep_info_file: encoded_dep_info_file.key,
            fingerprint,
        },
        UnitFiles::BuildScriptCompilation {
            compiled_program,
            dep_info_file,
            encoded_dep_info_file,
        } => SavedUnitView::BuildScriptCompilation {
            compiled_program: compiled_program.key,
            dep_info_file: dep_info_file.key,
            encoded_dep_info_file: encoded_dep_info_file.key,
            fingerprint,
        },
        UnitFiles::BuildScriptExecution { out_dir_files, stdout, stderr } =>
            SavedUnitView::BuildScriptExecution {
            out_dir_files: saved_files(out_dir_files@),
            stdout: stdout.key,
            stderr: stderr.key,
            fingerprint,
        },
    }
}

/// The progress after the objects in `uploads` have been added to it.
pub open spec fn with_uploads(progress: SaveProgress, uploads: Seq<Blob>) -> SaveProgress {
    SaveProgress {
        uploaded_files: (progress.uploaded_files + uploads.len()) as u64,
        uploaded_bytes: (progress.uploaded_bytes + total_bytes(uploads)) as u64,
        ..progress
    }
}

/// The progress counters can take the objects in `uploads`.
pub open spec fn counters_fit(progress: SaveProgress, uploads: Seq<Blob>) -> bool {
    &&& progress.uploaded_files + uploads.len() <= u64::MAX
    &&& progress.uploaded_bytes + total_bytes(uploads) <= u64::MAX
}

proof fn lemma_new_objects_push(objects: Seq<Blob>, blob: Blob, restored: Restored)
    ensures
        new_objects(objects.push(blob), restored) == if restored.has_file(blob.key) {
            new_objects(objects, restored)
        } else {
            new_objects(objects, restored).push(blob)
        },
{
    reveal(Seq::filter);
    assert(objects.push(blob).drop_last() =~= objects);
}

proof fn lemma_total_bytes_push(objects: Seq<Blob>, blob: Blob)
    ensures
        total_bytes(objects.push(blob)) == total_bytes(objects) + blob.contents@.len(),
{
    assert(objects.push(blob).drop_last() =~= objects);
}

/// Fewer objects, fewer bytes and fewer uploads.
proof fn lemma_uploads_of_prefix(objects: Seq<Blob>, n: int, restored: Restored)
    requires
        0 <= n <= objects.len(),
    ensures
        new_objects(objects.subrange(0, n), restored).len() <= new_objects(objects, restored).len(),
        total_bytes(new_objects(objects.subrange(0, n), restored)) <= total_bytes(
            new_objects(objects, restored),
        ),
    decreases objects.len() - n,
{
    if n == objects.len() {
        assert(objects.subrange(0, n) =~= objects);
    } else {
        let prefix = objects.subrange(0, n);
        assert(objects.subrange(0, n + 1) =~= prefix.push(objects[n]));
        lemma_new_objects_push(prefix, objects[n], restored);
        lemma_total_bytes_push(new_objects(prefix, restored), objects[n]);
        lemma_uploads_of_prefix(objects, n + 1, restored);
    }
}

/// The first `n` of the objects have been looked at: those that did not come from the
/// cache are the uploads, and the progress counts them.
spec fn uploads_at(
    start: SaveProgress,
    objects: Seq<Blob>,
    n: int,
    restored: Restored,
    progress: SaveProgress,
    uploads: Seq<Blob>,
) -> bool {
    &&& uploads == new_objects(objects.subrange(0, n), restored)
    &&& progress == with_uploads(start, uploads)
}

/// Counts the object and adds it to the uploads, unless it came from the cache.
fn add_object(
    progress: &mut SaveProgress,
    uploads: &mut Vec<Blob>,
    restored: &Restored,
    blob: Blob,
    Ghost(start): Ghost<SaveProgress>,
    Ghost(objects): Ghost<Seq<Blob>>,
    Ghost(n): Ghost<int>,
)
    requires
        0 <= n < objects.len(),
        objects[n] == blob,
        counters_fit(start, new_objects(objects, *restored)),
        uploads_at(start, objects, n, *restored, *old(progress), old(uploads)@),
    ensures
        uploads_at(start, objects, n + 1, *restored, *final(progress), final(uploads)@),
{
    proof {
        let prefix = objects.subrange(0, n);
        assert(objects.subrange(0, n + 1) =~= prefix.push(blob));
        lemma_new_objects_push(prefix, blob, *restored);
        lemma_total_bytes_push(new_objects(prefix, *restored), blob);
        lemma_uploads_of_prefix(objects, n, *restored);
        lemma_uploads_of_prefix(objects, n + 1, *restored);
    }
    if !restored.contains_file(&blob.key) {
        progress.uploaded_files = progress.uploaded_files + 1;
        progress.uploaded_bytes = progress.uploaded_bytes + blob.contents.len() as u64;
        uploads.push(blob);
    }
}

/// Counts the objects of the files and adds them to the uploads, unless they came from
/// the cache. The result is what the cache is told of the files.
fn add_files(
    progress: &mut SaveProgress,
    uploads: &mut Vec<Blob>,
    restored: &Restored,
    files: Vec<OutputFile>,
    Ghost(start): Ghost<SaveProgress>,
    Ghost(objects): Ghost<Seq<Blob>>,
) -> (result: Vec<SavedFile>)
    requires
        file_objects(files@).is_prefix_of(objects),
        counters_fit(start, new_objects(objects, *restored)),
        uploads_at(start, objects, 0, *restored, *old(progress), old(uploads)@),
    ensures
        result@ == saved_files(files@),
        uploads_at(
            start,
            objects,
            files@.len() as int,
            *restored,
            *final(progress),
            final(uploads)@,
        ),
{
    let mut result: Vec<SavedFile> = Vec::new();
    let ghost all = files@;
    for file in it: files
        invariant
            it.seq() == all,
            file_objects(all).is_prefix_of(objects),
            counters_fit(start, new_objects(objects, *restored)),
            uploads_at(start, objects, it.index() as int, *restored, *progress, uploads@),
            result@ == saved_files(all.subrange(0, it.index() as int)),
    {
        let ghost n = it.index() as int;
        assert(objects[n] == file.blob) by {
            assert(file_objects(all)[n] == objects.subrange(0, all.len() as int)[n]);
        }
        let saved = SavedFile {
            object_key: file.blob.key.duplicate(),
            executable: file.executable,
            path: file.path,
        };
        result.push(saved);
        add_object(
            progress,
            uploads,
            restored,
            file.blob,
            Ghost(start),
            Ghost(objects),
            Ghost(n),
        );
        assert(result@ =~= saved_files(all.subrange(0, n + 1)));
    }
    assert(all.subrange(0, all.len() as int) =~= all);
    result
}

/// Splits the files of a unit into what the cache is told of it and the objects that
/// have to be stored first, and counts the latter.
pub fn prepare_unit(
    progress: &mut SaveProgress,
    restored: &Restored,
    files: UnitFiles,
    fingerprint: String,
) -> (result: (SavedUnit, Vec<Blob>))
    requires
        counters_fit(*old(progress), new_objects(unit_objects(files), *restored)),
    ensures
        result.0@ == saved_unit(files, fingerprint),
        result.1@ == new_objects(unit_objects(files), *restored),
        *final(progress) == with_uploads(
            *old(progress),
            new_objects(unit_objects(files), *restored),
        ),
{
    let ghost start = *progress;
    let ghost objects = unit_objects(files);
    let mut uploads: Vec<Blob> = Vec::new();
    proof {
        assert(objects.subrange(0, 0) =~= Seq::empty());
        assert(new_objects(Seq::empty(), *restored) =~= Seq::empty()) by {
            reveal(Seq::filter);
        }
        assert(with_uploads(start, Seq::empty()) == start);
        assert(objects.subrange(0, objects.len() as int) =~= objects);
    }
    match files {
        UnitFiles::LibraryCrate { output_files, dep_info_file, encoded_dep_info_file } => {
            let ghost n = output_files@.len() as int;
            assert(objects.subrange(0, n) =~= file_objects(output_files@));
            let output_files = add_files(
                progress,
                &mut uploads,
                restored,
                output_files,
                Ghost(start),
                Ghost(objects),
            );
            let dep_info_key = dep_info_file.key.duplicate();
            add_object(
                progress,
                &mut uploads,
                restored,
                dep_info_file,
                Ghost(start),
                Ghost(objects),
                Ghost(n),
            );
            let encoded_key = encoded_dep_info_file.key.duplicate();
            add_object(
                progress,
                &mut uploads,
                restored,
                encoded_dep_info_file,
                Ghost(start),
                Ghost(objects),
                Ghost(n + 1),
            );
            (
                SavedUnit::LibraryCrate {
                    output_files,
                    dep_info_file: dep_info_key,
                    encoded_dep_info_file: encoded_key,
                    fingerprint,
                },
                uploads,
            )
        },
        UnitFiles::BuildScriptCompilation {
            compiled_program,
            dep_info_file,
            encoded_dep_info_file,
        } => {
            let program_key = compiled_program.key.duplicate();
            add_object(
                progress,
                &mut uploads,
                restored,
                compiled_program,
                Ghost(start),
                Ghost(objects),
                Ghost(0),
            );
            let dep_info_key = dep_info_file.key.duplicate();
            add_object(
                progress,
                &mut uploads,
                restored,
                dep_info_file,
                Ghost(start),
                Ghost(objects),
                Ghost(1),
            );
            let encoded_key = encoded_dep_info_file.key.duplicate();
            add_object(
                progress,
                &mut uploads,
                restored,
                encoded_dep_info_file,
                Ghost(start),
                Ghost(objects),
                Ghost(2),
            );
            (
                SavedUnit::BuildScriptCompilation {
                    compiled_program: program_key,
                    dep_info_file: dep_info_key,
                    encoded_dep_info_file: encoded_key,
                    fingerprint,
                },
                uploads,
            )
        },
        UnitFiles::BuildScriptExecution { out_dir_files, stdout, stderr } => {
            let ghost n = out_dir_files@.len() as int;
            assert(objects.subrange(0, n) =~= file_objects(out_dir_files@));
            let out_dir_files = add_files(
                progress,
                &mut uploads,
                restored,
                out_dir_files,
                Ghost(start),
                Ghost(objects),
            );
            let stdout_key = stdout.key.duplicate();
            add_object(
                progress,
                &mut uploads,
                restored,
                stdout,
                Ghost(start),
                Ghost(objects),
                Ghost(n),
            );
            let stderr_key = stderr.key.duplicate();
            add_object(
                progress,
                &mut uploads,
                restored,
                stderr,
                Ghost(start),
                Ghost(objects),
                Ghost(n + 1),
            );
            (
                SavedUnit::BuildScriptExecution {
                    out_dir_files,
                    stdout: stdout_key,
                    stderr: stderr_key,
                    fingerprint,
                },
                uploads,
            )
        },
    }
}

/// The counters after the object was counted, unless one of them would overflow.
fn count_object(
    progress: SaveProgress,
    restored: &Restored,
    blob: &Blob,
    Ghost(start): Ghost<SaveProgress>,
    Ghost(objects): Ghost<Seq<Blob>>,
    Ghost(n): Ghost<int>,
) -> (result: Option<SaveProgress>)
    requires
        0 <= n < objects.len(),
        objects[n] == *blob,
        counted(start, objects, n, *restored, progress),
    ensures
        match result {
            Some(progress) => counted(start, objects, n + 1, *restored, progress),
            None => !counters_fit(start, new_objects(objects, *restored)),
        },
{
    proof {
        let prefix = objects.subrange(0, n);
        assert(objects.subrange(0, n + 1) =~= prefix.push(*blob));
        lemma_new_objects_push(prefix, *blob, *restored);
        lemma_total_bytes_push(new_objects(prefix, *restored), *blob);
        lemma_uploads_of_prefix(objects, n + 1, *restored);
    }
    if restored.contains_file(&blob.key) {
        return Some(progress);
    }
    match (
        progress.uploaded_files.checked_add(1),
        progress.uploaded_bytes.checked_add(blob.contents.len() as u64),
    ) {
        (Some(uploaded_files), Some(uploaded_bytes)) => Some(
            SaveProgress { uploaded_files, uploaded_bytes, ..progress },
        ),
        _ => None,
    }
}

/// The first `n` of the objects fit the counters, and `progress` counts those that did
/// not come from the cache.
spec fn counted(
    start: SaveProgress,
    objects: Seq<Blob>,
    n: int,
    restored: Restored,
    progress: SaveProgress,
) -> bool {
    &&& counters_fit(start, new_objects(objects.subrange(0, n), restored))
    &&& progress == with_uploads(start, new_objects(objects.subrange(0, n), restored))
}

/// The counters after the objects of the files were counted, unless one of them would
/// overflow.
fn count_files(
    progress: SaveProgress,
    restored: &Restored,
    files: &Vec<OutputFile>,
    Ghost(start): Ghost<SaveProgress>,
    Ghost(objects): Ghost<Seq<Blob>>,
) -> (result: Option<SaveProgress>)
    requires
        file_objects(files@).is_prefix_of(objects),
        counted(start, objects, 0, *restored, progress),
    ensures
        match result {
            Some(progress) => counted(start, objects, files@.len() as int, *restored, progress),
            None => !counters_fit(start, new_objects(objects, *restored)),
        },
{
    let mut progress = progress;
    let mut i: usize = 0;
    while i < files.len()
        invariant
            i <= files@.len(),
            file_objects(files@).is_prefix_of(objects),
            counted(start, objects, i as int, *restored, progress),
        decreases files@.len() - i,
    {
        assert(objects[i as int] == files@[i as int].blob) by {
            assert(file_objects(files@)[i as int] == objects.subrange(0, files@.len() as int)[i as int]);
        }
        progress = match count_object(
            progress,
            restored,
            &files[i].blob,
            Ghost(start),
            Ghost(objects),
            Ghost(i as int),
        ) {
            Some(progress) => progress,
            None => {
                return None;
            },
        };
        i = i + 1;
    }
    Some(progress)
}

/// Whether the progress counters can take the objects of a unit.
pub fn counters_take(progress: &SaveProgress, restored: &Restored, files: &UnitFiles) -> (result:
    bool)
    ensures
        result == counters_fit(*progress, new_objects(unit_objects(*files), *restored)),
{
    let ghost start = *progress;
    let ghost objects = unit_objects(*files);
    proof {
        assert(objects.subrange(0, 0) =~= Seq::empty());
        assert(new_objects(Seq::empty(), *restored) =~= Seq::empty()) by {
            reveal(Seq::filter);
        }
        assert(with_uploads(start, Seq::empty()) == start);
        assert(objects.subrange(0, objects.len() as int) =~= objects);
    }
    let (many, n, blobs): (Option<SaveProgress>, Ghost<int>, Vec<&Blob>) = match files {
        UnitFiles::LibraryCrate { output_files, dep_info_file, encoded_dep_info_file } => {
            assert(objects.subrange(0, output_files@.len() as int) =~= file_objects(
                output_files@,
            ));
            (
                count_files(*progress, restored, output_files, Ghost(start), Ghost(objects)),
                Ghost(output_files@.len() as int),
                vec![dep_info_file, encoded_dep_info_file],
            )
        },
        UnitFiles::BuildScriptCompilation {
            compiled_program,
            dep_info_file,
            encoded_dep_info_file,
        } => (
            Some(*progress),
            Ghost(0),
            vec![compiled_program, dep_info_file, encoded_dep_info_file],
        ),
        UnitFiles::BuildScriptExecution { out_dir_files, stdout, stderr } => {
            assert(objects.subrange(0, out_dir_files@.len() as int) =~= file_objects(
                out_dir_files@,
            ));
            (
                count_files(*progress, restored, out_dir_files, Ghost(start), Ghost(objects)),
                Ghost(out_dir_files@.len() as int),
                vec![stdout, stderr],
            )
        },
    };
    let mut counters = match many {
        Some(counters) => counters,
        None => {
            return false;
        },
    };
    let mut i: usize = 0;
    while i < blobs.len()
        invariant
            i <= blobs@.len(),
            start == *progress,
            objects == unit_objects(*files),
            n@ + blobs@.len() == objects.len(),
            n@ >= 0,
            forall|j: int| 0 <= j < blobs@.len() ==> objects[n@ + j] == *#[trigger] blobs@[j],
            counted(start, objects, n@ + i, *restored, counters),
        decreases blobs@.len() - i,
    {
        counters = match count_object(
            counters,
            restored,
            blobs[i],
            Ghost(start),
            Ghost(objects),
            Ghost(n@ + i),
        ) {
            Some(counters) => counters,
            None => {
                return false;
            },
        };
        i = i + 1;
    }
    true
}

} // verus!
