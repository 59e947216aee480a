use vstd::prelude::*;

use crate::config::MAX_OBJECT_SIZE;
use crate::diff_entry::{entries_view, DiffEntry, FileMetaData};
use crate::geometry::{
    part_len, part_len_spec, total_parts, total_parts_spec, upload_size, upload_size_spec,
};
use crate::optimize::{optimize_diff_entries, optimize_spec};
use crate::record::{snapshot_stream_size, stream_size};
use crate::upload_stream::{bodies_fit, full_stream, lemma_full_stream_len, stream_from};
use crate::diff_entry::DiffEntryView;

verus! {

/// First step of a run: compute the change-set of the snapshot.
#[derive(Debug, Clone)]
pub struct BackupStepDiff {
    pub snapshot_name: String,
    pub allow_empty: bool,
}

/// Second step: upload the parts of the snapshot stream.
#[derive(Debug, Clone)]
pub struct BackupStepUpload {
    pub snapshot_name: String,
    pub diff: Vec<DiffEntry<Option<FileMetaData>>>,
    pub uploaded_objects: u64,
}

/// Last step: record the snapshot in the hot metadata.
#[derive(Debug, Clone)]
pub struct BackupStepUpdateHotData {
    pub snapshot_name: String,
}

/// Where a backup run stands; saved after every step.
#[derive(Debug, Clone)]
pub enum BackupStep {
    Diff(BackupStepDiff),
    Upload(BackupStepUpload),
    UpdateHotData(BackupStepUpdateHotData),
}

/// A run of one snapshot and its step.
#[derive(Debug, Clone)]
pub struct BackupState {
    pub snapshot_name: String,
    pub stage: BackupStep,
}

/// What is kept on local disk between runs.
#[derive(Debug, Clone)]
pub struct BackupData {
    pub s3_bucket: String,
    pub s3_region: String,
    pub last_saved_snapshot_name: Option<String>,
    pub backup_step: Option<BackupStep>,
}

/// The outcome of a step whose whole state is saved.
#[derive(Debug, Clone, Copy)]
pub enum RetryStepOutput<State, Output> {
    NotFinished(State),
    Finished(Output),
}

impl BackupStepDiff {
    /// The upload step of the change-set, with no part uploaded yet.
    pub fn next(self, diff: Vec<DiffEntry<Option<FileMetaData>>>) -> (r: BackupStep)
        ensures
            r matches BackupStep::Upload(u) && u.snapshot_name == self.snapshot_name && u.diff
                == diff && u.uploaded_objects == 0,
    {
        BackupStep::Upload(
            BackupStepUpload { snapshot_name: self.snapshot_name, diff, uploaded_objects: 0 },
        )
    }
}

impl BackupStepUpload {
    /// The step that records the snapshot.
    pub fn next(self) -> (r: BackupStep)
        ensures
            r matches BackupStep::UpdateHotData(h) && h.snapshot_name == self.snapshot_name,
    {
        BackupStep::UpdateHotData(BackupStepUpdateHotData { snapshot_name: self.snapshot_name })
    }
}

/// Why a run cannot start.
#[derive(Debug, Clone, Copy, PartialEq, Eq, Structural)]
pub enum StartError {
    /// The hot metadata already lists a snapshot of that name.
    DuplicateSnapshotName,
}

/// The views of a list of names.
pub open spec fn names_view(v: Seq<String>) -> Seq<Seq<char>> {
    v.map_values(|s: String| s@)
}

/// The first step of a run for `snapshot_name`, unless `committed` (the names
/// in the hot metadata) already holds it.
pub fn start_backup(snapshot_name: String, allow_empty: bool, committed: &Vec<String>) -> (r:
    Result<BackupStep, StartError>)
    ensures
        match r {
            Ok(s) => s matches BackupStep::Diff(d) && d.snapshot_name == snapshot_name
                && d.allow_empty == allow_empty && !names_view(committed@).contains(snapshot_name@),
            Err(e) => e == StartError::DuplicateSnapshotName && names_view(committed@).contains(
                snapshot_name@,
            ),
        },
{
    let mut i: usize = 0;
    while i < committed.len()
        invariant
            i <= committed@.len(),
            forall|k: int| 0 <= k < i ==> committed@[k]@ != snapshot_name@,
        decreases committed@.len() - i,
    {
        if committed[i] == snapshot_name {
            proof {
                assert(names_view(committed@)[i as int] == snapshot_name@);
            }
            return Err(StartError::DuplicateSnapshotName);
        }
        i += 1;
    }
    proof {
        assert forall|k: int| 0 <= k < committed@.len() implies names_view(committed@)[k]
            != snapshot_name@ by {}
    }
    Ok(BackupStep::Diff(BackupStepDiff { snapshot_name, allow_empty }))
}

/// The diff step once the change-set and its metadata are known: the
/// change-set is optimized; an empty one ends the run with no snapshot unless
/// empty backups are allowed, else the upload step follows.
pub fn diff_step(step: BackupStepDiff, diff: Vec<DiffEntry<Option<FileMetaData>>>) -> (r:
    RetryStepOutput<BackupStep, Option<String>>)
    ensures
        optimize_spec(entries_view(diff@)).len() == 0 && !step.allow_empty ==> r
            == RetryStepOutput::<BackupStep, Option<String>>::Finished(None),
        !(optimize_spec(entries_view(diff@)).len() == 0 && !step.allow_empty) ==> (r matches RetryStepOutput::NotFinished(
            BackupStep::Upload(u),
        ) && u.snapshot_name == step.snapshot_name && entries_view(u.diff@) == optimize_spec(
            entries_view(diff@),
        ) && u.uploaded_objects == 0),
{
    let mut diff = diff;
    optimize_diff_entries(&mut diff);
    if diff.len() == 0 && !step.allow_empty {
        RetryStepOutput::Finished(None)
    } else {
        RetryStepOutput::NotFinished(step.next(diff))
    }
}

/// Why the upload step cannot go on.
#[derive(Debug, Clone, Copy, PartialEq, Eq, Structural)]
pub enum UploadError {
    /// The stream is larger than 2^64 - 1 bytes.
    SizeOverflow,
}

/// One part to upload: its index, its offset in the uploaded stream and its
/// length.
#[derive(Debug, Clone, Copy, PartialEq, Eq, Structural)]
pub struct PartPlan {
    pub part_index: u64,
    pub offset: u64,
    pub len: u64,
}

/// Sizes of a snapshot's stream and the next part to upload, if any.
#[derive(Debug, Clone, Copy, PartialEq, Eq, Structural)]
pub struct UploadPlan {
    pub plaintext_size: u64,
    pub stream_size: u64,
    pub total_parts: u64,
    pub next_part: Option<PartPlan>,
}

/// The sizes of the upload step's stream and the part it uploads next.
pub fn plan_upload(step: &BackupStepUpload, encrypted: bool, create_empty_objects: bool) -> (r:
    Result<UploadPlan, UploadError>)
    ensures
        match r {
            Ok(p) => {
                let s = stream_size(entries_view(step.diff@));
                &&& p.plaintext_size == s
                &&& p.stream_size == upload_size_spec(s, encrypted)
                &&& p.total_parts == total_parts_spec(p.stream_size as nat, create_empty_objects)
                &&& match p.next_part {
                    None => step.uploaded_objects >= p.total_parts,
                    Some(part) => {
                        &&& step.uploaded_objects < p.total_parts
                        &&& part.part_index == step.uploaded_objects
                        &&& part.offset == step.uploaded_objects * MAX_OBJECT_SIZE
                        &&& part.len == part_len_spec(p.stream_size as nat, part.part_index as nat)
                    },
                }
            },
            Err(_) => upload_size_spec(stream_size(entries_view(step.diff@)), encrypted) > u64::MAX,
        },
{
    let plain = match snapshot_stream_size(&step.diff) {
        Some(n) => n,
        None => {
            return Err(UploadError::SizeOverflow);
        },
    };
    let size = match upload_size(plain, encrypted) {
        Some(n) => n,
        None => {
            return Err(UploadError::SizeOverflow);
        },
    };
    let total = total_parts(size, create_empty_objects);
    let index = step.uploaded_objects;
    let next_part = if index < total {
        proof {
            assert(total <= size / MAX_OBJECT_SIZE + 1);
            assert(index * MAX_OBJECT_SIZE <= size) by (nonlinear_arith)
                requires
                    index < total,
                    total <= size / 5_000_000_000 + 1,
            ;
        }
        Some(PartPlan { part_index: index, offset: index * MAX_OBJECT_SIZE, len: part_len(size, index) })
    } else {
        None
    };
    Ok(UploadPlan { plaintext_size: plain, stream_size: size, total_parts: total, next_part })
}

/// The upload step after part `uploaded_objects` was stored: the count goes
/// up, and the last part leads to the hot-metadata step.
pub fn complete_part(step: BackupStepUpload, total_parts: u64) -> (r: BackupStep)
    requires
        step.uploaded_objects < total_parts,
    ensures
        step.uploaded_objects + 1 == total_parts ==> (r matches BackupStep::UpdateHotData(h)
            && h.snapshot_name == step.snapshot_name),
        step.uploaded_objects + 1 < total_parts ==> (r matches BackupStep::Upload(u)
            && u.snapshot_name == step.snapshot_name && u.diff == step.diff && u.uploaded_objects
            == step.uploaded_objects + 1),
{
    let n = step.uploaded_objects + 1;
    if n == total_parts {
        step.next()
    } else {
        BackupStep::Upload(
            BackupStepUpload {
                snapshot_name: step.snapshot_name,
                diff: step.diff,
                uploaded_objects: n,
            },
        )
    }
}

/// Status of a refused create-if-absent upload: the object already exists.
pub const PRECONDITION_FAILED: u16 = 412;

/// Whether a part upload counts as done: it succeeded, or it was refused
/// because a run before already stored the part.
pub fn part_stored(error_status: Option<u16>) -> (r: bool)
    ensures
        r == (error_status is None || error_status == Some(PRECONDITION_FAILED)),
{
    match error_status {
        None => true,
        Some(status) => status == PRECONDITION_FAILED,
    }
}

/// The list with `name` appended, or `None` where `name` is already last.
pub open spec fn append_spec(names: Seq<Seq<char>>, name: Seq<char>) -> Option<Seq<Seq<char>>> {
    if names.len() > 0 && names.last() == name {
        None
    } else {
        Some(names.push(name))
    }
}

/// The hot-metadata step: the snapshot list to store, or `None` where the
/// snapshot is already the last one listed.
pub fn append_snapshot(snapshots: &Vec<String>, snapshot_name: &String) -> (r: Option<
    Vec<String>,
>)
    ensures
        match append_spec(names_view(snapshots@), snapshot_name@) {
            None => r is None,
            Some(v) => r matches Some(l) && names_view(l@) == v,
        },
{
    let n = snapshots.len();
    if n > 0 && snapshots[n - 1] == *snapshot_name {
        return None;
    }
    let mut out: Vec<String> = Vec::new();
    let mut i: usize = 0;
    while i < n
        invariant
            n == snapshots@.len(),
            i <= n,
            names_view(out@) == names_view(snapshots@).take(i as int),
        decreases n - i,
    {
        let ghost before = out@;
        let c = snapshots[i].clone();
        assert(c@ == snapshots@[i as int]@);
        out.push(c);
        i += 1;
        proof {
            assert(out@ == before.push(c));
            assert(names_view(out@) =~= names_view(before).push(c@));
            assert(names_view(out@) =~= names_view(snapshots@).take(i as int));
        }
    }
    let ghost before = out@;
    let c = snapshot_name.clone();
    out.push(c);
    proof {
        assert(names_view(out@) =~= names_view(before).push(c@));
        assert(names_view(snapshots@).take(n as int) =~= names_view(snapshots@));
        assert(names_view(out@) =~= names_view(snapshots@).push(snapshot_name@));
    }
    Some(out)
}

/// The local data after a run ended with `output`: no step in progress, and
/// the committed snapshot recorded.
pub open spec fn commit_spec(d: BackupData, output: Option<String>) -> BackupData {
    BackupData {
        backup_step: None,
        last_saved_snapshot_name: match output {
            Some(n) => Some(n),
            None => d.last_saved_snapshot_name,
        },
        ..d
    }
}

/// The local data after a run ended with `output`.
pub fn commit_backup(data: BackupData, output: Option<String>) -> (r: BackupData)
    ensures
        r == commit_spec(data, output),
{
    let last = match output {
        Some(n) => Some(n),
        None => data.last_saved_snapshot_name,
    };
    BackupData {
        s3_bucket: data.s3_bucket,
        s3_region: data.s3_region,
        last_saved_snapshot_name: last,
        backup_step: None,
    }
}

/// Finishing a committed run again changes nothing: the local data has no
/// step left to run and stays as it is, and the hot metadata, which already
/// ends with the snapshot, is not written again.
pub proof fn lemma_commit_idempotent(d: BackupData, names: Seq<Seq<char>>, name: String)
    ensures
        commit_spec(commit_spec(d, Some(name)), Some(name)) == commit_spec(d, Some(name)),
        commit_spec(d, Some(name)).backup_step is None,
        append_spec(names, name@) matches Some(l) ==> append_spec(l, name@) is None,
        append_spec(names, name@) is None ==> names.last() == name@,
{
}

/// The body of part `j` of a stream: its bytes from `j` times the object
/// size on, at most the object size of them.
pub open spec fn part_body(stream: Seq<u8>, j: nat) -> Seq<u8> {
    stream.subrange(
        (j * MAX_OBJECT_SIZE) as int,
        (j * MAX_OBJECT_SIZE + part_len_spec(stream.len(), j)) as int,
    )
}

/// A run that resumes at part `k` from the stream rebuilt at byte `k` times
/// the object size draws for each later part `j` the body that an
/// uninterrupted run draws.
pub proof fn lemma_resume_same_parts(
    s: Seq<DiffEntryView<Option<FileMetaData>>>,
    bodies: Seq<Seq<u8>>,
    k: nat,
    j: nat,
)
    requires
        bodies_fit(s, bodies),
        k <= j,
        j * MAX_OBJECT_SIZE <= stream_size(s),
    ensures
        ({
            let resumed = stream_from(s, bodies, k * (MAX_OBJECT_SIZE as nat));
            let off = ((j - k) * MAX_OBJECT_SIZE) as int;
            let len = part_len_spec(stream_size(s), j) as int;
            off + len <= resumed.len() && resumed.subrange(off, off + len) == part_body(
                stream_from(s, bodies, 0),
                j,
            )
        }),
{
    lemma_full_stream_len(s, bodies, s.len() as int);
    assert(s.take(s.len() as int) =~= s);
    let f = full_stream(s, bodies);
    let m = MAX_OBJECT_SIZE as int;
    assert(f.skip(0) =~= f);
    assert((j - k) * m + k * m == j * m && (j - k) * m >= 0 && k * m <= j * m) by (nonlinear_arith)
        requires
            k <= j,
            m > 0,
    ;
    let len = part_len_spec(stream_size(s), j) as int;
    if f.len() <= j * m {
        assert(len == 0);
    } else if f.len() - j * m < m {
        assert(len == f.len() - j * m);
    } else {
        assert(len == m);
    }
    let resumed = f.skip(k * m);
    let off = (j - k) * m;
    assert(resumed.subrange(off, off + len) =~= f.subrange(j * m, j * m + len));
}

/// The stream of a single entry is its length-prefixed record followed by its
/// body, and it fits one part when it is no longer than an object.
pub proof fn lemma_single_entry_stream(e: DiffEntryView<Option<FileMetaData>>, body: Seq<u8>)
    requires
        bodies_fit(seq![e], seq![body]),
    ensures
        full_stream(seq![e], seq![body]) == crate::record::head_spec(e) + body,
        stream_size(seq![e]) == crate::record::head_spec(e).len() + body.len(),
        0 < stream_size(seq![e]) <= MAX_OBJECT_SIZE ==> total_parts_spec(stream_size(seq![e]), false)
            == 1,
{
    let s = seq![e];
    let b = seq![body];
    assert(s.drop_last() =~= Seq::<DiffEntryView<Option<FileMetaData>>>::empty());
    assert(s.last() == e);
    assert(b[0] == body);
    assert(b[s.len() - 1].len() == crate::record::body_len(s[0]));
    assert(stream_size(s.drop_last()) == 0);
    assert(full_stream(s.drop_last(), b) == Seq::<u8>::empty());
    assert(full_stream(s, b) =~= crate::record::head_spec(e) + body);
}

/// A file of exactly the object size fits one part on its own, but with its
/// record in front it takes two.
pub proof fn lemma_object_sized_file_takes_two_parts(e: DiffEntryView<Option<FileMetaData>>)
    requires
        crate::record::body_len(e) == MAX_OBJECT_SIZE,
        crate::record::head_spec(e).len() <= MAX_OBJECT_SIZE,
    ensures
        total_parts_spec(MAX_OBJECT_SIZE as nat, false) == 1,
        stream_size(seq![e]) > MAX_OBJECT_SIZE,
        total_parts_spec(stream_size(seq![e]), false) == 2,
{
    let s = seq![e];
    assert(s.drop_last() =~= Seq::<DiffEntryView<Option<FileMetaData>>>::empty());
    assert(s.last() == e);
    assert(stream_size(s.drop_last()) == 0);
    crate::varint::lemma_varint_len(crate::record::record_spec(e).len());
    let n = stream_size(s);
    assert(n == crate::record::head_spec(e).len() + MAX_OBJECT_SIZE);
    assert(MAX_OBJECT_SIZE < n <= 2 * MAX_OBJECT_SIZE);
    assert(n / (MAX_OBJECT_SIZE as nat) == 1 || n == 2 * MAX_OBJECT_SIZE) by (nonlinear_arith)
        requires
            5_000_000_000 < n <= 10_000_000_000,
    ;
}

/// A stream of more than two and at most three objects' size takes three
/// parts: two full ones and the rest.
pub proof fn lemma_three_parts(size: nat)
    requires
        2 * MAX_OBJECT_SIZE < size <= 3 * MAX_OBJECT_SIZE,
    ensures
        total_parts_spec(size, false) == 3,
        part_len_spec(size, 0) == MAX_OBJECT_SIZE,
        part_len_spec(size, 1) == MAX_OBJECT_SIZE,
        part_len_spec(size, 2) == size - 2 * MAX_OBJECT_SIZE,
{
    assert(size / (MAX_OBJECT_SIZE as nat) == 2 || size == 3 * MAX_OBJECT_SIZE) by (nonlinear_arith)
        requires
            10_000_000_000 < size <= 15_000_000_000,
    ;
}

} // verus!
