use zfs_backup::backup_steps::{
    append_snapshot, commit_backup, complete_part, diff_step, part_stored, plan_upload,
    start_backup, BackupData, BackupStep, BackupStepDiff, BackupStepUpload, PartPlan,
    RetryStepOutput, StartError,
};
use zfs_backup::cipher::Rechunker;
use zfs_backup::config::MAX_OBJECT_SIZE;
use zfs_backup::diff_entry::{DiffEntry, DiffType, FileMetaData, FileType, Timestamp};
use zfs_backup::geometry::{encrypted_resume_point, part_len, stream_nonce, total_parts, upload_size, GeometryError, NonceError};
use zfs_backup::naming::{hex_lower, part_object_key, zfs_get_snapshot_path};
use zfs_backup::record::{decode_record, encode_record, snapshot_stream_size};
use zfs_backup::upload_stream::{snapshot_upload_stream, StreamPiece};
use zfs_backup::varint::{decode_varint, encode_varint, varint_len};

fn meta(len: u64) -> FileMetaData {
    FileMetaData { accessed: None, created: None, modified: None, len }
}

fn file(path: &str, len: u64) -> DiffEntry<Option<FileMetaData>> {
    DiffEntry { path: path.into(), file_type: FileType::RegularFile, diff_type: DiffType::Created(Some(meta(len))) }
}

#[test]
fn varint_boundaries() {
    let cases: Vec<(u64, Vec<u8>)> = vec![
        (0, vec![0x00]),
        (1, vec![0x01]),
        (127, vec![0x7f]),
        (128, vec![0x80, 0x01]),
        (16383, vec![0xff, 0x7f]),
        (16384, vec![0x80, 0x80, 0x01]),
        (1 << 32, vec![0x80, 0x80, 0x80, 0x80, 0x10]),
        ((1 << 63) - 1, vec![0xff, 0xff, 0xff, 0xff, 0xff, 0xff, 0xff, 0xff, 0x7f]),
    ];
    for (n, bytes) in cases {
        assert_eq!(encode_varint(n), bytes);
        assert_eq!(varint_len(n), bytes.len() as u64);
        assert_eq!(decode_varint(&bytes, 0), Some((n, bytes.len())));
    }
    assert_eq!(encode_varint(u64::MAX).len(), 10);
    assert_eq!(decode_varint(&vec![0x80, 0x00], 0), None);
    assert_eq!(decode_varint(&vec![0x80], 0), None);
}

#[test]
fn record_bytes() {
    let e = DiffEntry {
        path: b"a.txt".to_vec(),
        file_type: FileType::RegularFile,
        diff_type: DiffType::Created(Some(FileMetaData {
            accessed: Some(Timestamp { secs_since_epoch: 300, nanos_since_epoch: 5 }),
            created: None,
            modified: None,
            len: 11,
        })),
    };
    assert_eq!(
        encode_record(&e),
        vec![5, b'a', b'.', b't', b'x', b't', 1, 1, 1, 1, 0xac, 0x02, 5, 0, 0, 11]
    );
    let r: DiffEntry<Option<FileMetaData>> = DiffEntry {
        path: b"x".to_vec(),
        file_type: FileType::Directory,
        diff_type: DiffType::Renamed(b"yz".to_vec()),
    };
    assert_eq!(encode_record(&r), vec![1, b'x', 0, 3, 2, b'y', b'z']);
}

#[test]
fn first_backup_of_one_small_file() {
    let diff = vec![file("a.txt", 11)];
    let rec = encode_record(&diff[0]);
    let plain = snapshot_stream_size(&diff).unwrap();
    assert_eq!(plain, varint_len(rec.len() as u64) + rec.len() as u64 + 11);
    let step = BackupStepUpload { snapshot_name: "snap0".into(), diff: diff.clone(), uploaded_objects: 0 };
    let plan = plan_upload(&step, false, false).unwrap();
    assert_eq!(plan.total_parts, 1);
    assert_eq!(plan.next_part, Some(PartPlan { part_index: 0, offset: 0, len: plain }));
    let pieces = snapshot_upload_stream(&diff, 0);
    let mut head = encode_varint(rec.len() as u64);
    head.extend_from_slice(&rec);
    assert_eq!(pieces, vec![StreamPiece::Bytes(head), StreamPiece::FileRange { entry: 0, offset: 0, len: 11 }]);
    match complete_part(step, plan.total_parts) {
        BackupStep::UpdateHotData(h) => assert_eq!(h.snapshot_name, "snap0"),
        _ => panic!("expected the hot metadata step"),
    }
    assert_eq!(append_snapshot(&vec![], &"snap0".to_string()), Some(vec!["snap0".to_string()]));
    let data = BackupData { s3_bucket: "b".into(), s3_region: "r".into(), last_saved_snapshot_name: None, backup_step: None };
    let done = commit_backup(data, Some("snap0".into()));
    assert_eq!(done.last_saved_snapshot_name, Some("snap0".to_string()));
    assert!(done.backup_step.is_none());
}

fn expand(pieces: &[StreamPiece], bodies: &[Vec<u8>]) -> Vec<u8> {
    let mut out = Vec::new();
    for p in pieces {
        match p {
            StreamPiece::Bytes(b) => out.extend_from_slice(b),
            StreamPiece::FileRange { entry, offset, len } => {
                out.extend_from_slice(&bodies[*entry][*offset as usize..(*offset + *len) as usize])
            }
        }
    }
    out
}

#[test]
fn skipped_stream_is_a_suffix() {
    let diff = vec![
        file("a", 5),
        DiffEntry { path: b"d".to_vec(), file_type: FileType::Directory, diff_type: DiffType::Created(None) },
        file("b", 3),
    ];
    let bodies = vec![b"AAAAA".to_vec(), Vec::new(), b"BBB".to_vec()];
    let full = expand(&snapshot_upload_stream(&diff, 0), &bodies);
    let size = snapshot_stream_size(&diff).unwrap();
    assert_eq!(full.len() as u64, size);
    for k in 0..=size + 2 {
        let part = expand(&snapshot_upload_stream(&diff, k), &bodies);
        let expected: Vec<u8> = full.iter().skip(k as usize).cloned().collect();
        assert_eq!(part, expected, "skip {}", k);
    }
}

#[test]
fn crash_during_upload_resumes_with_same_parts() {
    let diff = vec![file("a", 4_000_000_000), file("b", 4_000_000_000), file("c", 4_000_000_000)];
    let step = BackupStepUpload { snapshot_name: "s".into(), diff: diff.clone(), uploaded_objects: 0 };
    let plan = plan_upload(&step, false, false).unwrap();
    assert_eq!(plan.total_parts, 3);
    let after_crash = match complete_part(step, plan.total_parts) {
        BackupStep::Upload(u) => u,
        _ => panic!("expected the upload step"),
    };
    assert_eq!(after_crash.uploaded_objects, 1);
    let resumed = plan_upload(&after_crash, false, false).unwrap();
    let part = resumed.next_part.unwrap();
    assert_eq!(part.part_index, 1);
    assert_eq!(part.offset, MAX_OBJECT_SIZE);
    assert_eq!(part.len, MAX_OBJECT_SIZE);
    let pieces = snapshot_upload_stream(&diff, part.offset);
    let rec_len = encode_record(&diff[0]).len() as u64 + 1;
    match &pieces[0] {
        StreamPiece::FileRange { entry, offset, len } => {
            assert_eq!(*entry, 1);
            assert_eq!(*offset, MAX_OBJECT_SIZE - (rec_len + 4_000_000_000) - rec_len);
            assert_eq!(*offset + *len, 4_000_000_000);
        }
        other => panic!("unexpected piece {:?}", other),
    }
    assert_eq!(part_len(plan.stream_size, 2), plan.stream_size - 2 * MAX_OBJECT_SIZE);
}

#[test]
fn file_of_exactly_object_size_needs_two_parts() {
    let diff = vec![file("big", MAX_OBJECT_SIZE)];
    let size = snapshot_stream_size(&diff).unwrap();
    assert!(size > MAX_OBJECT_SIZE);
    assert_eq!(total_parts(size, false), 2);
    assert_eq!(total_parts(MAX_OBJECT_SIZE, false), 1);
}

#[test]
fn empty_stream_parts() {
    assert_eq!(total_parts(0, true), 1);
    assert_eq!(total_parts(0, false), 0);
    assert_eq!(part_len(0, 0), 0);
    let step = BackupStepUpload { snapshot_name: "s".into(), diff: Vec::new(), uploaded_objects: 0 };
    let with = plan_upload(&step, true, true).unwrap();
    assert_eq!(with.next_part, Some(PartPlan { part_index: 0, offset: 0, len: 0 }));
    let without = plan_upload(&step, true, false).unwrap();
    assert_eq!(without.total_parts, 0);
    assert_eq!(without.next_part, None);
}

#[test]
fn encrypted_size_adds_a_tag_per_chunk() {
    assert_eq!(upload_size(0, true), Some(0));
    assert_eq!(upload_size(1, true), Some(17));
    assert_eq!(upload_size(10_000_000, true), Some(10_000_016));
    assert_eq!(upload_size(10_000_001, true), Some(10_000_033));
    assert_eq!(upload_size(10_000_001, false), Some(10_000_001));
    assert_eq!(upload_size(u64::MAX, true), None);
}

#[test]
fn resume_geometry() {
    assert_eq!(encrypted_resume_point(0), Ok((0, 0)));
    assert_eq!(encrypted_resume_point(1), Err(GeometryError::IncompatibleChunkGeometry));
    assert_eq!(encrypted_resume_point(10_000_016), Ok((5_000_000_000 * 10_000_000, 5_000_000_000)));
}

#[test]
fn nonces() {
    assert_eq!(stream_nonce(0), Ok(vec![0; 7]));
    assert_eq!(stream_nonce(258), Ok(vec![0, 0, 0, 0, 0, 1, 2]));
    assert_eq!(stream_nonce((1 << 56) - 1), Ok(vec![0xff; 7]));
    assert_eq!(stream_nonce(1 << 56), Err(NonceError::NonceExhausted));
}

#[test]
fn no_changes_and_empty_not_allowed_is_a_no_op() {
    let step = BackupStepDiff { snapshot_name: "s".into(), allow_empty: false };
    assert!(matches!(diff_step(step, Vec::new()), RetryStepOutput::Finished(None)));
    let allowed = BackupStepDiff { snapshot_name: "s".into(), allow_empty: true };
    match diff_step(allowed, Vec::new()) {
        RetryStepOutput::NotFinished(BackupStep::Upload(u)) => {
            assert_eq!(u.uploaded_objects, 0);
            assert!(u.diff.is_empty());
        }
        _ => panic!("expected the upload step"),
    }
}

#[test]
fn duplicate_snapshot_name_is_refused() {
    let committed = vec!["snapA".to_string()];
    assert_eq!(start_backup("snapA".into(), false, &committed).err(), Some(StartError::DuplicateSnapshotName));
    match start_backup("snapB".into(), true, &committed) {
        Ok(BackupStep::Diff(d)) => {
            assert_eq!(d.snapshot_name, "snapB");
            assert!(d.allow_empty);
        }
        _ => panic!("expected the diff step"),
    }
}

#[test]
fn committing_twice_changes_nothing() {
    let names = vec!["a".to_string(), "s".to_string()];
    assert_eq!(append_snapshot(&names, &"s".to_string()), None);
    assert_eq!(append_snapshot(&names, &"a".to_string()), Some(vec!["a".to_string(), "s".to_string(), "a".to_string()]));
    let data = BackupData { s3_bucket: "b".into(), s3_region: "r".into(), last_saved_snapshot_name: Some("a".into()), backup_step: None };
    let once = commit_backup(data, Some("s".into()));
    let twice = commit_backup(once.clone(), Some("s".into()));
    assert_eq!(twice.last_saved_snapshot_name, once.last_saved_snapshot_name);
    assert!(twice.backup_step.is_none());
    let unchanged = commit_backup(once, None);
    assert_eq!(unchanged.last_saved_snapshot_name, Some("s".to_string()));
}

#[test]
fn precondition_failed_counts_as_stored() {
    assert!(part_stored(None));
    assert!(part_stored(Some(412)));
    assert!(!part_stored(Some(500)));
}

#[test]
fn keys_and_paths() {
    assert_eq!(part_object_key(b"snapX", 12), b"snapshots/snapX/12".to_vec());
    assert_eq!(hex_lower(&[0x00, 0xab, 0x7f]), b"00ab7f".to_vec());
    assert_eq!(zfs_get_snapshot_path(b"/mnt/data".to_vec(), "s1"), b"/mnt/data/.zfs/snapshot/s1".to_vec());
    assert_eq!(zfs_get_snapshot_path(b"/".to_vec(), "s1"), b"/.zfs/snapshot/s1".to_vec());
}

#[test]
fn rechunker_hands_out_exact_pieces() {
    let mut r = Rechunker::new();
    r.push(b"hello ");
    r.push(b"world");
    assert_eq!(r.len(), 11);
    assert_eq!(r.take(4), b"hell".to_vec());
    assert_eq!(r.take(0), Vec::<u8>::new());
    assert_eq!(r.take(100), b"o world".to_vec());
    assert_eq!(r.len(), 0);
}

#[test]
fn records_parse_back() {
    let entries: Vec<DiffEntry<Option<FileMetaData>>> = vec![
        DiffEntry {
            path: b"dir/f".to_vec(),
            file_type: FileType::RegularFile,
            diff_type: DiffType::Modified(Some(FileMetaData {
                accessed: Some(Timestamp { secs_since_epoch: 1_700_000_000, nanos_since_epoch: 999_999_999 }),
                created: Some(Timestamp { secs_since_epoch: 0, nanos_since_epoch: 0 }),
                modified: None,
                len: u64::MAX,
            })),
        },
        DiffEntry { path: Vec::new(), file_type: FileType::Directory, diff_type: DiffType::Removed },
        DiffEntry { path: b"d".to_vec(), file_type: FileType::Directory, diff_type: DiffType::Created(None) },
        DiffEntry { path: b"x".to_vec(), file_type: FileType::RegularFile, diff_type: DiffType::Renamed(b"y".to_vec()) },
    ];
    for e in entries {
        let bytes = encode_record(&e);
        let parsed = decode_record(&bytes).unwrap();
        assert_eq!(parsed, e);
        assert_eq!(encode_record(&parsed), bytes);
    }
    assert_eq!(decode_record(&vec![1, b'x', 0, 0, 7]), None);
    assert_eq!(decode_record(&vec![1, b'x', 2, 0]), None);
    assert_eq!(decode_record(&vec![0x81, 0x00, b'x', 0, 0]), None);
    assert_eq!(decode_record(&vec![1, b'x', 1, 1, 1, 1, 0, 0x80, 0x80, 0x80, 0x80, 0x10, 0, 0, 0]), None);
}

#[test]
fn oversized_stream_is_refused() {
    let step = BackupStepUpload {
        snapshot_name: "s".into(),
        diff: vec![file("a", u64::MAX)],
        uploaded_objects: 0,
    };
    assert_eq!(plan_upload(&step, false, false), Err(zfs_backup::backup_steps::UploadError::SizeOverflow));
    assert_eq!(snapshot_stream_size(&step.diff), None);
}
