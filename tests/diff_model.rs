use zfs_backup::config::ENCRYPTION_CHUNK_SIZE;
use zfs_backup::diff_entry::{DiffEntry, DiffType, FileMetaData, FileType};
use zfs_backup::diff_prepare::{first_backup_entry, relative_to_mount, with_metadata};
use zfs_backup::optimize::optimize_diff_entries;
use zfs_backup::zfs_diff::{parse_diff_line, parse_zfs_diff_output, DiffError};

#[test]
fn encryption_chunk_size_is_multiple_of_64() {
    assert_eq!(ENCRYPTION_CHUNK_SIZE % 64, 0);
}

#[test]
fn parse_zfs_diff() {
    let parsed_diff = parse_zfs_diff_output(
        [
            "+\tF\t/mnt/long-term-files/created_after_snapshot_0.txt",
            "M\t/\t/mnt/long-term-files/",
            "R\tF\t/mnt/long-term-files/file with spaces.txt\t/mnt/long-term-files/moved after snapshot 2.txt",
            "+\t/\t/mnt/long-term-files/folder",
            "+\t/\t/mnt/long-term-files/folder/<xattrdir>",
            "+\tF\t/mnt/long-term-files/folder/<xattrdir>/system.posix_acl_default",
        ]
        .join("\n")
        .as_bytes()
        .to_vec(),
    )
    .unwrap();
    let expected = vec![
        DiffEntry {
            path: "/mnt/long-term-files/created_after_snapshot_0.txt".into(),
            file_type: FileType::RegularFile,
            diff_type: DiffType::Created(()),
        },
        DiffEntry {
            path: "/mnt/long-term-files/".into(),
            file_type: FileType::Directory,
            diff_type: DiffType::Modified(()),
        },
        DiffEntry {
            path: "/mnt/long-term-files/file with spaces.txt".into(),
            file_type: FileType::RegularFile,
            diff_type: DiffType::Renamed("/mnt/long-term-files/moved after snapshot 2.txt".into()),
        },
        DiffEntry {
            path: "/mnt/long-term-files/folder".into(),
            file_type: FileType::Directory,
            diff_type: DiffType::Created(()),
        },
    ];
    assert_eq!(parsed_diff, expected);
}

#[test]
fn parse_line_errors() {
    assert_eq!(parse_diff_line(b"+\tF"), Err(DiffError::BadDiffFormat));
    assert_eq!(parse_diff_line(b"X\tF\t/a"), Err(DiffError::BadDiffFormat));
    assert_eq!(parse_diff_line(b"R\tF\t/a"), Err(DiffError::BadDiffFormat));
    assert_eq!(parse_diff_line(b"+\t@\t/a"), Err(DiffError::UnsupportedKind));
    assert_eq!(parse_diff_line(b"+\tQ\t/a"), Err(DiffError::BadDiffFormat));
    assert_eq!(parse_diff_line(b"-\tF\t/a/<xattrdir>/x"), Ok(None));
    assert_eq!(
        DiffEntry::from_zfs_diff_line("-\tF\t/a/b"),
        Ok(Some(DiffEntry {
            path: "/a/b".into(),
            file_type: FileType::RegularFile,
            diff_type: DiffType::Removed
        }))
    );
}

#[test]
fn parse_output_stops_at_first_bad_line() {
    let out = b"+\tF\t/m/a\nbad\n+\t@\t/m/c\n".to_vec();
    assert_eq!(parse_zfs_diff_output(out), Err(DiffError::BadDiffFormat));
    assert_eq!(parse_zfs_diff_output(Vec::new()), Ok(Vec::new()));
}

#[test]
fn paths_relative_to_mount() {
    let e = DiffEntry {
        path: b"/mnt/data/dir/file".to_vec(),
        file_type: FileType::RegularFile,
        diff_type: DiffType::Renamed(b"/mnt/data/other".to_vec()),
    };
    let r = relative_to_mount(e, b"/mnt/data").unwrap();
    assert_eq!(r.path, b"dir/file".to_vec());
    assert_eq!(r.diff_type, DiffType::<()>::Renamed(b"other".to_vec()));
    let root = DiffEntry {
        path: b"/mnt/data/".to_vec(),
        file_type: FileType::Directory,
        diff_type: DiffType::Modified(()),
    };
    assert_eq!(relative_to_mount(root, b"/mnt/data").unwrap().path, Vec::<u8>::new());
    let outside = DiffEntry {
        path: b"/mnt/database/x".to_vec(),
        file_type: FileType::RegularFile,
        diff_type: DiffType::Removed::<()>,
    };
    assert_eq!(relative_to_mount(outside, b"/mnt/data"), Err(DiffError::PathEscapesMount));
}

fn meta(len: u64) -> FileMetaData {
    FileMetaData { accessed: None, created: None, modified: None, len }
}

#[test]
fn metadata_is_attached_to_changed_files() {
    let file = DiffEntry { path: b"a".to_vec(), file_type: FileType::RegularFile, diff_type: DiffType::Modified(()) };
    assert_eq!(with_metadata(file.clone(), None), Err(DiffError::StatFailed));
    assert_eq!(with_metadata(file, Some(meta(3))).unwrap().diff_type, DiffType::Modified(Some(meta(3))));
    let dir = DiffEntry { path: b"d".to_vec(), file_type: FileType::Directory, diff_type: DiffType::Created(()) };
    assert_eq!(with_metadata(dir, Some(meta(3))).unwrap().diff_type, DiffType::Created(None));
    assert_eq!(first_backup_entry(b"s".to_vec(), false, false, None), Err(DiffError::UnsupportedKind));
    assert_eq!(
        first_backup_entry(b"f".to_vec(), true, false, Some(meta(1))).unwrap().diff_type,
        DiffType::Created(Some(meta(1)))
    );
}

#[test]
fn remove_modified_folder() {
    let folder_diff_entry = DiffEntry {
        path: "folder".into(),
        file_type: FileType::Directory,
        diff_type: DiffType::Modified(()),
    };
    let file_diff_entry = DiffEntry {
        path: "folder/file".into(),
        file_type: FileType::RegularFile,
        diff_type: DiffType::Created(()),
    };
    let mut diff_entries = [folder_diff_entry.clone(), file_diff_entry.clone()].to_vec();
    optimize_diff_entries(&mut diff_entries);
    assert_eq!(diff_entries, vec![file_diff_entry])
}

#[test]
fn remove_created_folder() {
    let folder_diff_entry = DiffEntry {
        path: "folder".into(),
        file_type: FileType::Directory,
        diff_type: DiffType::Created(()),
    };
    let file_diff_entry = DiffEntry {
        path: "folder/file".into(),
        file_type: FileType::RegularFile,
        diff_type: DiffType::Created(()),
    };
    let mut diff_entries = [folder_diff_entry.clone(), file_diff_entry.clone()].to_vec();
    optimize_diff_entries(&mut diff_entries);
    assert_eq!(diff_entries, vec![file_diff_entry])
}

#[test]
fn preserve_empty_created_folders() {
    let folder_diff_entry = DiffEntry {
        path: "folder".into(),
        file_type: FileType::Directory,
        diff_type: DiffType::Created(()),
    };
    let mut diff_entries = [folder_diff_entry.clone()].to_vec();
    optimize_diff_entries(&mut diff_entries);
    assert_eq!(diff_entries, vec![folder_diff_entry])
}

#[test]
fn remove_deleted_files_in_folder() {
    let folder_diff_entry = DiffEntry {
        path: "folder".into(),
        file_type: FileType::Directory,
        diff_type: DiffType::Removed,
    };
    let file_diff_entry = DiffEntry {
        path: "folder/file".into(),
        file_type: FileType::RegularFile,
        diff_type: DiffType::Removed,
    };
    let mut diff_entries = [folder_diff_entry.clone(), file_diff_entry.clone()].to_vec();
    optimize_diff_entries::<()>(&mut diff_entries);
    assert_eq!(diff_entries, vec![folder_diff_entry])
}

#[test]
fn removes_files_when_folder_is_not_removed() {
    let file_diff_entry = DiffEntry {
        path: "folder/file".into(),
        file_type: FileType::RegularFile,
        diff_type: DiffType::Removed,
    };
    let mut diff_entries = [file_diff_entry.clone()].to_vec();
    optimize_diff_entries::<()>(&mut diff_entries);
    assert_eq!(diff_entries, vec![file_diff_entry])
}

#[test]
fn removes_two_files() {
    let file_0_diff_entry = DiffEntry {
        path: "file".into(),
        file_type: FileType::RegularFile,
        diff_type: DiffType::Removed,
    };
    let file_1_diff_entry = DiffEntry {
        path: "file_more_name".into(),
        file_type: FileType::RegularFile,
        diff_type: DiffType::Removed,
    };
    let mut diff_entries = [file_0_diff_entry.clone(), file_1_diff_entry.clone()].to_vec();
    optimize_diff_entries::<()>(&mut diff_entries);
    assert_eq!(diff_entries, vec![file_0_diff_entry, file_1_diff_entry])
}

fn entry(path: &str, file_type: FileType, diff_type: DiffType<()>) -> DiffEntry<()> {
    DiffEntry { path: path.into(), file_type, diff_type }
}

#[test]
fn deleted_directory_collapses_to_one_entry() {
    let mut d = vec![
        entry("dir/b", FileType::RegularFile, DiffType::Removed),
        entry("dir", FileType::Directory, DiffType::Removed),
        entry("dir/a", FileType::RegularFile, DiffType::Removed),
    ];
    optimize_diff_entries(&mut d);
    assert_eq!(d, vec![entry("dir", FileType::Directory, DiffType::Removed)]);
}

#[test]
fn optimizer_sorts_and_is_idempotent() {
    let mut d = vec![
        entry("b/x", FileType::RegularFile, DiffType::Created(())),
        entry("b", FileType::Directory, DiffType::Created(())),
        entry("a-c", FileType::Directory, DiffType::Created(())),
        entry("a", FileType::Directory, DiffType::Created(())),
        entry("a/sub", FileType::Directory, DiffType::Modified(())),
        entry("z", FileType::Directory, DiffType::Removed),
        entry("z/s/f", FileType::RegularFile, DiffType::Removed),
    ];
    optimize_diff_entries(&mut d);
    let expected = vec![
        entry("a-c", FileType::Directory, DiffType::Created(())),
        entry("b/x", FileType::RegularFile, DiffType::Created(())),
        entry("z", FileType::Directory, DiffType::Removed),
    ];
    assert_eq!(d, expected);
    let mut again = d.clone();
    optimize_diff_entries(&mut again);
    assert_eq!(again, d);
}

#[test]
fn map_replaces_payload() {
    let e = entry("f", FileType::RegularFile, DiffType::Created(()));
    let m = e.map(|()| 7u8);
    assert_eq!(m.diff_type, DiffType::Created(7u8));
    assert_eq!(m.diff_type.content_data(), Some(&7u8));
    let r: DiffType<()> = DiffType::Removed;
    assert_eq!(r.map(|()| 1u8), DiffType::Removed);
}

#[test]
fn deleted_directory_tree_collapses_to_its_top() {
    let mut d = vec![
        entry("folder/sub/f", FileType::RegularFile, DiffType::Removed),
        entry("folder/a", FileType::RegularFile, DiffType::Removed),
        entry("folder", FileType::Directory, DiffType::Removed),
        entry("folder/sub", FileType::Directory, DiffType::Removed),
        entry("folder/b", FileType::RegularFile, DiffType::Removed),
        entry("folder2", FileType::RegularFile, DiffType::Removed),
    ];
    optimize_diff_entries(&mut d);
    assert_eq!(
        d,
        vec![
            entry("folder", FileType::Directory, DiffType::Removed),
            entry("folder2", FileType::RegularFile, DiffType::Removed),
        ]
    );
}

#[test]
fn output_that_is_not_utf8_is_refused() {
    assert_eq!(parse_zfs_diff_output(vec![b'+', b'\t', b'F', b'\t', 0xff, b'\n']), Err(DiffError::InvalidUtf8));
}
