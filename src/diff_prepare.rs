use vstd::prelude::*;

use crate::bytes::{copy_from, starts_with};
use crate::diff_entry::{DiffEntry, DiffType, FileMetaData, FileType};
use crate::zfs_diff::{DiffError, SLASH};

verus! {

/// `p` relative to the mount point `m`: the empty path for the mount point
/// itself, `None` for a path outside it.
pub open spec fn strip_mount_spec(p: Seq<u8>, m: Seq<u8>) -> Option<Seq<u8>> {
    let base = if m.len() > 0 && m.last() == SLASH {
        m
    } else {
        m.push(SLASH)
    };
    if p == m || p == base {
        Some(Seq::empty())
    } else if base.len() <= p.len() && p.take(base.len() as int) == base {
        Some(p.skip(base.len() as int))
    } else {
        None
    }
}

fn strip_mount(p: &[u8], m: &[u8]) -> (r: Option<Vec<u8>>)
    ensures
        match strip_mount_spec(p@, m@) {
            Some(q) => r matches Some(v) && v@ == q,
            None => r is None,
        },
{
    let mut base = crate::bytes::copy_bytes(m);
    if !(m.len() > 0 && m[m.len() - 1] == SLASH) {
        base.push(SLASH);
    }
    if crate::bytes::bytes_equal(p, m) || crate::bytes::bytes_equal(p, base.as_slice()) {
        return Some(Vec::new());
    }
    if starts_with(p, base.as_slice()) {
        Some(copy_from(p, base.len()))
    } else {
        None
    }
}

/// The entry with its path, and a rename's target, made relative to the
/// mount point.
pub fn relative_to_mount<T>(entry: DiffEntry<T>, mount: &[u8]) -> (r: Result<DiffEntry<T>, DiffError>)
    ensures
        match strip_mount_spec(entry.path@, mount@) {
            None => r == Err::<DiffEntry<T>, DiffError>(DiffError::PathEscapesMount),
            Some(p) => match entry.diff_type {
                DiffType::Renamed(to) => match strip_mount_spec(to@, mount@) {
                    None => r == Err::<DiffEntry<T>, DiffError>(DiffError::PathEscapesMount),
                    Some(q) => r matches Ok(e) && e.path@ == p && e.file_type == entry.file_type
                        && (e.diff_type matches DiffType::Renamed(t) && t@ == q),
                },
                _ => r matches Ok(e) && e.path@ == p && e.file_type == entry.file_type
                    && e.diff_type == entry.diff_type,
            },
        },
{
    let path = match strip_mount(entry.path.as_slice(), mount) {
        Some(p) => p,
        None => {
            return Err(DiffError::PathEscapesMount);
        },
    };
    let diff_type = match entry.diff_type {
        DiffType::Renamed(to) => match strip_mount(to.as_slice(), mount) {
            Some(q) => DiffType::Renamed(q),
            None => {
                return Err(DiffError::PathEscapesMount);
            },
        },
        other => other,
    };
    Ok(DiffEntry { path, file_type: entry.file_type, diff_type })
}

/// The entry with its content payload resolved: the metadata of a changed
/// regular file, none for a directory. A changed regular file must have
/// metadata.
pub fn with_metadata(entry: DiffEntry<()>, meta: Option<FileMetaData>) -> (r: Result<
    DiffEntry<Option<FileMetaData>>,
    DiffError,
>)
    ensures
        match entry.diff_type {
            DiffType::Removed => r matches Ok(e) && e.path == entry.path && e.file_type
                == entry.file_type && e.diff_type is Removed,
            DiffType::Renamed(to) => r matches Ok(e) && e.path == entry.path && e.file_type
                == entry.file_type && e.diff_type == DiffType::<Option<FileMetaData>>::Renamed(to),
            DiffType::Created(_) | DiffType::Modified(_) => {
                if entry.file_type == FileType::RegularFile && meta is None {
                    r == Err::<DiffEntry<Option<FileMetaData>>, DiffError>(DiffError::StatFailed)
                } else {
                    let m = if entry.file_type == FileType::RegularFile {
                        meta
                    } else {
                        None
                    };
                    r matches Ok(e) && e.path == entry.path && e.file_type == entry.file_type && (
                    e.diff_type == if entry.diff_type is Created {
                        DiffType::Created(m)
                    } else {
                        DiffType::Modified(m)
                    })
                }
            },
        },
{
    let is_file = entry.file_type == FileType::RegularFile;
    let payload = if is_file {
        meta
    } else {
        None
    };
    let diff_type = match entry.diff_type {
        DiffType::Removed => DiffType::Removed,
        DiffType::Renamed(to) => DiffType::Renamed(to),
        DiffType::Created(()) => {
            if is_file && payload.is_none() {
                return Err(DiffError::StatFailed);
            }
            DiffType::Created(payload)
        },
        DiffType::Modified(()) => {
            if is_file && payload.is_none() {
                return Err(DiffError::StatFailed);
            }
            DiffType::Modified(payload)
        },
    };
    Ok(DiffEntry { path: entry.path, file_type: entry.file_type, diff_type })
}

/// The entry of a path found by walking a snapshot for its first backup:
/// everything is created. Only regular files and directories are backed up.
pub fn first_backup_entry(
    path: Vec<u8>,
    is_file: bool,
    is_dir: bool,
    meta: Option<FileMetaData>,
) -> (r: Result<DiffEntry<Option<FileMetaData>>, DiffError>)
    ensures
        is_file && meta is Some ==> (r matches Ok(e) && e.path == path && e.file_type
            == FileType::RegularFile && e.diff_type == DiffType::Created(meta)),
        is_file && meta is None ==> r == Err::<DiffEntry<Option<FileMetaData>>, DiffError>(
            DiffError::StatFailed,
        ),
        !is_file && is_dir ==> (r matches Ok(e) && e.path == path && e.file_type
            == FileType::Directory && e.diff_type == DiffType::<Option<FileMetaData>>::Created(None)),
        !is_file && !is_dir ==> r == Err::<DiffEntry<Option<FileMetaData>>, DiffError>(
            DiffError::UnsupportedKind,
        ),
{
    if is_file {
        if meta.is_none() {
            return Err(DiffError::StatFailed);
        }
        Ok(DiffEntry { path, file_type: FileType::RegularFile, diff_type: DiffType::Created(meta) })
    } else if is_dir {
        Ok(DiffEntry { path, file_type: FileType::Directory, diff_type: DiffType::Created(None) })
    } else {
        Err(DiffError::UnsupportedKind)
    }
}

} // verus!
