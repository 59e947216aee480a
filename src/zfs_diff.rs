use vstd::prelude::*;
use vstd::string::StringSliceAdditionalSpecFns;

use crate::bytes::{
    bytes_views, contains_bytes, contains_spec, copy_bytes, lemma_split_nonempty, split_bytes,
    split_spec,
};
use crate::diff_entry::{entries_view, DiffEntry, DiffEntryView, DiffType, DiffTypeView, FileType};

verus! {

/// Column separator of the diff tool's lines.
pub const TAB: u8 = 9;

/// Line separator.
pub const NEWLINE: u8 = 10;

/// Path separator.
pub const SLASH: u8 = 47;

/// Why a change-set could not be read.
#[derive(Debug, Clone, Copy, PartialEq, Eq, Structural)]
pub enum DiffError {
    /// A line lacks a column, or a marker is unknown.
    BadDiffFormat,
    /// The path is a symlink, device, socket or another kind that is not backed up.
    UnsupportedKind,
    /// A path does not lie under the mount point.
    PathEscapesMount,
    /// A changed regular file has no metadata.
    StatFailed,
    /// The diff tool's output is not UTF-8 text.
    InvalidUtf8,
}

/// The marker of the directories that hold extended attributes: `<xattrdir>`.
pub open spec fn xattr_marker() -> Seq<u8> {
    seq![60u8, 120, 97, 116, 116, 114, 100, 105, 114, 62]
}

/// Kind markers of paths that exist but are not backed up: block and
/// character devices, doors, pipes, symlinks, event ports and sockets.
pub open spec fn is_unsupported_kind(k: Seq<u8>) -> bool {
    k.len() == 1 && (k[0] == 66u8 || k[0] == 67u8 || k[0] == 62u8 || k[0] == 124u8 || k[0]
        == 64u8 || k[0] == 80u8 || k[0] == 61u8)
}

/// The change named by the first column (`-`, `+`, `M` or `R`); a rename takes
/// its target from the fourth column.
pub open spec fn change_of(cols: Seq<Seq<u8>>) -> Result<DiffTypeView<()>, DiffError> {
    let c = cols[0];
    if c == seq![45u8] {
        Ok(DiffTypeView::Removed)
    } else if c == seq![43u8] {
        Ok(DiffTypeView::Created(()))
    } else if c == seq![77u8] {
        Ok(DiffTypeView::Modified(()))
    } else if c == seq![82u8] {
        if cols.len() >= 4 {
            Ok(DiffTypeView::Renamed(cols[3]))
        } else {
            Err(DiffError::BadDiffFormat)
        }
    } else {
        Err(DiffError::BadDiffFormat)
    }
}

/// The kind named by the second column (`/` or `F`).
pub open spec fn kind_of(k: Seq<u8>) -> Result<FileType, DiffError> {
    if k == seq![47u8] {
        Ok(FileType::Directory)
    } else if k == seq![70u8] {
        Ok(FileType::RegularFile)
    } else if is_unsupported_kind(k) {
        Err(DiffError::UnsupportedKind)
    } else {
        Err(DiffError::BadDiffFormat)
    }
}

/// One tab-separated line of the diff tool: `None` for a path inside an
/// extended-attribute directory.
pub open spec fn parse_line_spec(line: Seq<u8>) -> Result<Option<DiffEntryView<()>>, DiffError> {
    let cols = split_spec(line, TAB);
    if cols.len() < 3 {
        Err(DiffError::BadDiffFormat)
    } else if contains_spec(cols[2], xattr_marker()) {
        Ok(None)
    } else {
        match change_of(cols) {
            Err(e) => Err(e),
            Ok(d) => match kind_of(cols[1]) {
                Err(e) => Err(e),
                Ok(k) => Ok(Some(DiffEntryView { path: cols[2], file_type: k, diff_type: d })),
            },
        }
    }
}

/// The lines of a text: the pieces between newlines, without the empty piece
/// after a final newline.
pub open spec fn lines_spec(s: Seq<u8>) -> Seq<Seq<u8>> {
    let parts = split_spec(s, NEWLINE);
    if parts.last().len() == 0 {
        parts.drop_last()
    } else {
        parts
    }
}

/// The entries of all lines in order, or the error of the first bad line.
pub open spec fn parse_lines_spec(lines: Seq<Seq<u8>>) -> Result<Seq<DiffEntryView<()>>, DiffError>
    decreases lines.len(),
{
    if lines.len() == 0 {
        Ok(Seq::empty())
    } else {
        match parse_lines_spec(lines.drop_last()) {
            Err(e) => Err(e),
            Ok(prev) => match parse_line_spec(lines.last()) {
                Err(e) => Err(e),
                Ok(None) => Ok(prev),
                Ok(Some(d)) => Ok(prev.push(d)),
            },
        }
    }
}

fn xattr_marker_bytes() -> (r: Vec<u8>)
    ensures
        r@ == xattr_marker(),
{
    let mut r: Vec<u8> = Vec::new();
    r.push(60);
    r.push(120);
    r.push(97);
    r.push(116);
    r.push(116);
    r.push(114);
    r.push(100);
    r.push(105);
    r.push(114);
    r.push(62);
    proof {
        assert(r@ =~= xattr_marker());
    }
    r
}

fn is_marker(col: &Vec<u8>, c: u8) -> (r: bool)
    ensures
        r == (col@ == seq![c]),
{
    let r = col.len() == 1 && col[0] == c;
    proof {
        if col@.len() == 1 && col@[0] == c {
            assert(col@ =~= seq![c]);
        }
    }
    r
}

fn parse_kind(col: &Vec<u8>) -> (r: Result<FileType, DiffError>)
    ensures
        r == kind_of(col@),
{
    if is_marker(col, 47) {
        Ok(FileType::Directory)
    } else if is_marker(col, 70) {
        Ok(FileType::RegularFile)
    } else if col.len() == 1 && (col[0] == 66 || col[0] == 67 || col[0] == 62 || col[0] == 124
        || col[0] == 64 || col[0] == 80 || col[0] == 61) {
        Err(DiffError::UnsupportedKind)
    } else {
        Err(DiffError::BadDiffFormat)
    }
}

/// Parses one line of the diff tool given as bytes.
#[verifier::rlimit(40)]
pub fn parse_diff_line(line: &[u8]) -> (r: Result<Option<DiffEntry<()>>, DiffError>)
    ensures
        match parse_line_spec(line@) {
            Ok(Some(e)) => r matches Ok(Some(d)) && d@ == e,
            Ok(None) => r matches Ok(None),
            Err(e) => r == Err::<Option<DiffEntry<()>>, DiffError>(e),
        },
{
    let cols = split_bytes(line, TAB);
    let ghost c = split_spec(line@, TAB);
    proof {
        lemma_split_nonempty(line@, TAB);
        assert(cols@.len() == c.len());
        assert forall|i: int| 0 <= i < c.len() implies c[i] == #[trigger] cols@[i]@ by {
            assert(bytes_views(cols@)[i] == cols@[i]@);
        }
    }
    if cols.len() < 3 {
        return Err(DiffError::BadDiffFormat);
    }
    let marker = xattr_marker_bytes();
    if contains_bytes(cols[2].as_slice(), marker.as_slice()) {
        return Ok(None);
    }
    let diff_type: DiffType<()> = if is_marker(&cols[0], 45) {
        DiffType::Removed
    } else if is_marker(&cols[0], 43) {
        DiffType::Created(())
    } else if is_marker(&cols[0], 77) {
        DiffType::Modified(())
    } else if is_marker(&cols[0], 82) {
        if cols.len() >= 4 {
            DiffType::Renamed(copy_bytes(cols[3].as_slice()))
        } else {
            return Err(DiffError::BadDiffFormat);
        }
    } else {
        return Err(DiffError::BadDiffFormat);
    };
    let file_type = match parse_kind(&cols[1]) {
        Ok(k) => k,
        Err(e) => {
            return Err(e);
        },
    };
    let d = DiffEntry { path: copy_bytes(cols[2].as_slice()), file_type, diff_type };
    proof {
        assert(change_of(c) == Ok::<DiffTypeView<()>, DiffError>(d.diff_type@));
    }
    Ok(Some(d))
}

impl DiffEntry<()> {
    /// Parses one tab-separated line of the diff tool: change marker, kind
    /// marker, path and, for a rename, the target path. Paths inside an
    /// extended-attribute directory give `None`.
    pub fn from_zfs_diff_line(line: &str) -> (r: Result<Option<Self>, DiffError>)
        ensures
            match parse_line_spec(line.spec_bytes()) {
                Ok(Some(e)) => r matches Ok(Some(d)) && d@ == e,
                Ok(None) => r matches Ok(None),
                Err(e) => r == Err::<Option<DiffEntry<()>>, DiffError>(e),
            },
    {
        parse_diff_line(line.as_bytes())
    }
}

/// Parses the whole output of the diff tool, one entry per line, skipping the
/// paths inside extended-attribute directories. The output must be UTF-8
/// text.
#[verifier::rlimit(40)]
pub fn parse_zfs_diff_output(output: Vec<u8>) -> (r: Result<Vec<DiffEntry<()>>, DiffError>)
    ensures
        !vstd::utf8::valid_utf8(output@) ==> r == Err::<Vec<DiffEntry<()>>, DiffError>(
            DiffError::InvalidUtf8,
        ),
        vstd::utf8::valid_utf8(output@) ==> match parse_lines_spec(lines_spec(output@)) {
            Ok(es) => r matches Ok(v) && entries_view(v@) == es,
            Err(e) => r == Err::<Vec<DiffEntry<()>>, DiffError>(e),
        },
{
    let ghost bytes = output@;
    let text = match crate::crypto::string_from_utf8(output) {
        Some(s) => s,
        None => {
            return Err(DiffError::InvalidUtf8);
        },
    };
    proof {
        vstd::utf8::encode_utf8_valid_utf8(text@);
    }
    let data = text.as_str().as_bytes();
    assert(data@ == bytes);
    let parts = split_bytes(data, NEWLINE);
    let ghost p = split_spec(output@, NEWLINE);
    proof {
        lemma_split_nonempty(output@, NEWLINE);
        assert forall|i: int| 0 <= i < p.len() implies p[i] == #[trigger] parts@[i]@ by {
            assert(bytes_views(parts@)[i] == parts@[i]@);
        }
    }
    let n: usize = if parts[parts.len() - 1].len() == 0 {
        parts.len() - 1
    } else {
        parts.len()
    };
    let ghost lines = lines_spec(output@);
    assert(lines.len() == n);
    assert(forall|i: int| 0 <= i < n ==> lines[i] == #[trigger] parts@[i]@);
    let mut out: Vec<DiffEntry<()>> = Vec::new();
    let mut i: usize = 0;
    proof {
        assert(entries_view(out@) =~= Seq::<DiffEntryView<()>>::empty());
        assert(lines.take(0).len() == 0);
    }
    while i < n
        invariant
            n <= parts@.len(),
            lines == lines_spec(output@),
            bytes == output@,
            vstd::utf8::valid_utf8(bytes),
            lines.len() == n,
            forall|j: int| 0 <= j < n ==> lines[j] == #[trigger] parts@[j]@,
            i <= n,
            parse_lines_spec(lines.take(i as int)) == Ok::<Seq<DiffEntryView<()>>, DiffError>(
                entries_view(out@),
            ),
        decreases n - i,
    {
        proof {
            assert(lines.take(i + 1).drop_last() =~= lines.take(i as int));
            assert(lines.take(i + 1).last() == parts@[i as int]@);
        }
        match parse_diff_line(parts[i].as_slice()) {
            Err(e) => {
                proof {
                    assert(parse_line_spec(lines[i as int]) == Err::<Option<DiffEntryView<()>>, DiffError>(e));
                    assert(parse_lines_spec(lines.take(i + 1)) == Err::<Seq<DiffEntryView<()>>, DiffError>(e));
                    lemma_parse_lines_err(lines, (i + 1) as int, e);
                }
                return Err(e);
            },
            Ok(None) => {},
            Ok(Some(d)) => {
                let ghost before = out@;
                out.push(d);
                proof {
                    assert(entries_view(out@) =~= entries_view(before).push(d@));
                }
            },
        }
        i += 1;
    }
    proof {
        assert(lines.take(n as int) =~= lines);
    }
    Ok(out)
}

proof fn lemma_parse_lines_err(lines: Seq<Seq<u8>>, k: int, e: DiffError)
    requires
        0 < k <= lines.len(),
        parse_lines_spec(lines.take(k)) == Err::<Seq<DiffEntryView<()>>, DiffError>(e),
    ensures
        parse_lines_spec(lines) == Err::<Seq<DiffEntryView<()>>, DiffError>(e),
    decreases lines.len() - k,
{
    if k < lines.len() {
        assert(lines.take(k + 1).drop_last() =~= lines.take(k));
        lemma_parse_lines_err(lines, k + 1, e);
    } else {
        assert(lines.take(k) =~= lines);
    }
}

} // verus!
