use vstd::prelude::*;

verus! {

/// Kind of a path that a change-set entry is about. Other kinds (symlinks,
/// devices, sockets) are not backed up.
#[derive(Debug, Clone, Copy, PartialEq, Eq, Structural)]
pub enum FileType {
    Directory,
    RegularFile,
}

/// What happened to a path, with a payload `T` for content changes.
#[derive(Debug, Clone, PartialEq, Eq)]
pub enum DiffType<T> {
    Removed,
    Created(T),
    Modified(T),
    /// The path was moved to the given path.
    Renamed(Vec<u8>),
}

/// One change of a change-set: the path relative to the dataset mount, its
/// kind and the change.
#[derive(Debug, Clone, PartialEq, Eq)]
pub struct DiffEntry<T> {
    pub path: Vec<u8>,
    pub file_type: FileType,
    pub diff_type: DiffType<T>,
}

/// A point in time as seconds and nanoseconds since the Unix epoch.
#[derive(Debug, Clone, Copy, PartialEq, Eq, Structural)]
pub struct Timestamp {
    pub secs_since_epoch: u64,
    pub nanos_since_epoch: u32,
}

/// Metadata of a regular file; the times are absent where the file system does
/// not give them.
#[derive(Debug, Clone, Copy, PartialEq, Eq, Structural)]
pub struct FileMetaData {
    pub accessed: Option<Timestamp>,
    pub created: Option<Timestamp>,
    pub modified: Option<Timestamp>,
    pub len: u64,
}

/// What a change says, with paths as byte sequences.
pub enum DiffTypeView<T> {
    Removed,
    Created(T),
    Modified(T),
    Renamed(Seq<u8>),
}

/// A change-set entry with its paths as byte sequences.
pub struct DiffEntryView<T> {
    pub path: Seq<u8>,
    pub file_type: FileType,
    pub diff_type: DiffTypeView<T>,
}

impl<T> View for DiffType<T> {
    type V = DiffTypeView<T>;

    open spec fn view(&self) -> DiffTypeView<T> {
        match self {
            DiffType::Removed => DiffTypeView::Removed,
            DiffType::Created(t) => DiffTypeView::Created(*t),
            DiffType::Modified(t) => DiffTypeView::Modified(*t),
            DiffType::Renamed(p) => DiffTypeView::Renamed(p@),
        }
    }
}

impl<T> View for DiffEntry<T> {
    type V = DiffEntryView<T>;

    open spec fn view(&self) -> DiffEntryView<T> {
        DiffEntryView { path: self.path@, file_type: self.file_type, diff_type: self.diff_type@ }
    }
}

/// The views of a sequence of entries.
pub open spec fn entries_view<T>(v: Seq<DiffEntry<T>>) -> Seq<DiffEntryView<T>> {
    v.map_values(|e: DiffEntry<T>| e@)
}

impl<T> DiffTypeView<T> {
    /// The content payload of a creation or a modification.
    pub open spec fn content(self) -> Option<T> {
        match self {
            DiffTypeView::Created(t) => Some(t),
            DiffTypeView::Modified(t) => Some(t),
            _ => None,
        }
    }
}

impl<T> DiffType<T> {
    /// The content payload of a creation or a modification.
    pub open spec fn content_spec(self) -> Option<T> {
        match self {
            DiffType::Created(t) => Some(t),
            DiffType::Modified(t) => Some(t),
            _ => None,
        }
    }

    /// Replaces the content payload by `f` of it; other changes are kept.
    pub fn map<N, F: Fn(T) -> N>(self, f: F) -> (r: DiffType<N>)
        requires
            self.content_spec() is Some ==> f.requires((self.content_spec()->0,)),
        ensures
            match self {
                DiffType::Removed => r == DiffType::<N>::Removed,
                DiffType::Renamed(p) => r == DiffType::<N>::Renamed(p),
                DiffType::Created(t) => r matches DiffType::Created(n) && f.ensures((t,), n),
                DiffType::Modified(t) => r matches DiffType::Modified(n) && f.ensures((t,), n),
            },
    {
        match self {
            DiffType::Created(prev) => DiffType::Created(f(prev)),
            DiffType::Modified(prev) => DiffType::Modified(f(prev)),
            DiffType::Renamed(a) => DiffType::Renamed(a),
            DiffType::Removed => DiffType::Removed,
        }
    }

    /// The content payload of a creation or a modification, else `None`.
    pub fn content_data(&self) -> (r: Option<&T>)
        ensures
            match self.content_spec() {
                Some(t) => r matches Some(x) && *x == t,
                None => r is None,
            },
    {
        match self {
            DiffType::Created(content_data) => Some(content_data),
            DiffType::Modified(content_data) => Some(content_data),
            _ => None,
        }
    }
}

impl<T> DiffEntry<T> {
    /// Replaces the content payload by `f` of it; path and kind are kept.
    pub fn map<N, F: Fn(T) -> N>(self, f: F) -> (r: DiffEntry<N>)
        requires
            self.diff_type.content_spec() is Some ==> f.requires(
                (self.diff_type.content_spec()->0,),
            ),
        ensures
            r.path == self.path,
            r.file_type == self.file_type,
            match self.diff_type {
                DiffType::Removed => r.diff_type == DiffType::<N>::Removed,
                DiffType::Renamed(p) => r.diff_type == DiffType::<N>::Renamed(p),
                DiffType::Created(t) => r.diff_type matches DiffType::Created(n) && f.ensures(
                    (t,),
                    n,
                ),
                DiffType::Modified(t) => r.diff_type matches DiffType::Modified(n) && f.ensures(
                    (t,),
                    n,
                ),
            },
    {
        DiffEntry { path: self.path, file_type: self.file_type, diff_type: self.diff_type.map(f) }
    }
}

} // verus!
