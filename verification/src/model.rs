//! What the library speaks of: workspaces, collections, request files, and
//! what a caller reports of the file system.

use vstd::prelude::*;

verus! {

/// A root directory that is scanned for collections.
#[derive(Debug, PartialEq, Eq)]
pub struct Workspace {
    pub id: String,
    pub name: String,
    /// The canonical path of the root directory.
    pub uri: String,
}

/// What a `Workspace` holds, as plain text.
pub struct WorkspaceView {
    pub id: Seq<char>,
    pub name: Seq<char>,
    pub uri: Seq<char>,
}

impl View for Workspace {
    type V = WorkspaceView;

    open spec fn view(&self) -> WorkspaceView {
        WorkspaceView { id: self.id@, name: self.name@, uri: self.uri@ }
    }
}

/// A directory that holds request files directly.
#[derive(Debug, PartialEq, Eq)]
pub struct Collection {
    pub id: String,
    pub workspace_id: String,
    pub name: String,
    /// The canonical path of the directory.
    pub uri: String,
}

/// What a `Collection` holds, as plain text.
pub struct CollectionView {
    pub id: Seq<char>,
    pub workspace_id: Seq<char>,
    pub name: Seq<char>,
    pub uri: Seq<char>,
}

impl View for Collection {
    type V = CollectionView;

    open spec fn view(&self) -> CollectionView {
        CollectionView {
            id: self.id@,
            workspace_id: self.workspace_id@,
            name: self.name@,
            uri: self.uri@,
        }
    }
}

/// One stored request definition.
#[derive(Debug, PartialEq, Eq)]
pub struct RequestFile {
    pub id: String,
    pub collection_id: String,
    pub title: String,
    /// The canonical path of the file.
    pub uri: String,
}

/// What a `RequestFile` holds, as plain text.
pub struct RequestFileView {
    pub id: Seq<char>,
    pub collection_id: Seq<char>,
    pub title: Seq<char>,
    pub uri: Seq<char>,
}

impl View for RequestFile {
    type V = RequestFileView;

    open spec fn view(&self) -> RequestFileView {
        RequestFileView {
            id: self.id@,
            collection_id: self.collection_id@,
            title: self.title@,
            uri: self.uri@,
        }
    }
}

/// What a path turns out to be when it is looked at without following a
/// symlink.
#[derive(Clone, Copy, Debug, PartialEq, Eq, Structural)]
pub enum PathStatus {
    /// Nothing is there.
    Missing,
    /// A symlink, whatever it points to.
    Symlink,
    /// A regular file.
    File,
    /// A directory.
    Directory,
    /// Something else: a socket, a device, a pipe.
    Other,
}

/// What an entry of a directory is, looked at without following a symlink.
#[derive(Clone, Copy, Debug, PartialEq, Eq, Structural)]
pub enum EntryKind {
    /// A symlink, whatever it points to.
    Symlink,
    /// A regular file.
    File,
    /// A directory.
    Directory,
    /// Something else, or an entry whose kind could not be told.
    Other,
}

/// One entry of a directory, as the caller found it.
#[derive(Debug, PartialEq, Eq)]
pub struct DirEntry {
    /// The entry's name, where it is valid text.
    pub name: Option<String>,
    pub kind: EntryKind,
    /// The canonical path of the entry, where the caller resolved it and
    /// that succeeded. Only directories need one.
    pub resolved: Option<String>,
}

/// What a `DirEntry` holds, as plain text.
pub struct DirEntryView {
    pub name: Option<Seq<char>>,
    pub kind: EntryKind,
    pub resolved: Option<Seq<char>>,
}

/// What an optional string holds.
pub open spec fn optional_text(s: Option<String>) -> Option<Seq<char>> {
    match s {
        Some(text) => Some(text@),
        None => None,
    }
}

impl View for DirEntry {
    type V = DirEntryView;

    open spec fn view(&self) -> DirEntryView {
        DirEntryView {
            name: optional_text(self.name),
            kind: self.kind,
            resolved: optional_text(self.resolved),
        }
    }
}

/// What the entries of `v` hold.
pub open spec fn entries_view(v: Seq<DirEntry>) -> Seq<DirEntryView> {
    Seq::new(v.len(), |i: int| v[i]@)
}

/// What the collections of `v` hold.
pub open spec fn collections_view(v: Seq<Collection>) -> Seq<CollectionView> {
    Seq::new(v.len(), |i: int| v[i]@)
}

/// What the request files of `v` hold.
pub open spec fn requests_view(v: Seq<RequestFile>) -> Seq<RequestFileView> {
    Seq::new(v.len(), |i: int| v[i]@)
}

/// What the workspaces of `v` hold.
pub open spec fn workspaces_view(v: Seq<Workspace>) -> Seq<WorkspaceView> {
    Seq::new(v.len(), |i: int| v[i]@)
}

} // verus!
