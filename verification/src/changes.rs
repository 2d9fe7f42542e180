//! What each change a diff walk reports becomes: one changed file with the
//! blob on each side, or nothing for an entry that has no diffable content.
//!
//! The file list never comes from patch text. Binary, rename-only and
//! mode-only changes have no `---`/`+++` lines at all, and a patch-driven list
//! drops them silently.

use vstd::prelude::*;

use crate::model::FileStatus;

verus! {

/// The kind of a tree entry, as git records it.
#[derive(Debug, Clone, Copy, PartialEq, Eq, Structural)]
pub enum EntryKind {
    Tree,
    Blob,
    BlobExecutable,
    Link,
    Commit,
}

/// One side of a change: the object and the kind of entry it is.
#[derive(Debug, Clone, Copy)]
pub struct Blob {
    pub id: gix::ObjectId,
    pub kind: EntryKind,
}

/// An entry a walk reports, with whether it has content a blob diff can
/// take (a gitlink or a directory has none).
#[derive(Debug, Clone, Copy)]
pub struct Entry {
    pub id: gix::ObjectId,
    pub kind: EntryKind,
    pub diffable: bool,
}

/// A change between two trees, or between a tree and the index.
#[derive(Debug)]
pub enum Delta {
    Addition { location: Vec<u8>, entry: Entry },
    Deletion { location: Vec<u8>, entry: Entry },
    Modification { location: Vec<u8>, previous: Entry, entry: Entry },
    Rewrite { source_location: Vec<u8>, source: Entry, location: Vec<u8>, entry: Entry, copy: bool },
}

/// One changed file, before its content has been diffed.
#[derive(Debug)]
pub struct Change {
    pub path: Vec<u8>,
    pub old_path: Option<Vec<u8>>,
    pub status: FileStatus,
    pub old: Option<Blob>,
    pub new: Option<Blob>,
}

pub open spec fn blob_of(entry: Entry) -> Blob {
    Blob { id: entry.id, kind: entry.kind }
}

/// The file a delta stands for: added files have no old side and deleted
/// ones no new side; a rewrite is a copy or a rename from its source.
pub open spec fn change_of(delta: Delta) -> Change {
    match delta {
        Delta::Addition { location, entry } => Change {
            path: location,
            old_path: None,
            status: FileStatus::Added,
            old: None,
            new: Some(blob_of(entry)),
        },
        Delta::Deletion { location, entry } => Change {
            path: location,
            old_path: None,
            status: FileStatus::Deleted,
            old: Some(blob_of(entry)),
            new: None,
        },
        Delta::Modification { location, previous, entry } => Change {
            path: location,
            old_path: None,
            status: FileStatus::Modified,
            old: Some(blob_of(previous)),
            new: Some(blob_of(entry)),
        },
        Delta::Rewrite { source_location, source, location, entry, copy } => Change {
            path: location,
            old_path: Some(source_location),
            status: if copy { FileStatus::Copied } else { FileStatus::Renamed },
            old: Some(blob_of(source)),
            new: Some(blob_of(entry)),
        },
    }
}

/// The entry a delta is about now: the deleted one for a deletion.
pub open spec fn current_of(delta: Delta) -> Entry {
    match delta {
        Delta::Addition { entry, .. } => entry,
        Delta::Deletion { entry, .. } => entry,
        Delta::Modification { entry, .. } => entry,
        Delta::Rewrite { entry, .. } => entry,
    }
}

/// The entry a delta was before, where it names one apart from the current.
pub open spec fn earlier_of(delta: Delta) -> Option<Entry> {
    match delta {
        Delta::Modification { previous, .. } => Some(previous),
        Delta::Rewrite { source, .. } => Some(source),
        _ => None,
    }
}

fn blob(entry: Entry) -> (b: Blob)
    ensures
        b == blob_of(entry),
{
    Blob { id: entry.id, kind: entry.kind }
}

fn change(delta: Delta) -> (c: Change)
    ensures
        c == change_of(delta),
{
    match delta {
        Delta::Addition { location, entry } => Change {
            path: location,
            old_path: None,
            status: FileStatus::Added,
            old: None,
            new: Some(blob(entry)),
        },
        Delta::Deletion { location, entry } => Change {
            path: location,
            old_path: None,
            status: FileStatus::Deleted,
            old: Some(blob(entry)),
            new: None,
        },
        Delta::Modification { location, previous, entry } => Change {
            path: location,
            old_path: None,
            status: FileStatus::Modified,
            old: Some(blob(previous)),
            new: Some(blob(entry)),
        },
        Delta::Rewrite { source_location, source, location, entry, copy } => Change {
            path: location,
            old_path: Some(source_location),
            status: if copy { FileStatus::Copied } else { FileStatus::Renamed },
            old: Some(blob(source)),
            new: Some(blob(entry)),
        },
    }
}

/// A change between two trees. The walk reports a changed directory as well
/// as its entries; `git diff --raw` lists only the entries, and a tree has no
/// content to diff, so a delta whose entry is a directory is dropped (here
/// `diffable` says the entry is no tree).
pub fn tree_change(delta: Delta) -> (c: Option<Change>)
    ensures
        c == (if current_of(delta).diffable { Some(change_of(delta)) } else { None }),
{
    let keep = match &delta {
        Delta::Addition { entry, .. } => entry.diffable,
        Delta::Deletion { entry, .. } => entry.diffable,
        Delta::Modification { entry, .. } => entry.diffable,
        Delta::Rewrite { entry, .. } => entry.diffable,
    };
    if keep {
        Some(change(delta))
    } else {
        None
    }
}

/// A change between `HEAD`'s tree and the index. Gitlinks have no blob to
/// diff (git prints `Subproject commit <sha>` from data the blob pipeline
/// cannot supply), so a delta with a non-diffable entry on either side is
/// dropped rather than misrendered.
pub fn index_change(delta: Delta) -> (c: Option<Change>)
    ensures
        c == (if current_of(delta).diffable && (earlier_of(delta) matches Some(e) ==> e.diffable) {
            Some(change_of(delta))
        } else {
            None
        }),
{
    let keep = match &delta {
        Delta::Addition { entry, .. } => entry.diffable,
        Delta::Deletion { entry, .. } => entry.diffable,
        Delta::Modification { previous, entry, .. } => entry.diffable && previous.diffable,
        Delta::Rewrite { source, entry, .. } => entry.diffable && source.diffable,
    };
    if keep {
        Some(change(delta))
    } else {
        None
    }
}

/// What the index-versus-worktree walk says of a tracked path.
#[derive(Debug, Clone, Copy)]
pub enum WorktreeStatus {
    Removed,
    Modified,
    /// The entry's type changed in the worktree (a file became a link).
    TypeChanged { worktree: EntryKind },
    /// Added with `git add -N`.
    IntentToAdd,
    /// A merge conflict; `ours` is stage 2, when there is one.
    Conflict { ours: Option<Blob> },
    /// Nothing to review here (submodules are not reported).
    Skipped,
}

/// A tracked path that differs between the index and the worktree. `null`
/// is the null object id, which tells the blob pipeline to read the worktree
/// file. A conflicted path has no stage 0, and dropping it would let a
/// mid-merge review report no changes; git's combined diff does not fit the
/// hunk model, but "ours" against the worktree does, and it carries the
/// conflict markers.
pub open spec fn worktree_change_of(path: Vec<u8>, indexed: Blob, status: WorktreeStatus, null: gix::ObjectId) -> Option<Change> {
    let on_disk = |kind: EntryKind| Some(Blob { id: null, kind });
    match status {
        WorktreeStatus::Removed => Some(Change { path, old_path: None, status: FileStatus::Deleted, old: Some(indexed), new: None }),
        WorktreeStatus::Modified => Some(Change { path, old_path: None, status: FileStatus::Modified, old: Some(indexed), new: on_disk(indexed.kind) }),
        WorktreeStatus::TypeChanged { worktree } => Some(Change { path, old_path: None, status: FileStatus::Modified, old: Some(indexed), new: on_disk(worktree) }),
        WorktreeStatus::IntentToAdd => Some(Change { path, old_path: None, status: FileStatus::Added, old: Some(indexed), new: on_disk(EntryKind::Blob) }),
        WorktreeStatus::Conflict { ours } => match ours {
            Some(o) => Some(Change { path, old_path: None, status: FileStatus::Modified, old: Some(o), new: on_disk(o.kind) }),
            None => Some(Change { path, old_path: None, status: FileStatus::Added, old: None, new: on_disk(indexed.kind) }),
        },
        WorktreeStatus::Skipped => None,
    }
}

pub fn worktree_change(path: Vec<u8>, indexed: Blob, status: WorktreeStatus, null: gix::ObjectId) -> (c: Option<Change>)
    ensures
        c == worktree_change_of(path, indexed, status, null),
{
    match status {
        WorktreeStatus::Removed => Some(Change { path, old_path: None, status: FileStatus::Deleted, old: Some(indexed), new: None }),
        WorktreeStatus::Modified => Some(Change {
            path,
            old_path: None,
            status: FileStatus::Modified,
            old: Some(indexed),
            new: Some(Blob { id: null, kind: indexed.kind }),
        }),
        WorktreeStatus::TypeChanged { worktree } => Some(Change {
            path,
            old_path: None,
            status: FileStatus::Modified,
            old: Some(indexed),
            new: Some(Blob { id: null, kind: worktree }),
        }),
        WorktreeStatus::IntentToAdd => Some(Change {
            path,
            old_path: None,
            status: FileStatus::Added,
            old: Some(indexed),
            new: Some(Blob { id: null, kind: EntryKind::Blob }),
        }),
        WorktreeStatus::Conflict { ours } => match ours {
            Some(o) => Some(Change {
                path,
                old_path: None,
                status: FileStatus::Modified,
                old: Some(o),
                new: Some(Blob { id: null, kind: o.kind }),
            }),
            None => Some(Change {
                path,
                old_path: None,
                status: FileStatus::Added,
                old: None,
                new: Some(Blob { id: null, kind: indexed.kind }),
            }),
        },
        WorktreeStatus::Skipped => None,
    }
}

} // verus!
