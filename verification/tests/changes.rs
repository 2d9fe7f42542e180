use diffpane::changes::{index_change, tree_change, worktree_change, Blob, Delta, Entry, EntryKind, WorktreeStatus};
use diffpane::model::FileStatus;

fn id(hex: &str) -> gix::ObjectId {
    gix::ObjectId::from_hex(hex.as_bytes()).unwrap()
}

fn null() -> gix::ObjectId {
    gix::ObjectId::null(gix::hash::Kind::Sha1)
}

const A: &str = "1111111111111111111111111111111111111111";
const B: &str = "2222222222222222222222222222222222222222";

fn entry(hex: &str, kind: EntryKind, diffable: bool) -> Entry {
    Entry { id: id(hex), kind, diffable }
}

#[test]
fn each_kind_of_tree_change_becomes_a_file() {
    let added = tree_change(Delta::Addition { location: b"a.txt".to_vec(), entry: entry(A, EntryKind::Blob, true) }).unwrap();
    assert_eq!(added.status, FileStatus::Added);
    assert!(added.old.is_none());
    assert_eq!(added.new.unwrap().id, id(A));

    let deleted = tree_change(Delta::Deletion { location: b"a.txt".to_vec(), entry: entry(A, EntryKind::Link, true) }).unwrap();
    assert_eq!(deleted.status, FileStatus::Deleted);
    assert_eq!(deleted.old.unwrap().kind, EntryKind::Link);
    assert!(deleted.new.is_none());

    let renamed = tree_change(Delta::Rewrite {
        source_location: b"old.txt".to_vec(),
        source: entry(A, EntryKind::Blob, true),
        location: b"new.txt".to_vec(),
        entry: entry(B, EntryKind::BlobExecutable, true),
        copy: false,
    })
    .unwrap();
    assert_eq!(renamed.status, FileStatus::Renamed);
    assert_eq!(renamed.path, b"new.txt".to_vec());
    assert_eq!(renamed.old_path, Some(b"old.txt".to_vec()));
    assert_eq!(renamed.old.unwrap().id, id(A));
    assert_eq!(renamed.new.unwrap().kind, EntryKind::BlobExecutable);

    let copied = tree_change(Delta::Rewrite {
        source_location: b"old.txt".to_vec(),
        source: entry(A, EntryKind::Blob, true),
        location: b"copy.txt".to_vec(),
        entry: entry(A, EntryKind::Blob, true),
        copy: true,
    })
    .unwrap();
    assert_eq!(copied.status, FileStatus::Copied);
}

#[test]
fn a_changed_directory_is_no_file_to_review() {
    assert!(tree_change(Delta::Addition { location: b"dir".to_vec(), entry: entry(A, EntryKind::Tree, false) }).is_none());
    let modified = tree_change(Delta::Modification {
        location: b"a.txt".to_vec(),
        previous: entry(A, EntryKind::Blob, false),
        entry: entry(B, EntryKind::Blob, true),
    });
    assert_eq!(modified.unwrap().status, FileStatus::Modified);
}

#[test]
fn a_gitlink_on_either_side_of_a_staged_change_is_dropped() {
    let modification = |previous: bool, current: bool| Delta::Modification {
        location: b"sub".to_vec(),
        previous: entry(A, EntryKind::Blob, previous),
        entry: entry(B, EntryKind::Blob, current),
    };
    assert!(index_change(modification(true, true)).is_some());
    assert!(index_change(modification(false, true)).is_none());
    assert!(index_change(modification(true, false)).is_none());
    assert!(index_change(Delta::Deletion { location: b"sub".to_vec(), entry: entry(A, EntryKind::Commit, false) }).is_none());
}

#[test]
fn a_conflicted_path_diffs_ours_against_the_worktree() {
    let indexed = Blob { id: id(A), kind: EntryKind::Blob };
    let ours = Blob { id: id(B), kind: EntryKind::Blob };
    let change = worktree_change(b"a.txt".to_vec(), indexed, WorktreeStatus::Conflict { ours: Some(ours) }, null()).unwrap();
    assert_eq!(change.status, FileStatus::Modified);
    assert_eq!(change.old.unwrap().id, id(B));
    assert!(change.new.unwrap().id.is_null());

    let added = worktree_change(b"a.txt".to_vec(), indexed, WorktreeStatus::Conflict { ours: None }, null()).unwrap();
    assert_eq!(added.status, FileStatus::Added);
    assert!(added.old.is_none());
}

#[test]
fn worktree_statuses_map_to_file_statuses() {
    let indexed = Blob { id: id(A), kind: EntryKind::BlobExecutable };
    let removed = worktree_change(b"a".to_vec(), indexed, WorktreeStatus::Removed, null()).unwrap();
    assert_eq!(removed.status, FileStatus::Deleted);
    assert!(removed.new.is_none());
    let modified = worktree_change(b"a".to_vec(), indexed, WorktreeStatus::Modified, null()).unwrap();
    assert_eq!(modified.new.unwrap().kind, EntryKind::BlobExecutable);
    let retyped =
        worktree_change(b"a".to_vec(), indexed, WorktreeStatus::TypeChanged { worktree: EntryKind::Link }, null()).unwrap();
    assert_eq!(retyped.new.unwrap().kind, EntryKind::Link);
    let intended = worktree_change(b"a".to_vec(), indexed, WorktreeStatus::IntentToAdd, null()).unwrap();
    assert_eq!(intended.status, FileStatus::Added);
    assert_eq!(intended.new.unwrap().kind, EntryKind::Blob);
    assert!(worktree_change(b"a".to_vec(), indexed, WorktreeStatus::Skipped, null()).is_none());
}
