use crev::revision::{
    is_blocking, read_revision, try_read_git_revision, RevisionError, RevisionKind, StatusEntry,
    TreeState, WorkTree, STATUS_CURRENT, STATUS_IGNORED, STATUS_UNTRACKED,
};
use git2::Status;

fn entry(path: &str, status: Status) -> StatusEntry {
    StatusEntry { path: path.to_string(), status: status.bits() }
}

fn clean_tree() -> WorkTree {
    WorkTree {
        kind: Some(RevisionKind::Git),
        state: TreeState::Clean,
        entries: vec![entry("src/a.rs", Status::CURRENT)],
        head: Some("deadbeef".to_string()),
    }
}

#[test]
fn clean_tree_names_its_head() {
    let info = read_revision(&clean_tree()).unwrap();
    assert_eq!(info.kind, RevisionKind::Git);
    assert_eq!(info.revision, "deadbeef");
    assert_eq!(info.kind.label(), "git");
    let found = try_read_git_revision(&clean_tree()).unwrap().unwrap();
    assert_eq!(found.revision, "deadbeef");
}

#[test]
fn tree_without_entries_is_clean() {
    let mut tree = clean_tree();
    tree.entries.clear();
    assert_eq!(read_revision(&tree).unwrap().revision, "deadbeef");
}

#[test]
fn tree_outside_version_control_has_no_revision() {
    let mut tree = clean_tree();
    tree.kind = None;
    assert!(matches!(read_revision(&tree), Err(RevisionError::NoRevisionInfo)));
    assert!(matches!(try_read_git_revision(&tree), Ok(None)));
    tree.state = TreeState::Merge;
    tree.head = None;
    tree.entries.push(entry("x", Status::WT_MODIFIED));
    assert!(matches!(read_revision(&tree), Err(RevisionError::NoRevisionInfo)));
}

#[test]
fn pending_operation_blocks() {
    let mut tree = clean_tree();
    tree.state = TreeState::RebaseInteractive;
    assert!(matches!(
        read_revision(&tree),
        Err(RevisionError::OperationPending(TreeState::RebaseInteractive))
    ));
    tree.entries.push(entry("x", Status::WT_MODIFIED));
    tree.head = None;
    assert!(matches!(
        try_read_git_revision(&tree),
        Err(RevisionError::OperationPending(TreeState::RebaseInteractive))
    ));
    let states = [
        TreeState::Merge,
        TreeState::Revert,
        TreeState::RevertSequence,
        TreeState::CherryPick,
        TreeState::CherryPickSequence,
        TreeState::Bisect,
        TreeState::Rebase,
        TreeState::RebaseInteractive,
        TreeState::RebaseMerge,
        TreeState::ApplyMailbox,
        TreeState::ApplyMailboxOrRebase,
    ];
    for state in states.iter() {
        assert!(state.is_pending());
    }
    assert!(!TreeState::Clean.is_pending());
}

#[test]
fn dirty_tree_names_every_offending_path() {
    let mut tree = clean_tree();
    tree.entries = vec![
        entry("z/modified", Status::WT_MODIFIED),
        entry("current", Status::CURRENT),
        entry("deleted", Status::WT_DELETED),
        entry("untracked", Status::WT_NEW),
        entry("added", Status::INDEX_NEW),
        entry("ignored", Status::IGNORED),
        entry("conflicted", Status::CONFLICTED),
    ];
    match read_revision(&tree) {
        Err(RevisionError::DirtyWorkingTree(paths)) => {
            assert_eq!(paths, vec!["z/modified", "deleted", "added", "conflicted"]);
        }
        other => panic!("{:?}", other),
    }
    tree.head = None;
    assert!(matches!(read_revision(&tree), Err(RevisionError::DirtyWorkingTree(_))));
}

#[test]
fn untracked_and_ignored_files_do_not_block() {
    let mut tree = clean_tree();
    tree.entries = vec![
        entry("notes.txt", Status::WT_NEW),
        entry("target/out", Status::IGNORED),
        entry("src/a.rs", Status::CURRENT),
    ];
    assert_eq!(read_revision(&tree).unwrap().revision, "deadbeef");
    assert!(!is_blocking(Status::WT_NEW.bits()));
    assert!(!is_blocking(Status::IGNORED.bits()));
    assert!(!is_blocking(Status::CURRENT.bits()));
    assert!(!is_blocking((Status::WT_NEW | Status::IGNORED).bits()));
}

#[test]
fn every_other_flag_blocks() {
    let flags = [
        Status::INDEX_NEW,
        Status::INDEX_MODIFIED,
        Status::INDEX_DELETED,
        Status::INDEX_RENAMED,
        Status::INDEX_TYPECHANGE,
        Status::WT_MODIFIED,
        Status::WT_DELETED,
        Status::WT_TYPECHANGE,
        Status::WT_RENAMED,
        Status::WT_UNREADABLE,
        Status::CONFLICTED,
    ];
    for flag in flags.iter() {
        assert!(is_blocking(flag.bits()));
        assert!(is_blocking((*flag | Status::WT_NEW).bits()));
        assert!(is_blocking((*flag | Status::IGNORED).bits()));
    }
    assert!(is_blocking(1 << 31));
}

#[test]
fn status_flags_are_those_of_git() {
    assert_eq!(STATUS_CURRENT, Status::CURRENT.bits());
    assert_eq!(STATUS_UNTRACKED, Status::WT_NEW.bits());
    assert_eq!(STATUS_IGNORED, Status::IGNORED.bits());
}

#[test]
fn unresolved_head_has_no_revision() {
    let mut tree = clean_tree();
    tree.head = None;
    assert!(matches!(read_revision(&tree), Err(RevisionError::UnresolvedHead)));
    assert!(matches!(try_read_git_revision(&tree), Err(RevisionError::UnresolvedHead)));
}
