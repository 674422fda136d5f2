//! Binding a proof to a revision of the version control system.
//!
//! The caller takes a snapshot of the working tree (`WorkTree`) and the
//! functions here decide from it whether a revision may be named: only a tree
//! under version control, with no operation under way and no tracked file
//! that differs from the revision, yields one.

use vstd::prelude::*;
use vstd::string::*;

verus! {

/// The version control systems that can supply a revision.
#[derive(Clone, Copy, Debug, PartialEq, Eq, Structural)]
pub enum RevisionKind {
    Git,
}

/// An immutable revision: the system that names it and its object id.
#[derive(Clone, Debug, PartialEq, Eq)]
pub struct RevisionInfo {
    pub kind: RevisionKind,
    pub revision: String,
}

/// What is under way in a repository: the states that Git tells apart.
#[derive(Clone, Copy, Debug, PartialEq, Eq, Structural)]
pub enum TreeState {
    /// No operation is under way.
    Clean,
    Merge,
    Revert,
    RevertSequence,
    CherryPick,
    CherryPickSequence,
    Bisect,
    Rebase,
    RebaseInteractive,
    RebaseMerge,
    ApplyMailbox,
    ApplyMailboxOrRebase,
}

/// One line of the working tree's status.
#[derive(Clone, Debug, PartialEq, Eq)]
pub struct StatusEntry {
    pub path: String,
    /// The status flags of the path, as Git reports them.
    pub status: u32,
}

/// What was read from the working tree.
#[derive(Clone, Debug, PartialEq, Eq)]
pub struct WorkTree {
    /// The system whose control directory was found at the root, if any.
    pub kind: Option<RevisionKind>,
    /// What is under way in the repository.
    pub state: TreeState,
    /// The status of the paths of the tree.
    pub entries: Vec<StatusEntry>,
    /// The object id that the head resolves to, if it resolves.
    pub head: Option<String>,
}

/// Why no revision can be named.
#[derive(Clone, Debug, PartialEq, Eq)]
pub enum RevisionError {
    /// The tree is under no version control.
    NoRevisionInfo,
    /// An operation, which this is, is under way in the repository.
    OperationPending(TreeState),
    /// Tracked files differ from the revision: their paths, in the order of the
    /// status listing.
    DirtyWorkingTree(Vec<String>),
    /// The head names no object.
    UnresolvedHead,
}

/// The status of a path that does not differ from the revision: no flag.
pub const STATUS_CURRENT: u32 = 0;

/// The flag of a path that is in the working tree and not under version
/// control.
pub const STATUS_UNTRACKED: u32 = 0x80;

/// The flag of a path that an ignore rule excludes from version control.
pub const STATUS_IGNORED: u32 = 0x4000;

/// The status without flags: `git2::Status::CURRENT`, which has no bit set.
#[verifier::external_body]
fn status_current() -> (bits: u32)
    ensures
        bits == STATUS_CURRENT,
{
    git2::Status::CURRENT.bits()
}

/// The flag of an untracked path: `git2::Status::WT_NEW`, bit 7 of a status.
#[verifier::external_body]
fn status_untracked() -> (bits: u32)
    ensures
        bits == STATUS_UNTRACKED,
{
    git2::Status::WT_NEW.bits()
}

/// The flag of an ignored path: `git2::Status::IGNORED`, bit 14 of a status.
#[verifier::external_body]
fn status_ignored() -> (bits: u32)
    ensures
        bits == STATUS_IGNORED,
{
    git2::Status::IGNORED.bits()
}

/// Whether a path with the status `status` stands in the way of naming a
/// revision: it does where it differs from the revision in anything but being
/// untracked or ignored, for such paths are no part of any revision.
pub open spec fn blocks(status: u32) -> bool {
    status & !(STATUS_UNTRACKED | STATUS_IGNORED) != STATUS_CURRENT
}

/// Whether a path with the status `status` stands in the way of naming a
/// revision.
pub fn is_blocking(status: u32) -> (blocking: bool)
    ensures
        blocking == blocks(status),
{
    let passed_over: u32 = status_untracked() | status_ignored();
    status & !passed_over != status_current()
}

/// A path without flags does not block, nor one that is only untracked or
/// ignored; every other flag blocks, whatever comes with it.
pub proof fn lemma_blocks(status: u32)
    ensures
        !blocks(STATUS_CURRENT),
        !blocks(STATUS_UNTRACKED),
        !blocks(STATUS_IGNORED),
        !blocks(STATUS_UNTRACKED | STATUS_IGNORED),
        blocks(status) <==> status & 0xffff_bf7f != 0,
{
    assert(0u32 & !(0x80u32 | 0x4000u32) == 0) by (bit_vector);
    assert(0x80u32 & !(0x80u32 | 0x4000u32) == 0) by (bit_vector);
    assert(0x4000u32 & !(0x80u32 | 0x4000u32) == 0) by (bit_vector);
    assert((0x80u32 | 0x4000u32) & !(0x80u32 | 0x4000u32) == 0) by (bit_vector);
    assert(status & !(0x80u32 | 0x4000u32) == status & 0xffff_bf7f) by (bit_vector);
}

impl TreeState {
    /// Whether an operation is under way.
    pub open spec fn pending(self) -> bool {
        !(self is Clean)
    }

    /// Whether an operation is under way.
    pub fn is_pending(self) -> (pending: bool)
        ensures
            pending == self.pending(),
    {
        match self {
            TreeState::Clean => false,
            _ => true,
        }
    }
}

impl RevisionKind {
    /// The name under which a proof records this kind of revision.
    pub open spec fn name(self) -> Seq<char> {
        match self {
            RevisionKind::Git => "git"@,
        }
    }

    /// The name under which a proof records this kind of revision.
    pub fn label(self) -> (name: String)
        ensures
            name@ == self.name(),
    {
        match self {
            RevisionKind::Git => String::from_str("git"),
        }
    }
}

/// The paths of the entries that block, in the order of the listing.
pub open spec fn dirty_paths(entries: Seq<StatusEntry>) -> Seq<Seq<char>>
    decreases entries.len(),
{
    if entries.len() == 0 {
        Seq::empty()
    } else if blocks(entries.last().status) {
        dirty_paths(entries.drop_last()).push(entries.last().path@)
    } else {
        dirty_paths(entries.drop_last())
    }
}

/// A blocking entry puts its path among the dirty paths, and every dirty path
/// is that of a blocking entry.
pub proof fn lemma_dirty_paths(entries: Seq<StatusEntry>)
    ensures
        forall|i: int|
            0 <= i < entries.len() && blocks((#[trigger] entries[i]).status)
                ==> dirty_paths(entries).contains(entries[i].path@),
        forall|p: Seq<char>| #[trigger]
            dirty_paths(entries).contains(p) ==> exists|i: int|
                0 <= i < entries.len() && blocks((#[trigger] entries[i]).status)
                    && entries[i].path@ == p,
        dirty_paths(entries).len() == 0 <==> forall|i: int|
            0 <= i < entries.len() ==> !blocks((#[trigger] entries[i]).status),
    decreases entries.len(),
{
    if entries.len() > 0 {
        let head = entries.drop_last();
        let last = entries.last();
        lemma_dirty_paths(head);
        let all = dirty_paths(entries);
        assert forall|i: int| 0 <= i < entries.len() && blocks((#[trigger] entries[i]).status)
            implies all.contains(entries[i].path@) by {
            if i < head.len() {
                assert(entries[i] == head[i]);
                let k = choose|k: int|
                    0 <= k < dirty_paths(head).len() && dirty_paths(head)[k] == head[i].path@;
                assert(all[k] == head[i].path@);
            } else {
                assert(all[all.len() - 1] == last.path@);
            }
        }
        assert forall|p: Seq<char>| #[trigger] all.contains(p) implies exists|i: int|
            0 <= i < entries.len() && blocks((#[trigger] entries[i]).status) && entries[i].path@
                == p by {
            let k = choose|k: int| 0 <= k < all.len() && all[k] == p;
            if k < dirty_paths(head).len() {
                assert(dirty_paths(head)[k] == p);
                assert(dirty_paths(head).contains(p));
                let i = choose|i: int|
                    0 <= i < head.len() && blocks((#[trigger] head[i]).status) && head[i].path@
                        == p;
                assert(entries[i] == head[i]);
            } else {
                assert(entries[entries.len() - 1] == last);
            }
        }
        if dirty_paths(entries).len() == 0 {
            assert forall|i: int| 0 <= i < entries.len() implies !blocks(
                (#[trigger] entries[i]).status,
            ) by {
                if i < head.len() {
                    assert(entries[i] == head[i]);
                }
            }
        } else if !blocks(last.status) {
            let i = choose|i: int| 0 <= i < head.len() && blocks((#[trigger] head[i]).status);
            assert(entries[i] == head[i]);
        } else {
            assert(blocks(entries[entries.len() - 1].status));
        }
    }
}

/// Whether `tree` is a clean Git tree whose head resolves.
pub open spec fn names_revision(tree: WorkTree) -> bool {
    &&& tree.kind == Some(RevisionKind::Git)
    &&& !tree.state.pending()
    &&& dirty_paths(tree.entries@).len() == 0
    &&& tree.head is Some
}

/// The Git revision of `tree`: nothing where the tree is not under Git, an
/// error where it is but no revision may be named, else the head's object id.
///
/// The checks are made in this order: an operation under way, then tracked
/// files that differ (all of them are reported), then the head.
pub fn try_read_git_revision(tree: &WorkTree) -> (found: Result<Option<RevisionInfo>, RevisionError>)
    ensures
        match found {
            Ok(None) => tree.kind is None,
            Ok(Some(info)) => names_revision(*tree) && info.kind == RevisionKind::Git
                && info.revision@ == tree.head->Some_0@,
            Err(RevisionError::OperationPending(state)) => tree.kind is Some && tree.state.pending()
                && state == tree.state,
            Err(RevisionError::DirtyWorkingTree(paths)) => tree.kind is Some
                && !tree.state.pending() && paths.deep_view() == dirty_paths(tree.entries@)
                && paths.len() > 0,
            Err(RevisionError::UnresolvedHead) => tree.kind is Some && !tree.state.pending()
                && dirty_paths(tree.entries@).len() == 0 && tree.head is None,
            Err(RevisionError::NoRevisionInfo) => false,
        },
{
    match tree.kind {
        None => {
            return Ok(None);
        },
        Some(RevisionKind::Git) => {},
    }
    if tree.state.is_pending() {
        return Err(RevisionError::OperationPending(tree.state));
    }
    let mut dirty: Vec<String> = Vec::new();
    let mut i: usize = 0;
    while i < tree.entries.len()
        invariant
            i <= tree.entries@.len(),
            tree.kind == Some(RevisionKind::Git),
            !tree.state.pending(),
            dirty.deep_view() == dirty_paths(tree.entries@.subrange(0, i as int)),
        decreases tree.entries@.len() - i,
    {
        proof {
            assert(tree.entries@.subrange(0, i + 1).drop_last() =~= tree.entries@.subrange(
                0,
                i as int,
            ));
        }
        if is_blocking(tree.entries[i].status) {
            let ghost before = dirty.deep_view();
            dirty.push(tree.entries[i].path.clone());
            proof {
                assert(dirty.deep_view() =~= before.push(tree.entries@[i as int].path@));
            }
        }
        i = i + 1;
    }
    proof {
        assert(tree.entries@.subrange(0, i as int) =~= tree.entries@);
        assert(dirty.deep_view().len() == dirty@.len());
    }
    if dirty.len() > 0 {
        return Err(RevisionError::DirtyWorkingTree(dirty));
    }
    match &tree.head {
        None => Err(RevisionError::UnresolvedHead),
        Some(id) => Ok(Some(RevisionInfo { kind: RevisionKind::Git, revision: id.clone() })),
    }
}

/// The revision of `tree`. Exactly the trees for which `names_revision` holds
/// have one; for every other tree the error says what stands in the way, with
/// `NoRevisionInfo` for a tree under no version control.
pub fn read_revision(tree: &WorkTree) -> (found: Result<RevisionInfo, RevisionError>)
    ensures
        found is Ok <==> names_revision(*tree),
        match found {
            Ok(info) => info.kind == RevisionKind::Git && info.revision@ == tree.head->Some_0@,
            Err(RevisionError::NoRevisionInfo) => tree.kind is None,
            Err(RevisionError::OperationPending(state)) => tree.kind is Some && tree.state.pending()
                && state == tree.state,
            Err(RevisionError::DirtyWorkingTree(paths)) => tree.kind is Some
                && !tree.state.pending() && paths.deep_view() == dirty_paths(tree.entries@)
                && paths.len() > 0,
            Err(RevisionError::UnresolvedHead) => tree.kind is Some && !tree.state.pending()
                && dirty_paths(tree.entries@).len() == 0 && tree.head is None,
        },
{
    match try_read_git_revision(tree) {
        Ok(Some(info)) => Ok(info),
        Ok(None) => Err(RevisionError::NoRevisionInfo),
        Err(e) => Err(e),
    }
}

} // verus!
