//! Committing a review: from the staged files to a signed proof in the store.
//!
//! A commit alternates between decisions, which are made here, and work that
//! only the caller can do: unlocking the identity, reading the working tree,
//! having the content edited and signed, writing to disk. `Repo::commit` is one
//! step of it. It takes the state the commit is in and what the caller's last
//! piece of work brought, and returns the next state and what to do next. The
//! staging area is cleared by the one step that follows a successful append,
//! and by no other.

use vstd::prelude::*;
use vstd::string::*;
use crate::config::{ConfigError, ProjectConfig};
use crate::level::Level;
use crate::path::join_spec;
use crate::repo::{
    dot_crev_spec, opened, rel_store_path_spec, staging_path_spec, Repo, StoreWrite,
};
use crate::review::{
    defect, Content, Levels, ReviewProof, ReviewProofView, ValidationError,
};
use crate::revision::{
    blocks, dirty_paths, names_revision, read_revision, RevisionError, RevisionKind, WorkTree,
};
use crate::signing::{base64_text, seal_defect, serialized, writable, SignedProof, SigningError};
use crate::staging::{
    paths_of, stale_paths, ConsistencyError, Observation, StagingError,
};
use crate::store::{lemma_append_only, proofs_of};

verus! {

/// The author who signs: what of an identity goes into a proof.
#[derive(Clone, Debug, PartialEq, Eq)]
pub struct Identity {
    /// The public key, in base64.
    pub key: String,
    /// Where the author publishes proofs.
    pub url: String,
    /// The kind of the identity.
    pub kind: String,
}

/// Where a commit stands.
#[derive(Clone, Copy, Debug, PartialEq, Eq, Structural)]
pub enum CommitState {
    /// Nothing was done yet.
    Idle,
    /// Files are staged; the identity, the configuration and the state of the
    /// working tree are being gathered.
    Staged,
    /// The staged files are current, the revision is bound and the content is
    /// built; it is being edited and signed.
    Validated,
    /// The proof is signed; it is being appended to the store.
    Signed,
    /// The proof is in the store; the persisted staging area is being cleared.
    Appended,
    /// The staging area is cleared: the commit is done.
    Wiped,
    /// The commit was given up.
    Aborted,
}

/// A piece of the caller's work that failed.
#[derive(Clone, Copy, Debug, PartialEq, Eq, Structural)]
pub enum Failure {
    /// The project's configuration could not be read.
    Configuration,
    /// The identity could not be unlocked.
    Identity,
    /// The working tree could not be read.
    Revision,
    /// The user gave up while editing the content.
    UserAborted,
    /// The content could not be signed.
    Signing,
    /// A write to disk failed.
    Durability,
}

/// What the caller's last piece of work brought.
#[derive(Clone, Debug)]
pub enum CommitEvent {
    /// The commit is asked for. `persisted` is what the staging file holds, if
    /// there is one; it is looked at only where the staging area is not open.
    Start { persisted: Option<Vec<u8>> },
    /// What was gathered: who signs, the project's configuration, the working
    /// tree, and what the staged paths hold now.
    Gathered { identity: Identity, config: ProjectConfig, tree: WorkTree, observed: Vec<Observation> },
    /// The content as the user left it, its serialized form, and the
    /// signature over that form.
    Signed { review: ReviewProof, body: Vec<u8>, signature: Vec<u8> },
    /// The proof was appended to the store and flushed.
    Appended,
    /// The persisted staging area was cleared.
    Cleared,
    /// The work failed.
    Failed(Failure),
}

/// Why a commit was given up.
#[derive(Clone, Debug, PartialEq, Eq)]
pub enum CommitError {
    /// No file is staged: there is nothing to commit.
    NothingToCommit,
    /// What was persisted is no staging area.
    Staging(StagingError),
    /// The project's configuration cannot be used.
    Config(ConfigError),
    /// No revision can be named.
    Revision(RevisionError),
    /// Staged files are no longer what was staged.
    Stale(ConsistencyError),
    /// The content is invalid.
    Invalid(ValidationError),
    /// No signed proof could be made.
    Signing(SigningError),
    /// A piece of the caller's work failed.
    Failed(Failure),
    /// What was brought is not what the state of the commit waits for.
    OutOfOrder,
}

/// What the caller is to do next.
#[derive(Clone, Debug)]
pub enum CommitAction {
    /// Unlock the identity, read the configuration and the working tree, and
    /// look at what each of `paths` holds now.
    Gather { paths: Vec<String> },
    /// Have `review` edited, serialize it and sign it.
    Sign { review: ReviewProof },
    /// Append `write.bytes`, which are the bytes of `signed`, to the file
    /// `write.path`, and flush.
    Append { write: StoreWrite, signed: SignedProof },
    /// Clear the persisted staging area, the file `path`.
    Clear { path: String },
    /// Nothing: the commit is done.
    Done,
    /// Nothing: the commit was given up.
    Abort(CommitError),
}

/// The content that is built from what was gathered: a review by `identity` of
/// the staged `files` at the head of `tree`, with every rating low.
pub open spec fn gathered_content(
    identity: Identity,
    config: ProjectConfig,
    tree: WorkTree,
    files: Seq<(Seq<char>, Seq<u8>)>,
) -> ReviewProofView {
    ReviewProofView {
        from_key: identity.key@,
        from_url: identity.url@,
        from_type: identity.kind@,
        revision: tree.head->Some_0@,
        revision_type: RevisionKind::Git.name(),
        project_id: config.project_id@,
        comment: Seq::empty(),
        thoroughness: Level::Low,
        understanding: Level::Low,
        trust: Level::Low,
        files,
    }
}

/// Whether `error` says why `tree` names no revision.
pub open spec fn explains(error: RevisionError, tree: WorkTree) -> bool {
    match error {
        RevisionError::NoRevisionInfo => tree.kind is None,
        RevisionError::OperationPending(state) => tree.kind is Some && tree.state.pending()
            && state == tree.state,
        RevisionError::DirtyWorkingTree(paths) => tree.kind is Some && !tree.state.pending()
            && paths.deep_view() == dirty_paths(tree.entries@) && paths@.len() > 0,
        RevisionError::UnresolvedHead => tree.kind is Some && !tree.state.pending()
            && dirty_paths(tree.entries@).len() == 0 && tree.head is None,
    }
}

/// The step from `Idle`: the staging area is opened; with files staged the
/// commit goes on to gather, with none it is given up.
pub open spec fn starts(
    before: Repo,
    persisted: Option<Seq<u8>>,
    after: Repo,
    next: CommitState,
    action: CommitAction,
) -> bool {
    match opened(before.staged(), persisted) {
        None => after == before && next is Aborted && action matches CommitAction::Abort(
            CommitError::Staging(_),
        ),
        Some(files) => {
            &&& after.staged() == Some(files)
            &&& if files == Map::<Seq<char>, Seq<u8>>::empty() {
                next is Aborted && action matches CommitAction::Abort(CommitError::NothingToCommit)
            } else {
                next is Staged && (action matches CommitAction::Gather { paths }
                    && after.lists_paths(paths.deep_view()))
            }
        },
    }
}

/// The step from `Staged`: the checks are made in this order, and the first
/// that fails gives the commit up: that files are staged, that the
/// configuration can be used, that the tree names a revision, that every
/// staged file is current, that the content is valid.
pub open spec fn validates(
    repo: Repo,
    identity: Identity,
    config: ProjectConfig,
    tree: WorkTree,
    observed: Seq<Observation>,
    next: CommitState,
    action: CommitAction,
) -> bool {
    match repo.staging_area() {
        None => next is Aborted && action matches CommitAction::Abort(CommitError::OutOfOrder),
        Some(staging) => {
            let files = staging.listing();
            let content = gathered_content(identity, config, tree, files);
            if files.len() == 0 {
                next is Aborted && action matches CommitAction::Abort(CommitError::NothingToCommit)
            } else if ProjectConfig::defect(config@) is Some {
                next is Aborted && (action matches CommitAction::Abort(CommitError::Config(e))
                    && Some(e) == ProjectConfig::defect(config@))
            } else if !names_revision(tree) {
                next is Aborted && (action matches CommitAction::Abort(CommitError::Revision(e))
                    && explains(e, tree))
            } else if stale_paths(files, observed).len() > 0 {
                next is Aborted && (action matches CommitAction::Abort(CommitError::Stale(e))
                    && e.paths.deep_view() == stale_paths(files, observed))
            } else if defect(content) is Some {
                next is Aborted && (action matches CommitAction::Abort(CommitError::Invalid(e))
                    && Some(e) == defect(content))
            } else {
                next is Validated && (action matches CommitAction::Sign { review } && review@
                    == content)
            }
        },
    }
}

/// The step from `Validated`: the content as it was edited is taken as it is,
/// if it is valid; with its signature it becomes the proof to append.
pub open spec fn seals(
    repo: Repo,
    review: ReviewProof,
    body: Seq<u8>,
    signature: Seq<u8>,
    next: CommitState,
    action: CommitAction,
) -> bool {
    if defect(review@) is Some {
        next is Aborted && (action matches CommitAction::Abort(CommitError::Invalid(e)) && Some(e)
            == defect(review@))
    } else if seal_defect(body, signature) is Some {
        next is Aborted && (action matches CommitAction::Abort(CommitError::Signing(e)) && Some(e)
            == seal_defect(body, signature))
    } else {
        next is Signed && (action matches CommitAction::Append { write, signed } && {
            &&& signed@ == (body, base64_text(signature))
            &&& writable(signed@)
            &&& write.bytes@ == serialized(signed@)
            &&& write.path@ == join_spec(
                dot_crev_spec(repo.root()),
                rel_store_path_spec(review.project_id@),
            )
        })
    }
}

/// One step of a commit: what `Repo::commit` does to the repository `before`
/// in `state` on `event`, leaving it as `after`, in state `next`, with `action`
/// for the caller.
pub open spec fn steps(
    before: Repo,
    state: CommitState,
    event: CommitEvent,
    after: Repo,
    next: CommitState,
    action: CommitAction,
) -> bool {
    &&& after.root() == before.root()
    &&& match (state, event) {
        (CommitState::Idle, CommitEvent::Start { persisted }) => starts(
            before,
            match persisted {
                None => None,
                Some(bytes) => Some(bytes@),
            },
            after,
            next,
            action,
        ),
        (
            CommitState::Staged,
            CommitEvent::Gathered { identity, config, tree, observed },
        ) => after == before && validates(
            before,
            identity,
            config,
            tree,
            observed@,
            next,
            action,
        ),
        (CommitState::Validated, CommitEvent::Signed { review, body, signature }) => after
            == before && seals(before, review, body@, signature@, next, action),
        (CommitState::Signed, CommitEvent::Appended) => after == before && next is Appended && (
        action matches CommitAction::Clear { path } && path@ == staging_path_spec(before.root())),
        (CommitState::Appended, CommitEvent::Cleared) => after.staged() == Some(
            Map::<Seq<char>, Seq<u8>>::empty(),
        ) && next is Wiped && action is Done,
        (CommitState::Wiped, _) | (CommitState::Aborted, _) => after == before && next is Aborted
            && action matches CommitAction::Abort(CommitError::OutOfOrder),
        (_, CommitEvent::Failed(failure)) => after == before && next is Aborted && (
        action matches CommitAction::Abort(CommitError::Failed(f)) && f == failure),
        _ => after == before && next is Aborted && action matches CommitAction::Abort(
            CommitError::OutOfOrder,
        ),
    }
}

impl Repo {
    /// The step from `Idle`.
    fn start(&mut self, persisted: Option<Vec<u8>>) -> (step: (CommitState, CommitAction))
        requires
            old(self).wf(),
        ensures
            final(self).wf(),
            final(self).root() == old(self).root(),
            starts(
                *old(self),
                match persisted {
                    None => None,
                    Some(bytes) => Some(bytes@),
                },
                *final(self),
                step.0,
                step.1,
            ),
    {
        let listed = match &persisted {
            None => self.status(None),
            Some(bytes) => self.status(Some(bytes.as_slice())),
        };
        match listed {
            Err(e) => (CommitState::Aborted, CommitAction::Abort(CommitError::Staging(e))),
            Ok(paths) => {
                proof {
                    let staging = self.staging_area()->Some_0;
                    staging.lemma_listing();
                    assert(paths.deep_view().len() == paths@.len());
                    assert(paths_of(staging.listing()).len() == staging.listing().len());
                    if paths@.len() == 0 {
                        assert(staging@ =~= Map::<Seq<char>, Seq<u8>>::empty());
                    } else {
                        assert(staging@.contains_pair(staging.listing()[0].0, staging.listing()[0].1));
                    }
                }
                if paths.len() == 0 {
                    (CommitState::Aborted, CommitAction::Abort(CommitError::NothingToCommit))
                } else {
                    (CommitState::Staged, CommitAction::Gather { paths })
                }
            },
        }
    }

    /// The step from `Staged`.
    fn validate(
        &self,
        identity: Identity,
        config: ProjectConfig,
        tree: WorkTree,
        observed: Vec<Observation>,
    ) -> (step: (CommitState, CommitAction))
        requires
            self.wf(),
        ensures
            validates(*self, identity, config, tree, observed@, step.0, step.1),
    {
        let staging = match self.staging_ref() {
            None => {
                return (CommitState::Aborted, CommitAction::Abort(CommitError::OutOfOrder));
            },
            Some(staging) => staging,
        };
        if staging.is_empty() {
            return (CommitState::Aborted, CommitAction::Abort(CommitError::NothingToCommit));
        }
        match config.check() {
            Err(e) => {
                return (CommitState::Aborted, CommitAction::Abort(CommitError::Config(e)));
            },
            Ok(()) => {},
        }
        let revision = match read_revision(&tree) {
            Err(e) => {
                return (CommitState::Aborted, CommitAction::Abort(CommitError::Revision(e)));
            },
            Ok(revision) => revision,
        };
        match staging.enforce_current(&observed) {
            Err(e) => {
                return (CommitState::Aborted, CommitAction::Abort(CommitError::Stale(e)));
            },
            Ok(()) => {},
        }
        let files = staging.to_review_files();
        let built = ReviewProof::build(
            identity.key,
            identity.url,
            identity.kind,
            revision,
            config.project_id,
            Levels::default(),
            files,
        );
        match built {
            Err(e) => (CommitState::Aborted, CommitAction::Abort(CommitError::Invalid(e))),
            Ok(review) => (CommitState::Validated, CommitAction::Sign { review }),
        }
    }

    /// The step from `Validated`.
    fn seal(&self, review: ReviewProof, body: Vec<u8>, signature: Vec<u8>) -> (step: (
        CommitState,
        CommitAction,
    ))
        ensures
            seals(*self, review, body@, signature@, step.0, step.1),
    {
        match review.validate() {
            Err(e) => {
                return (CommitState::Aborted, CommitAction::Abort(CommitError::Invalid(e)));
            },
            Ok(()) => {},
        }
        let signed = match SignedProof::seal(body, signature.as_slice()) {
            Err(e) => {
                return (CommitState::Aborted, CommitAction::Abort(CommitError::Signing(e)));
            },
            Ok(signed) => signed,
        };
        let content = Content::Review(review);
        let rel_store_path = self.get_proof_rel_store_path(&content);
        let write = self.append_proof_at(&signed, rel_store_path.as_str());
        (CommitState::Signed, CommitAction::Append { write, signed })
    }

    /// One step of a commit. See `steps` for what each state does on each
    /// event; in short:
    ///
    /// - `Idle`, on `Start`: with files staged, `Staged` and `Gather`; with
    ///   none, the commit is given up: there is nothing to commit.
    /// - `Staged`, on `Gathered`: with a usable configuration, a clean
    ///   revision, every staged file current and valid content, `Validated` and
    ///   `Sign`; else the commit is given up for the first of these that fails.
    /// - `Validated`, on `Signed`: with valid content and a signature, `Signed`
    ///   and `Append`.
    /// - `Signed`, on `Appended`: `Appended` and `Clear`.
    /// - `Appended`, on `Cleared`: the staging area is emptied; `Wiped` and
    ///   `Done`.
    /// - In every state, on `Failed`, and on any event that the state does not
    ///   wait for: the commit is given up.
    ///
    /// But for the opening of the staging area by the first step and its
    /// emptying by the last, no step changes the repository.
    pub fn commit(&mut self, state: CommitState, event: CommitEvent) -> (step: (
        CommitState,
        CommitAction,
    ))
        requires
            old(self).wf(),
        ensures
            final(self).wf(),
            steps(*old(self), state, event, *final(self), step.0, step.1),
    {
        match state {
            CommitState::Wiped | CommitState::Aborted => {
                return (CommitState::Aborted, CommitAction::Abort(CommitError::OutOfOrder));
            },
            _ => {},
        }
        match event {
            CommitEvent::Failed(failure) => (
                CommitState::Aborted,
                CommitAction::Abort(CommitError::Failed(failure)),
            ),
            CommitEvent::Start { persisted } => match state {
                CommitState::Idle => self.start(persisted),
                _ => (CommitState::Aborted, CommitAction::Abort(CommitError::OutOfOrder)),
            },
            CommitEvent::Gathered { identity, config, tree, observed } => match state {
                CommitState::Staged => self.validate(identity, config, tree, observed),
                _ => (CommitState::Aborted, CommitAction::Abort(CommitError::OutOfOrder)),
            },
            CommitEvent::Signed { review, body, signature } => match state {
                CommitState::Validated => self.seal(review, body, signature),
                _ => (CommitState::Aborted, CommitAction::Abort(CommitError::OutOfOrder)),
            },
            CommitEvent::Appended => match state {
                CommitState::Signed => (
                    CommitState::Appended,
                    CommitAction::Clear { path: self.staging_path() },
                ),
                _ => (CommitState::Aborted, CommitAction::Abort(CommitError::OutOfOrder)),
            },
            CommitEvent::Cleared => match state {
                CommitState::Appended => {
                    self.wipe_staging();
                    (CommitState::Wiped, CommitAction::Done)
                },
                _ => (CommitState::Aborted, CommitAction::Abort(CommitError::OutOfOrder)),
            },
        }
    }
}

/// The bytes of an optional byte vector.
pub open spec fn persisted_view(persisted: Option<Vec<u8>>) -> Option<Seq<u8>> {
    match persisted {
        None => None,
        Some(bytes) => Some(bytes@),
    }
}

/// A commit with nothing staged is given up at its first step because there
/// is nothing to commit, and the caller is asked to write nothing.
pub proof fn lemma_nothing_to_commit(
    before: Repo,
    persisted: Option<Vec<u8>>,
    after: Repo,
    next: CommitState,
    action: CommitAction,
)
    requires
        steps(before, CommitState::Idle, CommitEvent::Start { persisted }, after, next, action),
        opened(before.staged(), persisted_view(persisted)) == Some(
            Map::<Seq<char>, Seq<u8>>::empty(),
        ),
    ensures
        next is Aborted,
        action matches CommitAction::Abort(CommitError::NothingToCommit),
        after.staged() == Some(Map::<Seq<char>, Seq<u8>>::empty()),
{
}

/// A commit is given up where a staged file no longer is what was staged, be
/// it changed or gone: no content is handed out to be signed, nothing is to
/// be appended, and the staging area stays as it is. Where the checks before
/// this one pass, the error names the file.
pub proof fn lemma_stale_file_stops_commit(
    before: Repo,
    identity: Identity,
    config: ProjectConfig,
    tree: WorkTree,
    observed: Vec<Observation>,
    after: Repo,
    next: CommitState,
    action: CommitAction,
    path: Seq<char>,
)
    requires
        before.wf(),
        steps(
            before,
            CommitState::Staged,
            CommitEvent::Gathered { identity, config, tree, observed },
            after,
            next,
            action,
        ),
        before.staged() matches Some(files) && files.dom().contains(path)
            && crate::staging::reported(observed@, path) != Some(files[path]),
    ensures
        next is Aborted,
        action is Abort,
        after == before,
        ProjectConfig::defect(config@) is None && names_revision(tree) ==> (
        action matches CommitAction::Abort(CommitError::Stale(e)) && e.paths.deep_view().contains(
            path,
        )),
{
    let staging = before.staging_area()->Some_0;
    let files = staging.listing();
    staging.lemma_listing();
    staging.lemma_current(observed@);
    crate::staging::lemma_stale_paths(files, observed@);
    let i = choose|i: int| 0 <= i < files.len() && (#[trigger] files[i]).0 == path;
    assert(staging@.contains_pair(files[i].0, files[i].1));
    assert(stale_paths(files, observed@).contains(path));
}

/// A commit is given up where a tracked file of the working tree differs from
/// the revision: before any content is handed out to be signed.
pub proof fn lemma_dirty_tree_stops_commit(
    before: Repo,
    identity: Identity,
    config: ProjectConfig,
    tree: WorkTree,
    observed: Vec<Observation>,
    after: Repo,
    next: CommitState,
    action: CommitAction,
    entry: int,
)
    requires
        steps(
            before,
            CommitState::Staged,
            CommitEvent::Gathered { identity, config, tree, observed },
            after,
            next,
            action,
        ),
        0 <= entry < tree.entries@.len(),
        blocks(tree.entries@[entry].status),
    ensures
        next is Aborted,
        action is Abort,
        after == before,
        before.staged() matches Some(files) && files != Map::<Seq<char>, Seq<u8>>::empty()
            && ProjectConfig::defect(config@) is None && tree.kind is Some
            && !tree.state.pending() ==> (
        action matches CommitAction::Abort(
            CommitError::Revision(RevisionError::DirtyWorkingTree(paths)),
        ) && paths.deep_view().contains(tree.entries@[entry].path@)),
{
    crate::revision::lemma_dirty_paths(tree.entries@);
    assert(dirty_paths(tree.entries@).contains(tree.entries@[entry].path@));
    if before.staging_area() is Some {
        let staging = before.staging_area()->Some_0;
        staging.lemma_view();
        if staging.listing().len() == 0 {
            assert(staging@ =~= Map::<Seq<char>, Seq<u8>>::empty());
        }
    }
}

/// The order of a commit. The staging area is emptied by the step that takes
/// `Appended` to `Wiped` and by no other, `Appended` is reached only from
/// `Signed` on the news that the proof was appended, and `Signed` only with
/// the request to append one proof. A step that gives the commit up asks for
/// no write and, the first step's opening of the staging area aside, changes
/// nothing.
pub proof fn lemma_commit_order(
    before: Repo,
    state: CommitState,
    event: CommitEvent,
    after: Repo,
    next: CommitState,
    action: CommitAction,
)
    requires
        steps(before, state, event, after, next, action),
    ensures
        next is Wiped <==> state is Appended && event is Cleared,
        next is Wiped ==> after.staged() == Some(Map::<Seq<char>, Seq<u8>>::empty()),
        next is Appended <==> state is Signed && event is Appended,
        next is Signed ==> state is Validated,
        next is Validated ==> state is Staged,
        next is Staged ==> state is Idle,
        !(next is Idle),
        action is Append <==> next is Signed,
        action is Clear <==> next is Appended,
        action is Sign <==> next is Validated,
        action is Gather <==> next is Staged,
        action is Done <==> next is Wiped,
        action is Abort <==> next is Aborted,
        !(next is Wiped) ==> after == before || (state is Idle && after.staged() is Some && (
        before.staged() is Some ==> after.staged() == before.staged())),
{
}

/// The one write that a commit asks of the store adds exactly one proof:
/// whatever proofs the store file holds, after the bytes of the `Append` were
/// added at its end it holds those, untouched, and the new proof after them.
pub proof fn lemma_append_adds_one_proof(
    before: Repo,
    state: CommitState,
    event: CommitEvent,
    after: Repo,
    next: CommitState,
    write: StoreWrite,
    signed: SignedProof,
    store: Seq<u8>,
)
    requires
        steps(before, state, event, after, next, CommitAction::Append { write, signed }),
        proofs_of(store) is Some,
    ensures
        proofs_of(store + write.bytes@) == Some(proofs_of(store)->Some_0.push(signed@)),
        (store + write.bytes@).subrange(0, store.len() as int) == store,
        after == before,
{
    lemma_append_only(store, signed@);
}

/// One step of a commit as it happened: what was brought, and what
/// `Repo::commit` made of it.
pub struct Step {
    pub event: CommitEvent,
    pub after: Repo,
    pub next: CommitState,
    pub action: CommitAction,
}

/// The place of a state in the order of a commit.
pub open spec fn rank(state: CommitState) -> int {
    match state {
        CommitState::Idle => 0,
        CommitState::Staged => 1,
        CommitState::Validated => 2,
        CommitState::Signed => 3,
        CommitState::Appended => 4,
        CommitState::Wiped => 5,
        CommitState::Aborted => 6,
    }
}

/// The repository before step `i` of `run`, a commit on `start`.
pub open spec fn repo_before(start: Repo, run: Seq<Step>, i: int) -> Repo {
    if i == 0 {
        start
    } else {
        run[i - 1].after
    }
}

/// The state before step `i` of `run`.
pub open spec fn state_before(run: Seq<Step>, i: int) -> CommitState {
    if i == 0 {
        CommitState::Idle
    } else {
        run[i - 1].next
    }
}

/// Whether step `i` of `run` is one that `Repo::commit` makes from where the
/// step before it ended.
#[verifier::opaque]
pub open spec fn follows(start: Repo, run: Seq<Step>, i: int) -> bool
    recommends
        0 <= i < run.len(),
{
    steps(
        repo_before(start, run, i),
        state_before(run, i),
        run[i].event,
        run[i].after,
        run[i].next,
        run[i].action,
    )
}

/// Whether `run` is a commit on `start`: it begins in `Idle`, and every step
/// is one that `Repo::commit` makes from where the step before it ended.
pub open spec fn is_run(start: Repo, run: Seq<Step>) -> bool {
    forall|i: int| 0 <= i < run.len() ==> #[trigger] follows(start, run, i)
}

/// Whether one of the first `n` steps of `run` ended in `Wiped`.
pub open spec fn wiped_within(run: Seq<Step>, n: int) -> bool {
    exists|k: int| 0 <= k < n && k < run.len() && (#[trigger] run[k]).next is Wiped
}

/// What the order of a commit says of one step of a run.
proof fn lemma_run_step(start: Repo, run: Seq<Step>, i: int)
    requires
        0 <= i < run.len(),
        follows(start, run, i),
        i > 0 ==> follows(start, run, i - 1),
    ensures
        run[i].next is Aborted || rank(run[i].next) == rank(state_before(run, i)) + 1,
        run[i].next is Aborted ==> !(run[i].action is Append) && !(run[i].action is Clear),
        run[i].action is Append <==> run[i].next is Signed,
        run[i].action is Clear <==> run[i].next is Appended,
        run[i].next is Wiped ==> run[i].after.staged() == Some(
            Map::<Seq<char>, Seq<u8>>::empty(),
        ),
        !(run[i].next is Wiped) && i > 0 ==> run[i].after == repo_before(start, run, i),
        i == 0 && start.staged() is Some ==> run[i].after.staged() == start.staged(),
        run[i].after.root() == repo_before(start, run, i).root(),
{
    reveal(follows);
    lemma_commit_order(
        repo_before(start, run, i),
        state_before(run, i),
        run[i].event,
        run[i].after,
        run[i].next,
        run[i].action,
    );
    if i > 0 {
        lemma_commit_order(
            repo_before(start, run, i - 1),
            state_before(run, i - 1),
            run[i - 1].event,
            run[i - 1].after,
            run[i - 1].next,
            run[i - 1].action,
        );
    }
}

/// A commit as a whole. After its step `i`, counted from zero, it either is
/// given up or is in the state of rank `i + 1`. So `Wiped` is reached by
/// the fifth step and no other, after the one request to append, which the
/// third step made, was answered. Once a commit is `Wiped` the staging area
/// is empty; until then, and for ever where the commit is given up, the
/// repository is what the first step left: the staging area as it was or,
/// where it had not been opened, as it was persisted.
pub proof fn lemma_commit_runs(start: Repo, run: Seq<Step>, i: int)
    requires
        is_run(start, run),
        0 <= i < run.len(),
    ensures
        run[i].next is Aborted || rank(run[i].next) == i + 1,
        run[i].action is Append <==> run[i].next is Signed,
        run[i].action is Append ==> i == 2,
        run[i].next is Wiped ==> i == 4 && run[2].action is Append && run[3].action is Clear,
        wiped_within(run, i + 1) ==> run[i].after.staged() == Some(
            Map::<Seq<char>, Seq<u8>>::empty(),
        ),
        !wiped_within(run, i + 1) ==> run[i].after == run[0].after,
        !wiped_within(run, i + 1) && start.staged() is Some ==> run[i].after.staged()
            == start.staged(),
        run[i].after.root() == start.root(),
    decreases i,
{
    assert(follows(start, run, i));
    if i > 0 {
        assert(follows(start, run, i - 1));
    }
    lemma_run_step(start, run, i);
    if run[i].next is Wiped {
        assert(wiped_within(run, i + 1));
    }
    if i > 0 {
        lemma_commit_runs(start, run, i - 1);
        if wiped_within(run, i) {
            let k = choose|k: int| 0 <= k < i && k < run.len() && (#[trigger] run[k]).next is Wiped;
            lemma_commit_runs(start, run, k);
            assert(wiped_within(run, i + 1));
        } else if wiped_within(run, i + 1) {
            let k = choose|k: int|
                0 <= k < i + 1 && k < run.len() && (#[trigger] run[k]).next is Wiped;
            if k < i {
                assert(wiped_within(run, i));
            }
        }
        if run[i].next is Wiped {
            assert(follows(start, run, 3));
            assert(follows(start, run, 2));
            assert(follows(start, run, 1));
            lemma_run_step(start, run, 3);
            lemma_run_step(start, run, 2);
        }
    } else {
        if wiped_within(run, 1) {
            let k = choose|k: int| 0 <= k < 1 && k < run.len() && (#[trigger] run[k]).next is Wiped;
            assert(k == 0);
        }
    }
}

} // verus!
