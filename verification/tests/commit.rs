use crev::commit::{
    CommitAction, CommitError, CommitEvent, CommitState, Failure, Identity,
};
use crev::config::{ConfigError, ProjectConfig};
use crev::repo::Repo;
use crev::review::{ReviewProof, ValidationError};
use crev::revision::{RevisionError, RevisionKind, StatusEntry, TreeState, WorkTree};
use crev::signing::SigningError;
use crev::staging::{Observation, Staging, StagingEntry, StagingError};
use crev::store::read_proofs;
use std::collections::BTreeMap;

/// A project directory held in memory: its files, its staging file and its
/// proof store.
struct Project {
    files: BTreeMap<String, Vec<u8>>,
    staging_file: Option<Vec<u8>>,
    store: BTreeMap<String, Vec<u8>>,
    config: ProjectConfig,
    tree: WorkTree,
}

fn digest(content: &[u8]) -> Vec<u8> {
    let mut sum: Vec<u8> = vec![content.len() as u8];
    sum.extend_from_slice(content);
    sum
}

fn body_of(review: &ReviewProof) -> Vec<u8> {
    let mut text = format!(
        "from: {}\nrevision: {}\nproject-id: {}\nfiles:\n",
        review.from_key, review.revision, review.project_id
    );
    for file in review.files.iter() {
        text.push_str(&format!("  - {}\n", file.path));
    }
    text.into_bytes()
}

fn identity() -> Identity {
    Identity { key: "a2V5".to_string(), url: "https://example.com/me".to_string(), kind: "crev".to_string() }
}

fn clean_tree(head: &str) -> WorkTree {
    WorkTree {
        kind: Some(RevisionKind::Git),
        state: TreeState::Clean,
        entries: Vec::new(),
        head: Some(head.to_string()),
    }
}

impl Project {
    fn new(project_id: &str, files: &[(&str, &str)]) -> (Repo, Project) {
        let (repo, config) =
            Repo::init("/p".to_string(), "root".to_string(), project_id.to_string(), false).unwrap();
        let project = Project {
            files: files.iter().map(|(p, c)| (p.to_string(), c.as_bytes().to_vec())).collect(),
            staging_file: None,
            store: BTreeMap::new(),
            config,
            tree: clean_tree("deadbeef"),
        };
        (repo, project)
    }

    fn add(&mut self, repo: &mut Repo, paths: &[&str]) {
        let entries = paths
            .iter()
            .map(|p| StagingEntry { path: p.to_string(), digest: digest(&self.files[*p]) })
            .collect();
        let bytes = repo.add(self.staging_file.as_deref(), entries).unwrap();
        self.staging_file = Some(bytes);
    }

    fn observe(&self, paths: &[String]) -> Vec<Observation> {
        paths
            .iter()
            .map(|p| Observation { path: p.clone(), digest: self.files.get(p).map(|c| digest(c)) })
            .collect()
    }

    /// Runs a whole commit, doing what each action asks for, and returns the
    /// state it ended in, why it was given up if it was, and the actions.
    fn commit(&mut self, repo: &mut Repo) -> (CommitState, Option<CommitError>, Vec<&'static str>) {
        let mut trail = Vec::new();
        let mut state = CommitState::Idle;
        let mut event = CommitEvent::Start { persisted: self.staging_file.clone() };
        loop {
            let (next, action) = repo.commit(state, event);
            state = next;
            event = match action {
                CommitAction::Gather { paths } => {
                    trail.push("gather");
                    CommitEvent::Gathered {
                        identity: identity(),
                        config: self.config.clone(),
                        tree: self.tree.clone(),
                        observed: self.observe(&paths),
                    }
                }
                CommitAction::Sign { review } => {
                    trail.push("sign");
                    let body = body_of(&review);
                    let signature = digest(&body);
                    CommitEvent::Signed { review, body, signature }
                }
                CommitAction::Append { write, signed } => {
                    trail.push("append");
                    assert_eq!(write.bytes, signed.serialize());
                    self.store.entry(write.path).or_default().extend_from_slice(&write.bytes);
                    CommitEvent::Appended
                }
                CommitAction::Clear { path } => {
                    trail.push("clear");
                    assert_eq!(path, "/p/.crev/staging");
                    self.staging_file = None;
                    CommitEvent::Cleared
                }
                CommitAction::Done => {
                    trail.push("done");
                    return (state, None, trail);
                }
                CommitAction::Abort(error) => {
                    trail.push("abort");
                    return (state, Some(error), trail);
                }
            };
        }
    }
}

#[test]
fn commit_end_to_end() {
    let (mut repo, mut project) =
        Project::new("X", &[("src/a.rs", "fn a() {}"), ("src/b.rs", "fn b() {}")]);
    project.add(&mut repo, &["src/b.rs"]);
    project.add(&mut repo, &["src/a.rs"]);
    assert_eq!(repo.status(None).unwrap(), vec!["src/a.rs".to_string(), "src/b.rs".to_string()]);

    let (state, error, trail) = project.commit(&mut repo);
    assert!(error.is_none());
    assert_eq!(state, CommitState::Wiped);
    assert_eq!(trail, vec!["gather", "sign", "append", "clear", "done"]);

    assert!(repo.status(None).unwrap().is_empty());
    assert!(project.staging_file.is_none());
    assert_eq!(project.store.len(), 1);
    let store = &project.store["/p/.crev/proofs/X"];
    let proofs = read_proofs(store).unwrap();
    assert_eq!(proofs.len(), 1);
    let body = String::from_utf8(proofs[0].body().clone()).unwrap();
    assert_eq!(
        body,
        "from: a2V5\nrevision: deadbeef\nproject-id: X\nfiles:\n  - src/a.rs\n  - src/b.rs\n"
    );
    assert!(!proofs[0].signature().is_empty());
}

#[test]
fn commit_builds_the_review_from_what_was_gathered() {
    let (mut repo, mut project) =
        Project::new("X", &[("src/a.rs", "fn a() {}"), ("src/b.rs", "fn b() {}")]);
    project.add(&mut repo, &["src/b.rs", "src/a.rs"]);
    let (state, action) =
        repo.commit(CommitState::Idle, CommitEvent::Start { persisted: None });
    assert_eq!(state, CommitState::Staged);
    let paths = match action {
        CommitAction::Gather { paths } => paths,
        other => panic!("{:?}", other),
    };
    assert_eq!(paths, vec!["src/a.rs".to_string(), "src/b.rs".to_string()]);
    let (state, action) = repo.commit(
        state,
        CommitEvent::Gathered {
            identity: identity(),
            config: project.config.clone(),
            tree: clean_tree("deadbeef"),
            observed: project.observe(&paths),
        },
    );
    assert_eq!(state, CommitState::Validated);
    let review = match action {
        CommitAction::Sign { review } => review,
        other => panic!("{:?}", other),
    };
    assert_eq!(review.from_key, "a2V5");
    assert_eq!(review.from_url, "https://example.com/me");
    assert_eq!(review.from_type, "crev");
    assert_eq!(review.revision, "deadbeef");
    assert_eq!(review.revision_type, "git");
    assert_eq!(review.project_id, "X");
    assert_eq!(review.comment, "");
    let files: Vec<(&str, Vec<u8>)> =
        review.files.iter().map(|f| (f.path.as_str(), f.digest.clone())).collect();
    assert_eq!(
        files,
        vec![("src/a.rs", digest(b"fn a() {}")), ("src/b.rs", digest(b"fn b() {}"))]
    );
}

#[test]
fn commit_of_nothing_is_refused() {
    let (mut repo, mut project) = Project::new("X", &[("a", "1")]);
    let (state, error, trail) = project.commit(&mut repo);
    assert_eq!(state, CommitState::Aborted);
    assert!(matches!(error, Some(CommitError::NothingToCommit)));
    assert_eq!(trail, vec!["abort"]);
    assert!(project.store.is_empty());
    assert!(project.staging_file.is_none());
    assert!(repo.status(None).unwrap().is_empty());
}

#[test]
fn commit_of_nothing_is_refused_after_everything_was_removed() {
    let (mut repo, mut project) = Project::new("X", &[("a", "1")]);
    project.add(&mut repo, &["a"]);
    project.staging_file = Some(repo.remove(None, vec!["a".to_string()]).unwrap());
    let (state, error, _) = project.commit(&mut repo);
    assert_eq!(state, CommitState::Aborted);
    assert!(matches!(error, Some(CommitError::NothingToCommit)));
    assert!(project.store.is_empty());
}

#[test]
fn commit_is_refused_when_a_staged_file_changed() {
    let (mut repo, mut project) = Project::new("X", &[("a", "1"), ("b", "2"), ("c", "3")]);
    project.add(&mut repo, &["a", "b", "c"]);
    let staged = project.staging_file.clone();
    project.files.insert("b".to_string(), b"changed".to_vec());
    project.files.remove("c");
    let (state, error, trail) = project.commit(&mut repo);
    assert_eq!(state, CommitState::Aborted);
    match error {
        Some(CommitError::Stale(stale)) => {
            assert_eq!(stale.paths, vec!["b".to_string(), "c".to_string()])
        }
        other => panic!("{:?}", other),
    }
    assert_eq!(trail, vec!["gather", "abort"]);
    assert!(project.store.is_empty());
    assert_eq!(project.staging_file, staged);
    assert_eq!(repo.status(None).unwrap().len(), 3);
}

#[test]
fn commit_goes_through_once_the_file_is_staged_again() {
    let (mut repo, mut project) = Project::new("X", &[("a", "1")]);
    project.add(&mut repo, &["a"]);
    project.files.insert("a".to_string(), b"changed".to_vec());
    assert_eq!(project.commit(&mut repo).0, CommitState::Aborted);
    project.add(&mut repo, &["a"]);
    let (state, error, _) = project.commit(&mut repo);
    assert!(error.is_none());
    assert_eq!(state, CommitState::Wiped);
    assert_eq!(read_proofs(&project.store["/p/.crev/proofs/X"]).unwrap().len(), 1);
}

#[test]
fn commit_is_refused_on_a_dirty_tree() {
    let (mut repo, mut project) = Project::new("X", &[("a", "1")]);
    project.add(&mut repo, &["a"]);
    project.tree.entries = vec![
        StatusEntry { path: "untracked".to_string(), status: git2::Status::WT_NEW.bits() },
        StatusEntry { path: "src/lib.rs".to_string(), status: git2::Status::WT_MODIFIED.bits() },
    ];
    let staged = project.staging_file.clone();
    let (state, error, trail) = project.commit(&mut repo);
    assert_eq!(state, CommitState::Aborted);
    match error {
        Some(CommitError::Revision(RevisionError::DirtyWorkingTree(paths))) => {
            assert_eq!(paths, vec!["src/lib.rs".to_string()])
        }
        other => panic!("{:?}", other),
    }
    assert_eq!(trail, vec!["gather", "abort"]);
    assert!(project.store.is_empty());
    assert_eq!(project.staging_file, staged);
    assert_eq!(repo.status(None).unwrap(), vec!["a".to_string()]);

    project.tree.entries.pop();
    assert_eq!(project.commit(&mut repo).0, CommitState::Wiped);
}

#[test]
fn commit_is_refused_without_a_revision() {
    let (mut repo, mut project) = Project::new("X", &[("a", "1")]);
    project.add(&mut repo, &["a"]);
    project.tree.kind = None;
    let (_, error, _) = project.commit(&mut repo);
    assert!(matches!(error, Some(CommitError::Revision(RevisionError::NoRevisionInfo))));
    project.tree.kind = Some(RevisionKind::Git);
    project.tree.state = TreeState::Merge;
    let (_, error, _) = project.commit(&mut repo);
    assert!(matches!(
        error,
        Some(CommitError::Revision(RevisionError::OperationPending(TreeState::Merge)))
    ));
    project.tree.state = TreeState::Clean;
    project.tree.head = None;
    let (_, error, _) = project.commit(&mut repo);
    assert!(matches!(error, Some(CommitError::Revision(RevisionError::UnresolvedHead))));
    assert!(project.store.is_empty());
    assert_eq!(repo.status(None).unwrap(), vec!["a".to_string()]);
}

#[test]
fn commit_checks_the_revision_before_the_staged_files() {
    let (mut repo, mut project) = Project::new("X", &[("a", "1")]);
    project.add(&mut repo, &["a"]);
    project.files.remove("a");
    project.tree.head = None;
    let (_, error, _) = project.commit(&mut repo);
    assert!(matches!(error, Some(CommitError::Revision(RevisionError::UnresolvedHead))));
}

#[test]
fn commit_is_refused_with_an_unusable_configuration() {
    let (mut repo, mut project) = Project::new("X", &[("a", "1")]);
    project.add(&mut repo, &["a"]);
    project.config.version = 7;
    let (_, error, _) = project.commit(&mut repo);
    assert!(matches!(error, Some(CommitError::Config(ConfigError::UnsupportedVersion(7)))));
    project.config.version = 0;
    project.config.project_id = "a/b".to_string();
    let (_, error, trail) = project.commit(&mut repo);
    assert!(matches!(error, Some(CommitError::Invalid(ValidationError::InvalidProjectId))));
    assert_eq!(trail, vec!["gather", "abort"]);
    assert!(project.store.is_empty());
}

#[test]
fn commit_is_refused_when_the_staging_file_is_corrupt() {
    let (mut repo, mut project) = Project::new("X", &[("a", "1")]);
    project.staging_file = Some(b"junk".to_vec());
    let (state, error, trail) = project.commit(&mut repo);
    assert_eq!(state, CommitState::Aborted);
    assert!(matches!(error, Some(CommitError::Staging(StagingError::Corrupt))));
    assert_eq!(trail, vec!["abort"]);
    assert!(!repo.is_staging_open());
}

fn validated(repo: &mut Repo, project: &mut Project) -> ReviewProof {
    let (state, action) =
        repo.commit(CommitState::Idle, CommitEvent::Start { persisted: project.staging_file.clone() });
    let paths = match action {
        CommitAction::Gather { paths } => paths,
        other => panic!("{:?}", other),
    };
    let (state, action) = repo.commit(
        state,
        CommitEvent::Gathered {
            identity: identity(),
            config: project.config.clone(),
            tree: clean_tree("deadbeef"),
            observed: project.observe(&paths),
        },
    );
    assert_eq!(state, CommitState::Validated);
    match action {
        CommitAction::Sign { review } => review,
        other => panic!("{:?}", other),
    }
}

#[test]
fn edited_content_is_signed_as_it_is() {
    let (mut repo, mut project) = Project::new("X", &[("a", "1")]);
    project.add(&mut repo, &["a"]);
    let mut review = validated(&mut repo, &mut project);
    review.comment = "read every line".to_string();
    review.project_id = "Y".to_string();
    let (state, action) = repo.commit(
        CommitState::Validated,
        CommitEvent::Signed { review, body: b"edited body".to_vec(), signature: b"hello".to_vec() },
    );
    assert_eq!(state, CommitState::Signed);
    match action {
        CommitAction::Append { write, signed } => {
            assert_eq!(write.path, "/p/.crev/proofs/Y");
            assert_eq!(signed.body(), &b"edited body".to_vec());
            assert_eq!(signed.signature(), "aGVsbG8=");
            assert_eq!(write.bytes, signed.serialize());
        }
        other => panic!("{:?}", other),
    }
    assert_eq!(repo.status(None).unwrap(), vec!["a".to_string()]);
}

#[test]
fn invalid_edited_content_is_refused() {
    let (mut repo, mut project) = Project::new("X", &[("a", "1")]);
    project.add(&mut repo, &["a"]);
    let mut review = validated(&mut repo, &mut project);
    review.from_key = String::new();
    let (state, action) = repo.commit(
        CommitState::Validated,
        CommitEvent::Signed { review, body: b"body".to_vec(), signature: b"sig".to_vec() },
    );
    assert_eq!(state, CommitState::Aborted);
    assert!(matches!(
        action,
        CommitAction::Abort(CommitError::Invalid(ValidationError::MissingFromKey))
    ));
}

#[test]
fn missing_signature_is_refused() {
    let (mut repo, mut project) = Project::new("X", &[("a", "1")]);
    project.add(&mut repo, &["a"]);
    let review = validated(&mut repo, &mut project);
    let (state, action) = repo.commit(
        CommitState::Validated,
        CommitEvent::Signed { review, body: b"body".to_vec(), signature: Vec::new() },
    );
    assert_eq!(state, CommitState::Aborted);
    assert!(matches!(
        action,
        CommitAction::Abort(CommitError::Signing(SigningError::EmptySignature))
    ));
    let review = validated(&mut repo, &mut project);
    let (_, action) = repo.commit(
        CommitState::Validated,
        CommitEvent::Signed { review, body: Vec::new(), signature: b"sig".to_vec() },
    );
    assert!(matches!(action, CommitAction::Abort(CommitError::Signing(SigningError::EmptyBody))));
    assert_eq!(repo.status(None).unwrap(), vec!["a".to_string()]);
}

#[test]
fn failed_work_gives_the_commit_up_and_keeps_the_staging_area() {
    let failures = [
        (CommitState::Staged, Failure::Identity),
        (CommitState::Staged, Failure::Configuration),
        (CommitState::Staged, Failure::Revision),
        (CommitState::Validated, Failure::UserAborted),
        (CommitState::Validated, Failure::Signing),
        (CommitState::Signed, Failure::Durability),
        (CommitState::Appended, Failure::Durability),
        (CommitState::Idle, Failure::Durability),
    ];
    for (state, failure) in failures.iter() {
        let (mut repo, mut project) = Project::new("X", &[("a", "1")]);
        project.add(&mut repo, &["a"]);
        let (next, action) = repo.commit(*state, CommitEvent::Failed(*failure));
        assert_eq!(next, CommitState::Aborted);
        match action {
            CommitAction::Abort(CommitError::Failed(reported)) => assert_eq!(reported, *failure),
            other => panic!("{:?}", other),
        }
        assert_eq!(repo.status(None).unwrap(), vec!["a".to_string()]);
    }
}

#[test]
fn failed_append_leaves_the_commit_to_be_run_again() {
    let (mut repo, mut project) = Project::new("X", &[("a", "1")]);
    project.add(&mut repo, &["a"]);
    let review = validated(&mut repo, &mut project);
    let body = body_of(&review);
    let (state, action) = repo.commit(
        CommitState::Validated,
        CommitEvent::Signed { review, body, signature: b"sig".to_vec() },
    );
    assert!(matches!(action, CommitAction::Append { .. }));
    let (state, action) = repo.commit(state, CommitEvent::Failed(Failure::Durability));
    assert_eq!(state, CommitState::Aborted);
    assert!(matches!(action, CommitAction::Abort(CommitError::Failed(Failure::Durability))));
    assert_eq!(repo.status(None).unwrap(), vec!["a".to_string()]);
    let (state, error, _) = project.commit(&mut repo);
    assert!(error.is_none());
    assert_eq!(state, CommitState::Wiped);
    assert_eq!(read_proofs(&project.store["/p/.crev/proofs/X"]).unwrap().len(), 1);
}

#[test]
fn staging_is_cleared_by_the_last_step_only() {
    let (mut repo, mut project) = Project::new("X", &[("a", "1")]);
    project.add(&mut repo, &["a"]);
    let review = validated(&mut repo, &mut project);
    assert_eq!(repo.status(None).unwrap().len(), 1);
    let (state, _) = repo.commit(
        CommitState::Validated,
        CommitEvent::Signed { review, body: b"body".to_vec(), signature: b"sig".to_vec() },
    );
    assert_eq!(repo.status(None).unwrap().len(), 1);
    let (state, action) = repo.commit(state, CommitEvent::Appended);
    assert_eq!(state, CommitState::Appended);
    assert!(matches!(action, CommitAction::Clear { .. }));
    assert_eq!(repo.status(None).unwrap().len(), 1);
    let (state, action) = repo.commit(state, CommitEvent::Cleared);
    assert_eq!(state, CommitState::Wiped);
    assert!(matches!(action, CommitAction::Done));
    assert!(repo.status(None).unwrap().is_empty());
}

#[test]
fn events_out_of_order_give_the_commit_up() {
    let cases: Vec<(CommitState, CommitEvent)> = vec![
        (CommitState::Idle, CommitEvent::Appended),
        (CommitState::Idle, CommitEvent::Cleared),
        (CommitState::Staged, CommitEvent::Start { persisted: None }),
        (CommitState::Staged, CommitEvent::Cleared),
        (CommitState::Validated, CommitEvent::Appended),
        (CommitState::Validated, CommitEvent::Cleared),
        (CommitState::Signed, CommitEvent::Cleared),
        (CommitState::Appended, CommitEvent::Appended),
        (CommitState::Wiped, CommitEvent::Cleared),
        (CommitState::Wiped, CommitEvent::Start { persisted: None }),
        (CommitState::Aborted, CommitEvent::Start { persisted: None }),
        (CommitState::Aborted, CommitEvent::Failed(Failure::Signing)),
        (CommitState::Wiped, CommitEvent::Failed(Failure::Signing)),
    ];
    for (state, event) in cases {
        let (mut repo, mut project) = Project::new("X", &[("a", "1")]);
        project.add(&mut repo, &["a"]);
        let (next, action) = repo.commit(state, event);
        assert_eq!(next, CommitState::Aborted);
        assert!(matches!(action, CommitAction::Abort(CommitError::OutOfOrder)));
        assert_eq!(repo.status(None).unwrap(), vec!["a".to_string()]);
    }
}

#[test]
fn gathering_before_the_staging_area_is_open_is_out_of_order() {
    let mut repo = Repo::new("/p".to_string());
    let (state, action) = repo.commit(
        CommitState::Staged,
        CommitEvent::Gathered {
            identity: identity(),
            config: ProjectConfig::new("X".to_string(), "root".to_string()),
            tree: clean_tree("deadbeef"),
            observed: Vec::new(),
        },
    );
    assert_eq!(state, CommitState::Aborted);
    assert!(matches!(action, CommitAction::Abort(CommitError::OutOfOrder)));
    let opened = Staging::new();
    assert!(opened.is_empty());
}

#[test]
fn two_commits_store_two_proofs_in_order() {
    let (mut repo, mut project) = Project::new("X", &[("a", "1"), ("b", "2")]);
    project.add(&mut repo, &["a"]);
    assert_eq!(project.commit(&mut repo).0, CommitState::Wiped);
    let after_first = project.store["/p/.crev/proofs/X"].clone();
    project.add(&mut repo, &["b"]);
    assert_eq!(project.commit(&mut repo).0, CommitState::Wiped);
    let after_second = &project.store["/p/.crev/proofs/X"];
    assert_eq!(project.store.len(), 1);
    assert_eq!(&after_second[..after_first.len()], &after_first[..]);
    let proofs = read_proofs(after_second).unwrap();
    assert_eq!(proofs.len(), 2);
    let first = String::from_utf8(proofs[0].body().clone()).unwrap();
    let second = String::from_utf8(proofs[1].body().clone()).unwrap();
    assert!(first.ends_with("files:\n  - a\n"));
    assert!(second.ends_with("files:\n  - b\n"));
    assert_eq!(read_proofs(&after_first).unwrap().len(), 1);
}

#[test]
fn commit_run_again_after_a_crash_before_the_wipe_adds_a_second_proof() {
    let (mut repo, mut project) = Project::new("X", &[("a", "1")]);
    project.add(&mut repo, &["a"]);
    let staged = project.staging_file.clone();
    assert_eq!(project.commit(&mut repo).0, CommitState::Wiped);
    let mut restarted = Repo::new("/p".to_string());
    project.staging_file = staged;
    assert_eq!(project.commit(&mut restarted).0, CommitState::Wiped);
    let proofs = read_proofs(&project.store["/p/.crev/proofs/X"]).unwrap();
    assert_eq!(proofs.len(), 2);
    assert_eq!(proofs[0].body(), proofs[1].body());
}
