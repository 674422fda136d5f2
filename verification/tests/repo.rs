use crev::repo::{Repo, RepoError};
use crev::review::{Content, Levels, ReviewFile, ReviewProof};
use crev::revision::{RevisionInfo, RevisionKind};
use crev::signing::SignedProof;
use crev::staging::{Staging, StagingEntry, StagingError};

fn entry(path: &str, digest: &[u8]) -> StagingEntry {
    StagingEntry { path: path.to_string(), digest: digest.to_vec() }
}

fn names(paths: &[&str]) -> Vec<String> {
    paths.iter().map(|p| p.to_string()).collect()
}

#[test]
fn repository_paths() {
    let repo = Repo::new("/home/me/project".to_string());
    assert_eq!(repo.root_dir(), "/home/me/project");
    assert_eq!(repo.dot_crev_path(), "/home/me/project/.crev");
    assert_eq!(repo.project_config_path(), "/home/me/project/.crev/config.yaml");
    assert_eq!(repo.staging_path(), "/home/me/project/.crev/staging");
    assert!(!repo.is_staging_open());
    assert!(repo.staging_ref().is_none());
    assert_eq!(Repo::new("/".to_string()).dot_crev_path(), "/.crev");
}

#[test]
fn init_makes_the_configuration() {
    let (repo, config) =
        Repo::init("/p".to_string(), "trust-root".to_string(), "X".to_string(), false).unwrap();
    assert_eq!(repo.root_dir(), "/p");
    assert!(!repo.is_staging_open());
    assert_eq!(config.version, 0);
    assert_eq!(config.project_id, "X");
    assert_eq!(config.project_trust_root, "trust-root");
}

#[test]
fn init_refuses_an_initialised_project() {
    match Repo::init("/p".to_string(), "trust-root".to_string(), "X".to_string(), true) {
        Err(RepoError::ConfigExists(path)) => assert_eq!(path, "/p/.crev/config.yaml"),
        other => panic!("{:?}", other),
    }
}

#[test]
fn auto_open_needs_a_root_and_a_configuration() {
    let repo = Repo::auto_open(Some("/p".to_string()), true).unwrap();
    assert_eq!(repo.root_dir(), "/p");
    assert!(matches!(Repo::auto_open(None, true), Err(RepoError::ProjectDirNotFound)));
    assert!(matches!(Repo::auto_open(None, false), Err(RepoError::ProjectDirNotFound)));
    assert!(matches!(
        Repo::auto_open(Some("/p".to_string()), false),
        Err(RepoError::NotInitialized)
    ));
}

#[test]
fn staging_is_opened_once() {
    let mut persisted = Staging::new();
    persisted.insert("a", vec![1]);
    let bytes = persisted.save();
    let mut repo = Repo::new("/p".to_string());
    {
        let staging = repo.staging(Some(&bytes)).unwrap();
        assert_eq!(staging.paths(), names(&["a"]));
        staging.insert("b", vec![2]);
    }
    assert!(repo.is_staging_open());
    let again = repo.staging(Some(b"ignored: the area is open")).unwrap();
    assert_eq!(again.paths(), names(&["a", "b"]));
    assert_eq!(repo.staging_ref().unwrap().len(), 2);
}

#[test]
fn staging_that_cannot_be_read_is_not_opened() {
    let mut repo = Repo::new("/p".to_string());
    assert_eq!(repo.staging(Some(b"junk")).unwrap_err(), StagingError::Corrupt);
    assert!(!repo.is_staging_open());
    assert_eq!(repo.status(Some(b"junk")).unwrap_err(), StagingError::Corrupt);
    assert_eq!(repo.add(Some(b"junk"), vec![entry("a", b"1")]).unwrap_err(), StagingError::Corrupt);
    assert_eq!(repo.remove(Some(b"junk"), names(&["a"])).unwrap_err(), StagingError::Corrupt);
    assert!(!repo.is_staging_open());
    assert!(repo.staging(None).unwrap().is_empty());
}

#[test]
fn add_stages_and_persists() {
    let mut repo = Repo::new("/p".to_string());
    let bytes = repo.add(None, vec![entry("src/b.rs", b"2"), entry("src/a.rs", b"1")]).unwrap();
    assert_eq!(repo.status(None).unwrap(), names(&["src/a.rs", "src/b.rs"]));
    let mut fresh = Repo::new("/p".to_string());
    assert_eq!(fresh.status(Some(&bytes)).unwrap(), names(&["src/a.rs", "src/b.rs"]));
    let more = fresh.add(Some(b"ignored"), vec![entry("src/a.rs", b"changed")]).unwrap();
    let reloaded = Staging::load(&more).unwrap();
    let files = reloaded.to_review_files();
    assert_eq!(files.len(), 2);
    assert_eq!(files[0].digest, b"changed".to_vec());
    assert_eq!(files[1].digest, b"2".to_vec());
}

#[test]
fn add_of_the_same_path_twice_keeps_the_last() {
    let mut repo = Repo::new("/p".to_string());
    repo.add(None, vec![entry("a", b"1"), entry("a", b"2")]).unwrap();
    let staging = repo.staging_ref().unwrap();
    assert_eq!(staging.len(), 1);
    assert_eq!(staging.to_review_files()[0].digest, b"2".to_vec());
}

#[test]
fn remove_unstages_and_persists() {
    let mut repo = Repo::new("/p".to_string());
    let staged = repo.add(None, vec![entry("a", b"1"), entry("b", b"2"), entry("c", b"3")]).unwrap();
    let bytes = repo.remove(None, names(&["b", "not staged", "b"])).unwrap();
    assert_eq!(repo.status(None).unwrap(), names(&["a", "c"]));
    assert_eq!(Staging::load(&bytes).unwrap().paths(), names(&["a", "c"]));
    let mut fresh = Repo::new("/p".to_string());
    let all_gone = fresh.remove(Some(&staged), names(&["a", "b", "c"])).unwrap();
    assert!(all_gone.is_empty());
    assert!(fresh.status(None).unwrap().is_empty());
}

#[test]
fn status_of_a_new_repository_is_empty() {
    let mut repo = Repo::new("/p".to_string());
    assert!(repo.status(None).unwrap().is_empty());
    assert!(repo.is_staging_open());
}

#[test]
fn proofs_are_stored_by_project() {
    let repo = Repo::new("/p".to_string());
    let review = ReviewProof::build(
        "key".to_string(),
        "url".to_string(),
        "crev".to_string(),
        RevisionInfo { kind: RevisionKind::Git, revision: "deadbeef".to_string() },
        "X".to_string(),
        Levels::default(),
        vec![ReviewFile { path: "a".to_string(), digest: vec![1] }],
    )
    .unwrap();
    let content = Content::Review(review);
    let rel = repo.get_proof_rel_store_path(&content);
    assert_eq!(rel, "proofs/X");
    let signed = SignedProof::seal(b"body".to_vec(), b"signature").unwrap();
    let write = repo.append_proof_at(&signed, &rel);
    assert_eq!(write.path, "/p/.crev/proofs/X");
    assert_eq!(write.bytes, signed.serialize());
}
