//! A project's review repository: its root directory, the `.crev` directory
//! below it, and the staging area that is opened when first needed.

use vstd::prelude::*;
use vstd::string::*;
use vstd::slice::slice_to_vec;
pub use crate::config::ProjectConfig;
use crate::config::{ProjectConfigView, CONFIG_VERSION};
use crate::path::{join_path, join_spec, lemma_parent_shorter, parent_dir, parent_spec};
use crate::review::Content;
use crate::signing::{serialized, writable, SignedProof};
use crate::staging::{
    decode_listing, encode_listing, map_of, paths_of, lists, Staging, StagingEntry,
    StagingError,
};

verus! {

/// The name of the directory, below the root of a project, that holds the
/// repository.
pub open spec fn dot_name() -> Seq<char> {
    ".crev"@
}

/// The path of the repository directory of the project at `root`.
pub open spec fn dot_crev_spec(root: Seq<char>) -> Seq<char> {
    join_spec(root, dot_name())
}

/// The path of the configuration file of the project at `root`.
pub open spec fn config_path_spec(root: Seq<char>) -> Seq<char> {
    join_spec(dot_crev_spec(root), "config.yaml"@)
}

/// The path of the file that persists the staging area of the project at
/// `root`.
pub open spec fn staging_path_spec(root: Seq<char>) -> Seq<char> {
    join_spec(dot_crev_spec(root), "staging"@)
}

/// The path, below the repository directory, of the store file for content
/// whose project path is `project_path`.
pub open spec fn rel_store_path_spec(project_path: Seq<char>) -> Seq<char> {
    join_spec("proofs"@, project_path)
}

/// Why a repository could not be opened or initialised.
#[derive(Clone, Debug, PartialEq, Eq)]
pub enum RepoError {
    /// No directory from the starting point up to the root holds a repository.
    ProjectDirNotFound,
    /// The repository has no configuration: the project was not initialised.
    NotInitialized,
    /// The configuration file, whose path this is, exists already.
    ConfigExists(String),
}

/// One step of the search for the root of the project.
#[derive(Clone, Debug, PartialEq, Eq)]
pub enum RootSearch {
    /// The directory that was looked at is the root.
    Found(String),
    /// It is not; its parent, which this is, is to be looked at next.
    Ascend(String),
    /// It is not, and it has no parent: there is no project.
    NotFound,
}

/// Decides how the search for the root of the project goes on after `dir` was
/// looked at, where `has_dot_crev` says whether `dir` holds a repository
/// directory. The search starts at the working directory and ends at the first
/// directory that holds one; each step up is to a strictly shorter path, so the
/// search ends.
pub fn find_project_root_dir(dir: String, has_dot_crev: bool) -> (next: RootSearch)
    ensures
        match next {
            RootSearch::Found(root) => has_dot_crev && root@ == dir@,
            RootSearch::Ascend(parent) => !has_dot_crev && parent_spec(dir@) == Some(parent@)
                && parent@.len() < dir@.len(),
            RootSearch::NotFound => !has_dot_crev && parent_spec(dir@) is None,
        },
{
    if has_dot_crev {
        return RootSearch::Found(dir);
    }
    proof {
        lemma_parent_shorter(dir@);
    }
    match parent_dir(dir.as_str()) {
        Some(parent) => RootSearch::Ascend(parent),
        None => RootSearch::NotFound,
    }
}

/// What is to be appended to which file of the proof store.
#[derive(Clone, Debug, PartialEq, Eq)]
pub struct StoreWrite {
    /// The path of the store file.
    pub path: String,
    /// The bytes to append to it.
    pub bytes: Vec<u8>,
}

/// The staging area of a repository at `staged`, once it is opened: the one
/// that is open already, else the one that `persisted` holds, else, where
/// nothing was persisted, an empty one. Nothing where what was persisted is no
/// staging area.
pub open spec fn opened(
    staged: Option<Map<Seq<char>, Seq<u8>>>,
    persisted: Option<Seq<u8>>,
) -> Option<Map<Seq<char>, Seq<u8>>> {
    match staged {
        Some(files) => Some(files),
        None => match persisted {
            None => Some(Map::empty()),
            Some(bytes) => match decode_listing(bytes) {
                None => None,
                Some(items) => Some(map_of(items)),
            },
        },
    }
}

/// `staged` after each of `files` was staged, in their order.
pub open spec fn insert_all(
    staged: Map<Seq<char>, Seq<u8>>,
    files: Seq<(Seq<char>, Seq<u8>)>,
) -> Map<Seq<char>, Seq<u8>>
    decreases files.len(),
{
    if files.len() == 0 {
        staged
    } else {
        insert_all(staged, files.drop_last()).insert(files.last().0, files.last().1)
    }
}

/// `staged` after each of `paths` was taken out.
pub open spec fn remove_all(staged: Map<Seq<char>, Seq<u8>>, paths: Seq<Seq<char>>) -> Map<
    Seq<char>,
    Seq<u8>,
>
    decreases paths.len(),
{
    if paths.len() == 0 {
        staged
    } else {
        remove_all(staged, paths.drop_last()).remove(paths.last())
    }
}

/// Staging entries as plain values.
pub open spec fn entries_view(files: Seq<StagingEntry>) -> Seq<(Seq<char>, Seq<u8>)> {
    files.map_values(|f: StagingEntry| f@)
}

/// Staging the same file twice in a row is staging it once.
pub proof fn lemma_add_twice(
    staged: Map<Seq<char>, Seq<u8>>,
    files: Seq<(Seq<char>, Seq<u8>)>,
    file: (Seq<char>, Seq<u8>),
)
    ensures
        insert_all(staged, files.push(file).push(file)) == insert_all(staged, files.push(file)),
{
    let once = files.push(file);
    let twice = once.push(file);
    assert(twice.drop_last() =~= once);
    assert(once.drop_last() =~= files);
    assert(insert_all(staged, files).insert(file.0, file.1).insert(file.0, file.1)
        =~= insert_all(staged, files).insert(file.0, file.1));
}

/// Taking out a path that is not staged changes nothing.
pub proof fn lemma_remove_unstaged(
    staged: Map<Seq<char>, Seq<u8>>,
    paths: Seq<Seq<char>>,
    path: Seq<char>,
)
    requires
        !remove_all(staged, paths).dom().contains(path),
    ensures
        remove_all(staged, paths.push(path)) == remove_all(staged, paths),
{
    assert(paths.push(path).drop_last() =~= paths);
    assert(remove_all(staged, paths).remove(path) =~= remove_all(staged, paths));
}

/// The bytes of an optional byte string.
pub open spec fn bytes_view(bytes: Option<&[u8]>) -> Option<Seq<u8>> {
    match bytes {
        None => None,
        Some(b) => Some(b@),
    }
}

/// The `.crev` repository of a project.
#[derive(Debug)]
pub struct Repo {
    /// The directory below which the repository directory lies.
    root_dir: String,
    /// The staging area, once it was opened.
    staging: Option<Staging>,
}

impl Repo {
    /// The root directory of the project.
    pub closed spec fn root(&self) -> Seq<char> {
        self.root_dir@
    }

    /// The staging area, if it was opened.
    pub closed spec fn staging_area(&self) -> Option<Staging> {
        self.staging
    }

    /// The staged files, if the staging area was opened.
    pub open spec fn staged(&self) -> Option<Map<Seq<char>, Seq<u8>>> {
        match self.staging_area() {
            None => None,
            Some(staging) => Some(staging@),
        }
    }

    /// Whether `bytes` persist the staging area as it is: they are its listing
    /// written out, and are read back as that listing.
    pub open spec fn persisted_by(&self, bytes: Seq<u8>) -> bool {
        match self.staging_area() {
            None => false,
            Some(staging) => bytes == encode_listing(staging.listing()) && decode_listing(bytes)
                == Some(staging.listing()),
        }
    }

    /// Whether `paths` are the staged paths, in ascending order.
    pub open spec fn lists_paths(&self, paths: Seq<Seq<char>>) -> bool {
        match self.staging_area() {
            None => false,
            Some(staging) => paths == paths_of(staging.listing()) && lists(
                staging.listing(),
                staging@,
            ),
        }
    }

    /// What every repository that this library hands out satisfies: its
    /// staging area, if open, is well-formed.
    pub open spec fn wf(&self) -> bool {
        self.staging_area() matches Some(staging) ==> staging.wf()
    }

    /// The repository of the project at `root_dir`, with its staging area not
    /// yet opened.
    pub fn new(root_dir: String) -> (repo: Repo)
        ensures
            repo.wf(),
            repo.root() == root_dir@,
            repo.staged() is None,
    {
        Repo { root_dir, staging: None }
    }

    /// Initialises the project at `path`, whose trust is rooted in `id_str`,
    /// under the identifier `project_id`: the repository and the
    /// configuration to write. A project whose configuration file exists is
    /// not initialised again.
    pub fn init(path: String, id_str: String, project_id: String, config_exists: bool) -> (made:
        Result<(Repo, ProjectConfig), RepoError>)
        ensures
            match made {
                Ok((repo, config)) => !config_exists && repo.wf() && repo.root() == path@
                    && repo.staged() is None && config@ == (ProjectConfigView {
                    version: CONFIG_VERSION,
                    project_id: project_id@,
                    project_trust_root: id_str@,
                }),
                Err(RepoError::ConfigExists(at)) => config_exists && at@ == config_path_spec(
                    path@,
                ),
                Err(_) => false,
            },
    {
        let repo = Repo::new(path);
        if config_exists {
            return Err(RepoError::ConfigExists(repo.project_config_path()));
        }
        Ok((repo, ProjectConfig::new(project_id, id_str)))
    }

    /// Opens the repository of the project whose root the search found, if it
    /// found one, where `config_exists` says whether that repository has a
    /// configuration file.
    pub fn auto_open(root: Option<String>, config_exists: bool) -> (found: Result<Repo, RepoError>)
        ensures
            match found {
                Ok(repo) => root matches Some(dir) && config_exists && repo.wf() && repo.root()
                    == dir@ && repo.staged() is None,
                Err(RepoError::ProjectDirNotFound) => root is None,
                Err(RepoError::NotInitialized) => root is Some && !config_exists,
                Err(RepoError::ConfigExists(_)) => false,
            },
    {
        match root {
            None => Err(RepoError::ProjectDirNotFound),
            Some(dir) => {
                if config_exists {
                    Ok(Repo::new(dir))
                } else {
                    Err(RepoError::NotInitialized)
                }
            },
        }
    }

    /// The root directory of the project.
    pub fn root_dir(&self) -> (root: &String)
        ensures
            root@ == self.root(),
    {
        &self.root_dir
    }

    /// The path of the repository directory.
    pub fn dot_crev_path(&self) -> (path: String)
        ensures
            path@ == dot_crev_spec(self.root()),
    {
        join_path(self.root_dir.as_str(), ".crev")
    }

    /// The path of the configuration file.
    pub fn project_config_path(&self) -> (path: String)
        ensures
            path@ == config_path_spec(self.root()),
    {
        join_path(self.dot_crev_path().as_str(), "config.yaml")
    }

    /// The path of the file that persists the staging area.
    pub fn staging_path(&self) -> (path: String)
        ensures
            path@ == staging_path_spec(self.root()),
    {
        join_path(self.dot_crev_path().as_str(), "staging")
    }

    /// The path, below the repository directory, of the store file to which a
    /// proof of `content` is appended. It depends on the project path that the
    /// content declares and on nothing else.
    pub fn get_proof_rel_store_path(&self, content: &Content) -> (path: String)
        ensures
            path@ == rel_store_path_spec(content.project_path()),
    {
        join_path("proofs", content.rel_project_path().as_str())
    }

    /// What appending `signed` to the store file at `rel_store_path`, a path
    /// below the repository directory, comes to: the path of the file and the
    /// bytes of the proof, to be added at its end.
    pub fn append_proof_at(&self, signed: &SignedProof, rel_store_path: &str) -> (write:
        StoreWrite)
        ensures
            write.path@ == join_spec(dot_crev_spec(self.root()), rel_store_path@),
            write.bytes@ == serialized(signed@),
            writable(signed@),
    {
        StoreWrite {
            path: join_path(self.dot_crev_path().as_str(), rel_store_path),
            bytes: signed.serialize(),
        }
    }

    /// Whether the staging area was opened.
    pub fn is_staging_open(&self) -> (open: bool)
        ensures
            open == self.staged() is Some,
    {
        self.staging.is_some()
    }

    /// Opens the staging area if it is not open yet, from what was persisted.
    fn open_staging(&mut self, persisted: Option<&[u8]>) -> (done: Result<(), StagingError>)
        requires
            old(self).wf(),
        ensures
            final(self).wf(),
            final(self).root() == old(self).root(),
            match done {
                Ok(()) => final(self).staged() == opened(old(self).staged(), bytes_view(persisted))
                    && final(self).staged() is Some && (old(self).staging_area() is Some
                    ==> final(self).staging_area() == old(self).staging_area()),
                Err(_) => opened(old(self).staged(), bytes_view(persisted)) is None && *final(self)
                    == *old(self),
            },
    {
        if self.staging.is_some() {
            return Ok(());
        }
        match Staging::open(persisted) {
            Ok(staging) => {
                proof {
                    if persisted is None {
                        assert(staging@ =~= Map::<Seq<char>, Seq<u8>>::empty()) by {
                            staging.lemma_view();
                        }
                    } else {
                        staging.lemma_view();
                    }
                }
                self.staging = Some(staging);
                Ok(())
            },
            Err(e) => Err(e),
        }
    }

    /// The staging area, opened from what was persisted if it was not open
    /// yet. What is done to it through the returned reference is done to the
    /// repository's staging area.
    pub fn staging(&mut self, persisted: Option<&[u8]>) -> (area: Result<
        &mut Staging,
        StagingError,
    >)
        requires
            old(self).wf(),
        ensures
            match area {
                Ok(staging) => staging.wf() && Some(staging@) == opened(
                    old(self).staged(),
                    bytes_view(persisted),
                ) && final(self).root() == old(self).root() && final(self).staging_area() == Some(
                    *final(staging),
                ),
                Err(_) => opened(old(self).staged(), bytes_view(persisted)) is None && *final(self)
                    == *old(self),
            },
    {
        match self.open_staging(persisted) {
            Ok(()) => Ok(self.staging.as_mut().unwrap()),
            Err(e) => Err(e),
        }
    }

    /// Stages each of `files`, in their order, and returns the bytes that
    /// persist the staging area as it then is. Where the staging area cannot
    /// be opened nothing is staged.
    pub fn add(&mut self, persisted: Option<&[u8]>, files: Vec<StagingEntry>) -> (saved: Result<
        Vec<u8>,
        StagingError,
    >)
        requires
            old(self).wf(),
        ensures
            final(self).wf(),
            final(self).root() == old(self).root(),
            match saved {
                Ok(bytes) => opened(old(self).staged(), bytes_view(persisted)) is Some
                    && final(self).staged() == Some(
                    insert_all(
                        opened(old(self).staged(), bytes_view(persisted))->Some_0,
                        entries_view(files@),
                    ),
                ) && final(self).persisted_by(bytes@),
                Err(_) => opened(old(self).staged(), bytes_view(persisted)) is None && *final(self)
                    == *old(self),
            },
    {
        match self.open_staging(persisted) {
            Ok(()) => {},
            Err(e) => {
                return Err(e);
            },
        }
        let ghost before = self.staged()->Some_0;
        let mut staging = self.staging.take().unwrap();
        let mut i: usize = 0;
        while i < files.len()
            invariant
                i <= files@.len(),
                staging.wf(),
                staging@ == insert_all(before, entries_view(files@).subrange(0, i as int)),
            decreases files@.len() - i,
        {
            proof {
                assert(entries_view(files@).subrange(0, i + 1).drop_last() =~= entries_view(
                    files@,
                ).subrange(0, i as int));
            }
            staging.insert(files[i].path.as_str(), slice_to_vec(files[i].digest.as_slice()));
            i = i + 1;
        }
        proof {
            assert(entries_view(files@).subrange(0, i as int) =~= entries_view(files@));
        }
        let bytes = staging.save();
        self.staging = Some(staging);
        Ok(bytes)
    }

    /// Takes each of `paths` out of the staging area, in their order, and
    /// returns the bytes that persist the staging area as it then is. A path
    /// that is not staged is passed over. Where the staging area cannot be
    /// opened nothing is changed.
    pub fn remove(&mut self, persisted: Option<&[u8]>, paths: Vec<String>) -> (saved: Result<
        Vec<u8>,
        StagingError,
    >)
        requires
            old(self).wf(),
        ensures
            final(self).wf(),
            final(self).root() == old(self).root(),
            match saved {
                Ok(bytes) => opened(old(self).staged(), bytes_view(persisted)) is Some
                    && final(self).staged() == Some(
                    remove_all(
                        opened(old(self).staged(), bytes_view(persisted))->Some_0,
                        paths.deep_view(),
                    ),
                ) && final(self).persisted_by(bytes@),
                Err(_) => opened(old(self).staged(), bytes_view(persisted)) is None && *final(self)
                    == *old(self),
            },
    {
        match self.open_staging(persisted) {
            Ok(()) => {},
            Err(e) => {
                return Err(e);
            },
        }
        let ghost before = self.staged()->Some_0;
        let mut staging = self.staging.take().unwrap();
        let mut i: usize = 0;
        while i < paths.len()
            invariant
                i <= paths@.len(),
                staging.wf(),
                staging@ == remove_all(before, paths.deep_view().subrange(0, i as int)),
            decreases paths@.len() - i,
        {
            proof {
                assert(paths.deep_view().subrange(0, i + 1).drop_last() =~= paths.deep_view().subrange(
                    0,
                    i as int,
                ));
            }
            let _ = staging.remove(paths[i].as_str());
            i = i + 1;
        }
        proof {
            assert(paths.deep_view().subrange(0, i as int) =~= paths.deep_view());
        }
        let bytes = staging.save();
        self.staging = Some(staging);
        Ok(bytes)
    }

    /// The staged paths, in ascending order.
    pub fn status(&mut self, persisted: Option<&[u8]>) -> (listed: Result<
        Vec<String>,
        StagingError,
    >)
        requires
            old(self).wf(),
        ensures
            final(self).wf(),
            final(self).root() == old(self).root(),
            match listed {
                Ok(paths) => final(self).staged() == opened(
                    old(self).staged(),
                    bytes_view(persisted),
                ) && final(self).lists_paths(paths.deep_view()),
                Err(_) => opened(old(self).staged(), bytes_view(persisted)) is None && *final(self)
                    == *old(self),
            },
    {
        match self.open_staging(persisted) {
            Ok(()) => {},
            Err(e) => {
                return Err(e);
            },
        }
        Ok(self.staging.as_ref().unwrap().paths())
    }

    /// The staging area, if it was opened.
    pub fn staging_ref(&self) -> (area: Option<&Staging>)
        ensures
            match area {
                None => self.staging_area() is None,
                Some(staging) => self.staging_area() == Some(*staging),
            },
    {
        self.staging.as_ref()
    }

    /// Empties the staging area, opened or not.
    pub(crate) fn wipe_staging(&mut self)
        ensures
            final(self).wf(),
            final(self).root() == old(self).root(),
            final(self).staged() == Some(Map::<Seq<char>, Seq<u8>>::empty()),
    {
        match self.staging.take() {
            None => {
                self.staging = Some(Staging::new());
            },
            Some(mut staging) => {
                staging.wipe();
                self.staging = Some(staging);
            },
        }
    }
}

} // verus!
