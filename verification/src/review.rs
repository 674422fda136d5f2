//! The content of a review proof, before it is signed.

use vstd::prelude::*;
use vstd::string::*;
use crate::bytes::{text_before, text_lt};
use crate::level::Level;
use crate::path::is_separator;
use crate::revision::RevisionInfo;
use crate::staging::{lemma_sorted_push, sorted_by_path};

verus! {

/// A reviewed file: its path below the project root and the digest of the
/// content that was reviewed.
#[derive(Clone, Debug, PartialEq, Eq)]
pub struct ReviewFile {
    pub path: String,
    pub digest: Vec<u8>,
}

impl View for ReviewFile {
    type V = (Seq<char>, Seq<u8>);

    open spec fn view(&self) -> (Seq<char>, Seq<u8>) {
        (self.path@, self.digest@)
    }
}

/// The three ratings that a review gives.
#[derive(Clone, Copy, Debug, PartialEq, Eq, Structural)]
pub struct Levels {
    pub thoroughness: Level,
    pub understanding: Level,
    pub trust: Level,
}

impl Default for Levels {
    /// The ratings of a review of which nothing else was said: all low.
    fn default() -> (levels: Levels)
        ensures
            levels == (Levels {
                thoroughness: Level::Low,
                understanding: Level::Low,
                trust: Level::Low,
            }),
    {
        Levels { thoroughness: Level::Low, understanding: Level::Low, trust: Level::Low }
    }
}

/// What an author states: who they are, what was reviewed, and how well.
#[derive(Clone, Debug, PartialEq, Eq)]
pub struct ReviewProof {
    /// The author's public key, in base64.
    pub from_key: String,
    /// Where the author publishes proofs.
    pub from_url: String,
    /// The kind of the author's identity.
    pub from_type: String,
    /// The object id of the revision that was reviewed.
    pub revision: String,
    /// The version control system that names the revision.
    pub revision_type: String,
    /// The identifier of the project.
    pub project_id: String,
    pub comment: String,
    pub thoroughness: Level,
    pub understanding: Level,
    pub trust: Level,
    /// The reviewed files, ascending by path.
    pub files: Vec<ReviewFile>,
}

/// The content of a review as plain values.
pub struct ReviewProofView {
    pub from_key: Seq<char>,
    pub from_url: Seq<char>,
    pub from_type: Seq<char>,
    pub revision: Seq<char>,
    pub revision_type: Seq<char>,
    pub project_id: Seq<char>,
    pub comment: Seq<char>,
    pub thoroughness: Level,
    pub understanding: Level,
    pub trust: Level,
    pub files: Seq<(Seq<char>, Seq<u8>)>,
}

/// The files of a review as plain values.
pub open spec fn files_view(files: Seq<ReviewFile>) -> Seq<(Seq<char>, Seq<u8>)> {
    files.map_values(|f: ReviewFile| f@)
}

impl View for ReviewProof {
    type V = ReviewProofView;

    open spec fn view(&self) -> ReviewProofView {
        ReviewProofView {
            from_key: self.from_key@,
            from_url: self.from_url@,
            from_type: self.from_type@,
            revision: self.revision@,
            revision_type: self.revision_type@,
            project_id: self.project_id@,
            comment: self.comment@,
            thoroughness: self.thoroughness,
            understanding: self.understanding,
            trust: self.trust,
            files: files_view(self.files@),
        }
    }
}

/// The field that makes the content of a review invalid.
#[derive(Clone, Copy, Debug, PartialEq, Eq, Structural)]
pub enum ValidationError {
    /// The author's key is empty.
    MissingFromKey,
    /// The kind of the author's identity is empty.
    MissingFromType,
    /// The revision is empty.
    MissingRevision,
    /// The kind of the revision is empty.
    MissingRevisionType,
    /// The project identifier is empty, holds a separator, or is `.` or `..`:
    /// it could not name a file of the proof store.
    InvalidProjectId,
    /// No file is listed.
    NoFiles,
    /// The files are not listed in strictly ascending order of their paths.
    UnorderedFiles,
}

/// Whether `name` can be one component of a path: it is not empty, holds no
/// separator, and is neither `.` nor `..`.
pub open spec fn is_component(name: Seq<char>) -> bool {
    &&& name.len() > 0
    &&& forall|i: int| 0 <= i < name.len() ==> !is_separator(#[trigger] name[i])
    &&& name != seq!['.']
    &&& name != seq!['.', '.']
}

/// The first field, in the order of `ValidationError`, that makes `content`
/// invalid; nothing for valid content.
pub open spec fn defect(content: ReviewProofView) -> Option<ValidationError> {
    if content.from_key.len() == 0 {
        Some(ValidationError::MissingFromKey)
    } else if content.from_type.len() == 0 {
        Some(ValidationError::MissingFromType)
    } else if content.revision.len() == 0 {
        Some(ValidationError::MissingRevision)
    } else if content.revision_type.len() == 0 {
        Some(ValidationError::MissingRevisionType)
    } else if !is_component(content.project_id) {
        Some(ValidationError::InvalidProjectId)
    } else if content.files.len() == 0 {
        Some(ValidationError::NoFiles)
    } else if !sorted_by_path(content.files) {
        Some(ValidationError::UnorderedFiles)
    } else {
        None
    }
}

/// Whether `name` can be one component of a path.
pub fn check_component(name: &str) -> (ok: bool)
    ensures
        ok == is_component(name@),
{
    let len: usize = name.unicode_len();
    if len == 0 {
        return false;
    }
    let mut dots: usize = 0;
    let mut i: usize = 0;
    while i < len
        invariant
            i <= len,
            len == name@.len(),
            dots <= i,
            forall|k: int| 0 <= k < i ==> !is_separator(#[trigger] name@[k]),
            dots == i <==> forall|k: int| 0 <= k < i ==> #[trigger] name@[k] == '.',
        decreases len - i,
    {
        let c = name.get_char(i);
        if c == '/' {
            return false;
        }
        if c == '.' && dots == i {
            dots = dots + 1;
        }
        i = i + 1;
    }
    proof {
        if dots == len && len <= 2 {
            if len == 1 {
                assert(name@ =~= seq!['.']);
            } else {
                assert(name@ =~= seq!['.', '.']);
            }
        } else if len <= 2 {
            let k = choose|k: int| 0 <= k < len && name@[k] != '.';
            assert(name@ != seq!['.']);
            assert(name@ != seq!['.', '.']);
        } else {
            assert(name@.len() != seq!['.'].len());
            assert(name@.len() != seq!['.', '.'].len());
        }
    }
    !(dots == len && len <= 2)
}

/// Whether the paths of `files` ascend strictly.
pub fn check_order(files: &Vec<ReviewFile>) -> (ok: bool)
    ensures
        ok == sorted_by_path(files_view(files@)),
{
    let ghost items = files_view(files@);
    let mut i: usize = 1;
    while i < files.len()
        invariant
            1 <= i,
            items == files_view(files@),
            files@.len() > 0 ==> i <= files@.len(),
            sorted_by_path(items.subrange(0, if files@.len() == 0 { 0 } else { i as int })),
        decreases files@.len() - i,
    {
        if !text_before(files[i - 1].path.as_str(), files[i].path.as_str()) {
            proof {
                assert(!text_lt(items[i - 1].0, items[i as int].0));
            }
            return false;
        }
        proof {
            let seen = items.subrange(0, i as int);
            assert(seen.last() == items[i - 1]);
            lemma_sorted_push(seen, items[i as int]);
            assert(items.subrange(0, i + 1) =~= seen.push(items[i as int]));
        }
        i = i + 1;
    }
    proof {
        if files@.len() == 0 {
            assert(items.subrange(0, 0) =~= items);
        } else {
            assert(items.subrange(0, i as int) =~= items);
        }
    }
    true
}

impl ReviewProof {
    /// Checks the structure of the content: every required field is there,
    /// the project identifier can name a file, and the files are listed in
    /// strictly ascending order.
    pub fn validate(&self) -> (checked: Result<(), ValidationError>)
        ensures
            checked == match defect(self@) {
                None => Ok::<(), ValidationError>(()),
                Some(e) => Err(e),
            },
    {
        if self.from_key.as_str().unicode_len() == 0 {
            Err(ValidationError::MissingFromKey)
        } else if self.from_type.as_str().unicode_len() == 0 {
            Err(ValidationError::MissingFromType)
        } else if self.revision.as_str().unicode_len() == 0 {
            Err(ValidationError::MissingRevision)
        } else if self.revision_type.as_str().unicode_len() == 0 {
            Err(ValidationError::MissingRevisionType)
        } else if !check_component(self.project_id.as_str()) {
            Err(ValidationError::InvalidProjectId)
        } else if self.files.len() == 0 {
            Err(ValidationError::NoFiles)
        } else if !check_order(&self.files) {
            Err(ValidationError::UnorderedFiles)
        } else {
            Ok(())
        }
    }

    /// The content of a review by the author with key `from_key`, of
    /// `files` at `revision` of the project `project_id`, with an empty
    /// comment. It is built exactly when it is valid; otherwise the error
    /// names the first invalid field.
    pub fn build(
        from_key: String,
        from_url: String,
        from_type: String,
        revision: RevisionInfo,
        project_id: String,
        levels: Levels,
        files: Vec<ReviewFile>,
    ) -> (built: Result<ReviewProof, ValidationError>)
        ensures
            ({
                let content = ReviewProofView {
                    from_key: from_key@,
                    from_url: from_url@,
                    from_type: from_type@,
                    revision: revision.revision@,
                    revision_type: revision.kind.name(),
                    project_id: project_id@,
                    comment: Seq::empty(),
                    thoroughness: levels.thoroughness,
                    understanding: levels.understanding,
                    trust: levels.trust,
                    files: files_view(files@),
                };
                match built {
                    Ok(review) => review@ == content && defect(content) is None,
                    Err(e) => defect(content) == Some(e),
                }
            }),
    {
        let review = ReviewProof {
            from_key,
            from_url,
            from_type,
            revision: revision.revision,
            revision_type: revision.kind.label(),
            project_id,
            comment: String::new(),
            thoroughness: levels.thoroughness,
            understanding: levels.understanding,
            trust: levels.trust,
            files,
        };
        match review.validate() {
            Ok(()) => Ok(review),
            Err(e) => Err(e),
        }
    }
}

/// What can be signed and stored. Each kind of content says where in the proof
/// store it belongs.
#[derive(Clone, Debug, PartialEq, Eq)]
pub enum Content {
    Review(ReviewProof),
}

impl Content {
    /// The path, below the directory of proofs, of the file that collects the
    /// proofs of this content's project: the project identifier.
    pub open spec fn project_path(&self) -> Seq<char> {
        match self {
            Content::Review(review) => review.project_id@,
        }
    }

    /// The path, below the directory of proofs, of the file that collects the
    /// proofs of this content's project.
    pub fn rel_project_path(&self) -> (rel: String)
        ensures
            rel@ == self.project_path(),
    {
        match self {
            Content::Review(review) => review.project_id.clone(),
        }
    }
}

} // verus!
