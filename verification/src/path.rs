//! Paths as `/`-separated strings.
//!
//! A path is canonical when it is absolute, has no empty, `.` or `..` component
//! and no trailing separator (the root `/` aside). The functions are total; on
//! canonical paths they agree with the platform's own joining and parent rules.

use vstd::prelude::*;
use vstd::string::*;

verus! {

/// The separator between the components of a path.
pub open spec fn is_separator(c: char) -> bool {
    c == '/'
}

/// Position of the last separator in `s`, or `-1` where it holds none.
pub open spec fn last_separator(s: Seq<char>) -> int
    decreases s.len(),
{
    if s.len() == 0 {
        -1
    } else if is_separator(s.last()) {
        s.len() - 1
    } else {
        last_separator(s.drop_last())
    }
}

/// `rel` appended to `base`: an absolute `rel` stands alone, an empty `base`
/// adds nothing, and exactly one separator stands between the two otherwise.
pub open spec fn join_spec(base: Seq<char>, rel: Seq<char>) -> Seq<char> {
    if rel.len() > 0 && is_separator(rel[0]) {
        rel
    } else if base.len() == 0 {
        rel
    } else if is_separator(base.last()) {
        base + rel
    } else {
        base + seq!['/'] + rel
    }
}

/// The directory that holds `path`: nothing for the root and for the empty
/// path, the root for a name directly below it, the empty path for a bare name.
pub open spec fn parent_spec(path: Seq<char>) -> Option<Seq<char>> {
    let cut = last_separator(path);
    if path.len() == 0 || (path.len() == 1 && cut == 0) {
        None
    } else if cut < 0 {
        Some(Seq::empty())
    } else if cut == 0 {
        Some(path.subrange(0, 1))
    } else {
        Some(path.subrange(0, cut))
    }
}

/// `last_separator` is the greatest index that holds a separator.
pub proof fn lemma_last_separator(s: Seq<char>)
    ensures
        -1 <= last_separator(s) < s.len(),
        last_separator(s) >= 0 ==> is_separator(s[last_separator(s)]),
        forall|j: int| last_separator(s) < j < s.len() ==> !is_separator(#[trigger] s[j]),
    decreases s.len(),
{
    if s.len() > 0 && !is_separator(s.last()) {
        let head = s.drop_last();
        lemma_last_separator(head);
        assert forall|j: int| last_separator(s) < j < s.len() implies !is_separator(
            #[trigger] s[j],
        ) by {
            if j < head.len() {
                assert(s[j] == head[j]);
            }
        }
    }
}

/// An index that holds a separator, with none after it, is `last_separator`.
pub proof fn lemma_last_separator_unique(s: Seq<char>, i: int)
    requires
        -1 <= i < s.len(),
        i >= 0 ==> is_separator(s[i]),
        forall|j: int| i < j < s.len() ==> !is_separator(#[trigger] s[j]),
    ensures
        last_separator(s) == i,
{
    lemma_last_separator(s);
}

/// The parent of a path is strictly shorter than the path.
pub proof fn lemma_parent_shorter(path: Seq<char>)
    ensures
        parent_spec(path) matches Some(p) ==> p.len() < path.len(),
{
    lemma_last_separator(path);
}

/// Joins `rel` onto `base`.
pub fn join_path(base: &str, rel: &str) -> (joined: String)
    ensures
        joined@ == join_spec(base@, rel@),
{
    let base_len: usize = base.unicode_len();
    let rel_len: usize = rel.unicode_len();
    if rel_len > 0 && rel.get_char(0) == '/' {
        String::from_str(rel)
    } else if base_len == 0 {
        String::from_str(rel)
    } else if base.get_char(base_len - 1) == '/' {
        let joined = String::from_str(base).concat(rel);
        joined
    } else {
        let joined = String::from_str(base).concat("/").concat(rel);
        proof {
            reveal_strlit("/");
            assert("/"@ =~= seq!['/']);
        }
        joined
    }
}

/// The directory that holds `path`, if it has one.
pub fn parent_dir(path: &str) -> (parent: Option<String>)
    ensures
        parent is Some <==> parent_spec(path@) is Some,
        parent matches Some(p) ==> Some(p@) == parent_spec(path@),
{
    let len: usize = path.unicode_len();
    let mut cut: usize = len;
    let mut found: bool = false;
    while cut > 0 && !found
        invariant
            len == path@.len(),
            cut <= len,
            found ==> cut < len && is_separator(path@[cut as int]),
            forall|j: int|
                (if found { cut + 1 } else { cut as int }) <= j < len ==> !is_separator(
                    #[trigger] path@[j],
                ),
        decreases cut + (if found { 0int } else { 1int }),
    {
        if path.get_char(cut - 1) == '/' {
            found = true;
        }
        cut = cut - 1;
    }
    proof {
        lemma_last_separator_unique(path@, if found { cut as int } else { -1 });
    }
    if len == 0 || (len == 1 && found) {
        None
    } else if !found {
        Some(String::new())
    } else if cut == 0 {
        Some(String::from_str(path.substring_char(0, 1)))
    } else {
        Some(String::from_str(path.substring_char(0, cut)))
    }
}

} // verus!
