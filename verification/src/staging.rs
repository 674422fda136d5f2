//! The staging area: the files that the next proof is to vouch for.
//!
//! Each staged path is recorded with the digest that its content had when it
//! was staged. The area is a map from path to digest; it is kept, listed and
//! persisted in the order of the paths, so that what is shown and what is
//! signed does not depend on the order in which files were added.

use vstd::prelude::*;
use vstd::string::*;
use vstd::utf8::*;
use crate::bytes::{
    bytes_eq, lemma_lex_transitive, lemma_text_order, text_before, text_eq, text_lt,
    text_of_utf8,
};
use crate::frame::{
    lemma_records_extend, put_record, record_spec, records_of, split_records, Marks, MarksView,
};
use crate::review::{files_view, ReviewFile};
use vstd::slice::slice_to_vec;

verus! {

/// A staged file: its path below the project root and the digest of the
/// content that was reviewed.
#[derive(Clone, Debug, PartialEq, Eq)]
pub struct StagingEntry {
    pub path: String,
    pub digest: Vec<u8>,
}

impl View for StagingEntry {
    type V = (Seq<char>, Seq<u8>);

    open spec fn view(&self) -> (Seq<char>, Seq<u8>) {
        (self.path@, self.digest@)
    }
}

/// What a path holds now: the digest of its content, or nothing where no
/// file is there.
#[derive(Clone, Debug, PartialEq, Eq)]
pub struct Observation {
    pub path: String,
    pub digest: Option<Vec<u8>>,
}

/// The staged files that no longer are what was staged, in the order of their
/// paths.
#[derive(Clone, Debug, PartialEq, Eq)]
pub struct ConsistencyError {
    pub paths: Vec<String>,
}

/// Why persisted bytes are no staging area.
#[derive(Clone, Copy, Debug, PartialEq, Eq, Structural)]
pub enum StagingError {
    /// The bytes are not records of a path and a digest, or a path is not
    /// UTF-8, or the paths are not in strictly ascending order.
    Corrupt,
}

/// Whether the paths of `items` ascend strictly.
pub open spec fn sorted_by_path(items: Seq<(Seq<char>, Seq<u8>)>) -> bool {
    forall|i: int, j: int|
        0 <= i < j < items.len() ==> text_lt((#[trigger] items[i]).0, (#[trigger] items[j]).0)
}

/// Whether every path and digest of `items` can be written with its length in
/// front.
pub open spec fn fits(items: Seq<(Seq<char>, Seq<u8>)>) -> bool {
    forall|i: int|
        0 <= i < items.len() ==> encode_utf8((#[trigger] items[i]).0).len() <= u64::MAX
            && items[i].1.len() <= u64::MAX
}

/// A position of `items` that holds `path`, where there is one.
pub open spec fn index_of(items: Seq<(Seq<char>, Seq<u8>)>, path: Seq<char>) -> int {
    choose|i: int| 0 <= i < items.len() && (#[trigger] items[i]).0 == path
}

/// The map that sends each path of `items` to its digest.
pub open spec fn map_of(items: Seq<(Seq<char>, Seq<u8>)>) -> Map<Seq<char>, Seq<u8>> {
    Map::new(
        |p: Seq<char>| exists|i: int| 0 <= i < items.len() && (#[trigger] items[i]).0 == p,
        |p: Seq<char>| items[index_of(items, p)].1,
    )
}

/// Whether `items` is the listing of `staged`: its paths ascend strictly and
/// it holds exactly the pairs of the map.
pub open spec fn lists(items: Seq<(Seq<char>, Seq<u8>)>, staged: Map<Seq<char>, Seq<u8>>) -> bool {
    &&& sorted_by_path(items)
    &&& forall|i: int|
        0 <= i < items.len() ==> staged.contains_pair((#[trigger] items[i]).0, items[i].1)
    &&& forall|p: Seq<char>| #[trigger]
        staged.dom().contains(p) ==> exists|i: int|
            0 <= i < items.len() && (#[trigger] items[i]).0 == p
}

/// The paths of `items`, in their order.
pub open spec fn paths_of(items: Seq<(Seq<char>, Seq<u8>)>) -> Seq<Seq<char>> {
    items.map_values(|item: (Seq<char>, Seq<u8>)| item.0)
}

/// The digest that `observed` reports for `path`, looking from position `from`
/// on: that of the first observation of the path.
pub open spec fn reported_from(observed: Seq<Observation>, path: Seq<char>, from: int) -> Option<
    Seq<u8>,
>
    decreases observed.len() - from,
{
    if from < 0 || from >= observed.len() {
        None
    } else if observed[from].path@ == path {
        match observed[from].digest {
            None => None,
            Some(digest) => Some(digest@),
        }
    } else {
        reported_from(observed, path, from + 1)
    }
}

/// The digest that `observed` reports for `path`: that of the first
/// observation of the path; nothing where the file is gone or was not looked at.
pub open spec fn reported(observed: Seq<Observation>, path: Seq<char>) -> Option<Seq<u8>> {
    reported_from(observed, path, 0)
}

/// The paths of `items` whose reported digest is not the staged one, in the
/// order of `items`.
pub open spec fn stale_paths(items: Seq<(Seq<char>, Seq<u8>)>, observed: Seq<Observation>) -> Seq<
    Seq<char>,
>
    decreases items.len(),
{
    if items.len() == 0 {
        Seq::empty()
    } else if reported(observed, items.last().0) == Some(items.last().1) {
        stale_paths(items.drop_last(), observed)
    } else {
        stale_paths(items.drop_last(), observed).push(items.last().0)
    }
}

/// The marks of a record of the staging file.
pub open spec fn staging_marks() -> MarksView {
    MarksView { open: encode_utf8("staged\n"@), middle: Seq::empty(), close: Seq::empty() }
}

/// The bytes that persist `items`: one record for each, in their order.
pub open spec fn encode_listing(items: Seq<(Seq<char>, Seq<u8>)>) -> Seq<u8>
    decreases items.len(),
{
    if items.len() == 0 {
        Seq::empty()
    } else {
        encode_listing(items.drop_last()) + record_spec(
            staging_marks(),
            encode_utf8(items.last().0),
            items.last().1,
        )
    }
}

/// The listing that `records` stand for, if every path is UTF-8.
pub open spec fn listing_of_records(records: Seq<(Seq<u8>, Seq<u8>)>) -> Option<
    Seq<(Seq<char>, Seq<u8>)>,
> {
    if forall|i: int| 0 <= i < records.len() ==> valid_utf8((#[trigger] records[i]).0) {
        Some(records.map_values(|r: (Seq<u8>, Seq<u8>)| (decode_utf8(r.0), r.1)))
    } else {
        None
    }
}

/// The listing that `bytes` persist, if they persist one: they are records,
/// every path is UTF-8, and the paths ascend strictly.
pub open spec fn decode_listing(bytes: Seq<u8>) -> Option<Seq<(Seq<char>, Seq<u8>)>> {
    match records_of(bytes, staging_marks()) {
        None => None,
        Some(records) => match listing_of_records(records) {
            None => None,
            Some(items) => if sorted_by_path(items) {
                Some(items)
            } else {
                None
            },
        },
    }
}

/// In a sorted listing no path occurs twice.
pub proof fn lemma_sorted_distinct(items: Seq<(Seq<char>, Seq<u8>)>, i: int, j: int)
    requires
        sorted_by_path(items),
        0 <= i < items.len(),
        0 <= j < items.len(),
        items[i].0 == items[j].0,
    ensures
        i == j,
{
    lemma_text_order(items[i].0, items[j].0);
}

/// A sorted listing is the listing of its map.
pub proof fn lemma_map_of(items: Seq<(Seq<char>, Seq<u8>)>)
    requires
        sorted_by_path(items),
    ensures
        lists(items, map_of(items)),
{
    let m = map_of(items);
    assert forall|i: int| 0 <= i < items.len() implies m.contains_pair(
        (#[trigger] items[i]).0,
        items[i].1,
    ) by {
        let p = items[i].0;
        assert(m.dom().contains(p));
        lemma_sorted_distinct(items, i, index_of(items, p));
    }
    assert forall|p: Seq<char>| #[trigger] m.dom().contains(p) implies exists|i: int|
        0 <= i < items.len() && (#[trigger] items[i]).0 == p by {}
}

/// A map has at most one listing.
pub proof fn lemma_listing_unique(
    a: Seq<(Seq<char>, Seq<u8>)>,
    b: Seq<(Seq<char>, Seq<u8>)>,
    staged: Map<Seq<char>, Seq<u8>>,
)
    requires
        lists(a, staged),
        lists(b, staged),
    ensures
        a == b,
{
    lemma_listing_prefix(a, b, staged, a.len() as int);
    lemma_listing_prefix(b, a, staged, b.len() as int);
    assert(a =~= b);
}

/// The first `n` items of one listing of a map are the first `n` of any other.
proof fn lemma_listing_prefix(
    a: Seq<(Seq<char>, Seq<u8>)>,
    b: Seq<(Seq<char>, Seq<u8>)>,
    staged: Map<Seq<char>, Seq<u8>>,
    n: int,
)
    requires
        lists(a, staged),
        lists(b, staged),
        0 <= n <= a.len(),
    ensures
        n <= b.len(),
        forall|k: int| 0 <= k < n ==> a[k] == b[k],
    decreases n,
{
    if n > 0 {
        lemma_listing_prefix(a, b, staged, n - 1);
        let i = n - 1;
        // a[i] stands somewhere in b, and not before i
        let p = a[i].0;
        assert(staged.contains_pair(a[i].0, a[i].1));
        assert(staged.dom().contains(p));
        let j = choose|j: int| 0 <= j < b.len() && (#[trigger] b[j]).0 == p;
        if j < i {
            assert(a[j] == b[j]);
            lemma_sorted_distinct(a, j, i);
        }
        assert(i < b.len());
        // b[i] stands somewhere in a, and not before i
        let q = b[i].0;
        assert(staged.contains_pair(b[i].0, b[i].1));
        assert(staged.dom().contains(q));
        let h = choose|h: int| 0 <= h < a.len() && (#[trigger] a[h]).0 == q;
        if h < i {
            assert(a[h] == b[h]);
            lemma_sorted_distinct(b, h, i);
        }
        // so neither path comes before the other
        lemma_text_order(p, q);
        if i < j {
            assert(text_lt(b[i].0, b[j].0));
        }
        if i < h {
            assert(text_lt(a[i].0, a[h].0));
        }
        assert(p == q);
        assert(staged.contains_pair(b[i].0, b[i].1));
        assert(a[i].1 == b[i].1);
    }
}

/// Putting a new path at its place in a sorted listing gives the listing of
/// the map with the path added.
pub proof fn lemma_insert_at(
    items: Seq<(Seq<char>, Seq<u8>)>,
    at: int,
    path: Seq<char>,
    digest: Seq<u8>,
)
    requires
        sorted_by_path(items),
        0 <= at <= items.len(),
        forall|k: int| 0 <= k < at ==> text_lt((#[trigger] items[k]).0, path),
        at < items.len() ==> text_lt(path, items[at].0),
    ensures
        sorted_by_path(items.insert(at, (path, digest))),
        map_of(items.insert(at, (path, digest))) == map_of(items).insert(path, digest),
{
    let grown = items.insert(at, (path, digest));
    assert forall|k: int| at <= k < items.len() implies text_lt(path, (#[trigger] items[k]).0) by {
        if at < k {
            lemma_lex_transitive(
                encode_utf8(path),
                encode_utf8(items[at].0),
                encode_utf8(items[k].0),
            );
        }
    }
    assert forall|i: int, j: int| 0 <= i < j < grown.len() implies text_lt(
        (#[trigger] grown[i]).0,
        (#[trigger] grown[j]).0,
    ) by {
        let oi = if i < at { i } else { i - 1 };
        let oj = if j < at { j } else { j - 1 };
        if i != at && j != at {
            assert(grown[i] == items[oi]);
            assert(grown[j] == items[oj]);
        } else if i == at {
            assert(grown[j] == items[oj]);
        } else {
            assert(grown[i] == items[oi]);
        }
    }
    lemma_map_of(items);
    lemma_map_of(grown);
    let left = map_of(grown);
    let right = map_of(items).insert(path, digest);
    assert(grown[at] == (path, digest));
    assert forall|p: Seq<char>| left.dom().contains(p) <==> right.dom().contains(p) by {
        if left.dom().contains(p) {
            let k = choose|k: int| 0 <= k < grown.len() && (#[trigger] grown[k]).0 == p;
            if k < at {
                assert(grown[k] == items[k]);
            } else if k > at {
                assert(grown[k] == items[k - 1]);
            }
        }
        if right.dom().contains(p) && p != path {
            let k = choose|k: int| 0 <= k < items.len() && (#[trigger] items[k]).0 == p;
            if k < at {
                assert(grown[k] == items[k]);
            } else {
                assert(grown[k + 1] == items[k]);
            }
        }
    }
    assert forall|p: Seq<char>| left.dom().contains(p) implies left[p] == right[p] by {
        let k = choose|k: int| 0 <= k < grown.len() && (#[trigger] grown[k]).0 == p;
        assert(left.contains_pair(grown[k].0, grown[k].1));
        if k < at {
            assert(grown[k] == items[k]);
            assert(map_of(items).contains_pair(items[k].0, items[k].1));
            lemma_text_order(items[k].0, path);
        } else if k > at {
            assert(grown[k] == items[k - 1]);
            assert(map_of(items).contains_pair(items[k - 1].0, items[k - 1].1));
            lemma_text_order(path, items[k - 1].0);
        }
    }
    assert(left =~= right);
}

/// Giving a path of a sorted listing another digest gives the listing of the
/// map with the path set to that digest.
pub proof fn lemma_update_at(
    items: Seq<(Seq<char>, Seq<u8>)>,
    at: int,
    path: Seq<char>,
    digest: Seq<u8>,
)
    requires
        sorted_by_path(items),
        0 <= at < items.len(),
        items[at].0 == path,
    ensures
        sorted_by_path(items.update(at, (path, digest))),
        map_of(items.update(at, (path, digest))) == map_of(items).insert(path, digest),
{
    let changed = items.update(at, (path, digest));
    assert forall|i: int, j: int| 0 <= i < j < changed.len() implies text_lt(
        (#[trigger] changed[i]).0,
        (#[trigger] changed[j]).0,
    ) by {
        assert(changed[i].0 == items[i].0);
        assert(changed[j].0 == items[j].0);
    }
    lemma_map_of(items);
    lemma_map_of(changed);
    let left = map_of(changed);
    let right = map_of(items).insert(path, digest);
    assert(changed[at] == (path, digest));
    assert forall|p: Seq<char>| left.dom().contains(p) <==> right.dom().contains(p) by {
        if left.dom().contains(p) {
            let k = choose|k: int| 0 <= k < changed.len() && (#[trigger] changed[k]).0 == p;
            assert(changed[k].0 == items[k].0);
        }
        if right.dom().contains(p) && p != path {
            let k = choose|k: int| 0 <= k < items.len() && (#[trigger] items[k]).0 == p;
            assert(changed[k].0 == items[k].0);
        }
    }
    assert forall|p: Seq<char>| left.dom().contains(p) implies left[p] == right[p] by {
        let k = choose|k: int| 0 <= k < changed.len() && (#[trigger] changed[k]).0 == p;
        assert(left.contains_pair(changed[k].0, changed[k].1));
        if k != at {
            assert(changed[k] == items[k]);
            assert(map_of(items).contains_pair(items[k].0, items[k].1));
            if p == path {
                lemma_sorted_distinct(items, k, at);
            }
        }
    }
    assert(left =~= right);
}

/// Taking an item out of a sorted listing gives the listing of the map
/// without its path.
pub proof fn lemma_remove_at(items: Seq<(Seq<char>, Seq<u8>)>, at: int)
    requires
        sorted_by_path(items),
        0 <= at < items.len(),
    ensures
        sorted_by_path(items.remove(at)),
        map_of(items.remove(at)) == map_of(items).remove(items[at].0),
{
    let fewer = items.remove(at);
    let path = items[at].0;
    assert forall|i: int, j: int| 0 <= i < j < fewer.len() implies text_lt(
        (#[trigger] fewer[i]).0,
        (#[trigger] fewer[j]).0,
    ) by {
        let oi = if i < at { i } else { i + 1 };
        let oj = if j < at { j } else { j + 1 };
        assert(fewer[i] == items[oi]);
        assert(fewer[j] == items[oj]);
    }
    lemma_map_of(items);
    lemma_map_of(fewer);
    let left = map_of(fewer);
    let right = map_of(items).remove(path);
    assert forall|p: Seq<char>| left.dom().contains(p) <==> right.dom().contains(p) by {
        if left.dom().contains(p) {
            let k = choose|k: int| 0 <= k < fewer.len() && (#[trigger] fewer[k]).0 == p;
            let ok = if k < at { k } else { k + 1 };
            assert(fewer[k] == items[ok]);
            if p == path {
                lemma_sorted_distinct(items, ok, at);
            }
        }
        if right.dom().contains(p) {
            let k = choose|k: int| 0 <= k < items.len() && (#[trigger] items[k]).0 == p;
            if k < at {
                assert(fewer[k] == items[k]);
            } else {
                assert(fewer[k - 1] == items[k]);
            }
        }
    }
    assert forall|p: Seq<char>| left.dom().contains(p) implies left[p] == right[p] by {
        let k = choose|k: int| 0 <= k < fewer.len() && (#[trigger] fewer[k]).0 == p;
        let ok = if k < at { k } else { k + 1 };
        assert(fewer[k] == items[ok]);
        assert(left.contains_pair(fewer[k].0, fewer[k].1));
        assert(map_of(items).contains_pair(items[ok].0, items[ok].1));
    }
    assert(left =~= right);
}

/// A sorted listing stays sorted when an item with a greater path is put
/// behind it.
pub proof fn lemma_sorted_push(items: Seq<(Seq<char>, Seq<u8>)>, last: (Seq<char>, Seq<u8>))
    requires
        sorted_by_path(items),
        items.len() > 0 ==> text_lt(items.last().0, last.0),
    ensures
        sorted_by_path(items.push(last)),
{
    let grown = items.push(last);
    assert forall|i: int, j: int| 0 <= i < j < grown.len() implies text_lt(
        (#[trigger] grown[i]).0,
        (#[trigger] grown[j]).0,
    ) by {
        if j < items.len() {
            assert(grown[i] == items[i] && grown[j] == items[j]);
        } else if i < items.len() - 1 {
            assert(grown[i] == items[i]);
            assert(text_lt(items[i].0, items[items.len() - 1].0));
            lemma_lex_transitive(
                encode_utf8(items[i].0),
                encode_utf8(items.last().0),
                encode_utf8(last.0),
            );
        }
    }
}

/// A path that has its place between two neighbours of a sorted listing is no
/// path of the listing.
pub proof fn lemma_absent_at(items: Seq<(Seq<char>, Seq<u8>)>, at: int, path: Seq<char>)
    requires
        sorted_by_path(items),
        0 <= at <= items.len(),
        forall|k: int| 0 <= k < at ==> text_lt((#[trigger] items[k]).0, path),
        at < items.len() ==> text_lt(path, items[at].0),
    ensures
        !map_of(items).dom().contains(path),
{
    if map_of(items).dom().contains(path) {
        let k = choose|k: int| 0 <= k < items.len() && (#[trigger] items[k]).0 == path;
        lemma_text_order(path, path);
        if k >= at {
            if k > at {
                lemma_lex_transitive(
                    encode_utf8(path),
                    encode_utf8(items[at].0),
                    encode_utf8(items[k].0),
                );
            }
        }
    }
}

/// No path is stale exactly when every item is reported with its own digest,
/// and the stale paths are those of the items that are not.
pub proof fn lemma_stale_paths(items: Seq<(Seq<char>, Seq<u8>)>, observed: Seq<Observation>)
    ensures
        stale_paths(items, observed).len() == 0 <==> forall|i: int|
            0 <= i < items.len() ==> reported(observed, (#[trigger] items[i]).0) == Some(
                items[i].1,
            ),
        forall|p: Seq<char>| #[trigger]
            stale_paths(items, observed).contains(p) <==> exists|i: int|
                0 <= i < items.len() && (#[trigger] items[i]).0 == p && reported(observed, p)
                    != Some(items[i].1),
    decreases items.len(),
{
    let stale = stale_paths(items, observed);
    if items.len() > 0 {
        let head = items.drop_last();
        let last = items.last();
        let before = stale_paths(head, observed);
        let current = reported(observed, last.0) == Some(last.1);
        lemma_stale_paths(head, observed);
        if stale.len() == 0 {
            assert forall|i: int| 0 <= i < items.len() implies reported(
                observed,
                (#[trigger] items[i]).0,
            ) == Some(items[i].1) by {
                if i < head.len() {
                    assert(items[i] == head[i]);
                }
            }
        } else if current {
            let i = choose|i: int|
                0 <= i < head.len() && reported(observed, (#[trigger] head[i]).0) != Some(
                    head[i].1,
                );
            assert(items[i] == head[i]);
        } else {
            assert(items[items.len() - 1] == last);
        }
        assert forall|p: Seq<char>| #[trigger] stale.contains(p) <==> exists|i: int|
            0 <= i < items.len() && (#[trigger] items[i]).0 == p && reported(observed, p) != Some(
                items[i].1,
            ) by {
            if stale.contains(p) {
                let k = choose|k: int| 0 <= k < stale.len() && stale[k] == p;
                if k < before.len() {
                    assert(before[k] == p);
                    assert(before.contains(p));
                    let i = choose|i: int|
                        0 <= i < head.len() && (#[trigger] head[i]).0 == p && reported(observed, p)
                            != Some(head[i].1);
                    assert(items[i] == head[i]);
                } else {
                    assert(items[items.len() - 1] == last);
                }
            }
            if exists|i: int|
                0 <= i < items.len() && (#[trigger] items[i]).0 == p && reported(observed, p)
                    != Some(items[i].1) {
                let i = choose|i: int|
                    0 <= i < items.len() && (#[trigger] items[i]).0 == p && reported(observed, p)
                        != Some(items[i].1);
                if i < head.len() {
                    assert(items[i] == head[i]);
                    assert(before.contains(p));
                    let k = choose|k: int| 0 <= k < before.len() && before[k] == p;
                    assert(stale[k] == p);
                } else {
                    assert(stale[stale.len() - 1] == p);
                }
            }
        }
    }
}

/// The records that persist `items`.
pub open spec fn records_for(items: Seq<(Seq<char>, Seq<u8>)>) -> Seq<(Seq<u8>, Seq<u8>)> {
    items.map_values(|item: (Seq<char>, Seq<u8>)| (encode_utf8(item.0), item.1))
}

/// What was saved is what is loaded: the bytes that persist a sorted listing
/// are read back as that listing.
pub proof fn lemma_save_load(items: Seq<(Seq<char>, Seq<u8>)>)
    requires
        sorted_by_path(items),
        fits(items),
    ensures
        records_of(encode_listing(items), staging_marks()) == Some(records_for(items)),
        decode_listing(encode_listing(items)) == Some(items),
    decreases items.len(),
{
    let records = records_for(items);
    if items.len() == 0 {
        assert(records =~= Seq::empty());
    } else {
        let head = items.drop_last();
        let last = items.last();
        assert forall|i: int, j: int| 0 <= i < j < head.len() implies text_lt(
            (#[trigger] head[i]).0,
            (#[trigger] head[j]).0,
        ) by {
            assert(head[i] == items[i] && head[j] == items[j]);
        }
        assert forall|i: int| 0 <= i < head.len() implies encode_utf8((#[trigger] head[i]).0).len()
            <= u64::MAX && head[i].1.len() <= u64::MAX by {
            assert(head[i] == items[i]);
        }
        assert(items[items.len() - 1] == last);
        lemma_save_load(head);
        lemma_records_extend(
            encode_listing(head),
            0,
            staging_marks(),
            encode_utf8(last.0),
            last.1,
        );
        assert(records_for(head).push((encode_utf8(last.0), last.1)) =~= records);
    }
    assert forall|i: int| 0 <= i < records.len() implies valid_utf8((#[trigger] records[i]).0) by {
        encode_utf8_valid_utf8(items[i].0);
    }
    let back = listing_of_records(records)->Some_0;
    assert forall|i: int| 0 <= i < items.len() implies back[i] == items[i] by {
        encode_utf8_decode_utf8(items[i].0);
    }
    assert(back =~= items);
}

/// Staging a path twice with the same digest is staging it once.
pub proof fn lemma_insert_idempotent(
    staged: Map<Seq<char>, Seq<u8>>,
    path: Seq<char>,
    digest: Seq<u8>,
)
    ensures
        staged.insert(path, digest).insert(path, digest) == staged.insert(path, digest),
{
    assert(staged.insert(path, digest).insert(path, digest) =~= staged.insert(path, digest));
}

/// Removing a path that is not staged changes nothing.
pub proof fn lemma_remove_absent(staged: Map<Seq<char>, Seq<u8>>, path: Seq<char>)
    requires
        !staged.dom().contains(path),
    ensures
        staged.remove(path) == staged,
{
    assert(staged.remove(path) =~= staged);
}

/// The staged files, each with the digest that was recorded for it.
#[derive(Clone, Debug)]
pub struct Staging {
    entries: Vec<StagingEntry>,
}

impl View for Staging {
    type V = Map<Seq<char>, Seq<u8>>;

    /// The staged paths, each with its recorded digest.
    closed spec fn view(&self) -> Map<Seq<char>, Seq<u8>> {
        map_of(self.listing())
    }
}

impl Staging {
    /// The staged paths with their digests, in the order in which they are
    /// kept, shown and persisted.
    pub closed spec fn listing(&self) -> Seq<(Seq<char>, Seq<u8>)> {
        self.entries@.map_values(|e: StagingEntry| e@)
    }

    /// What every staging area that this library hands out satisfies: the
    /// paths ascend strictly.
    pub closed spec fn wf(&self) -> bool {
        sorted_by_path(self.listing())
    }

    /// The listing of a staging area is the listing of its map: the map alone
    /// decides what is listed, and in which order.
    pub proof fn lemma_listing(&self)
        requires
            self.wf(),
        ensures
            lists(self.listing(), self@),
    {
        lemma_map_of(self.listing());
    }

    /// The staged files are those of the listing, each with its digest.
    pub proof fn lemma_view(&self)
        ensures
            self@ == map_of(self.listing()),
    {
    }

    /// An empty staging area.
    pub fn new() -> (staging: Staging)
        ensures
            staging.wf(),
            staging@ == Map::<Seq<char>, Seq<u8>>::empty(),
            staging.listing() == Seq::<(Seq<char>, Seq<u8>)>::empty(),
    {
        let staging = Staging { entries: Vec::new() };
        proof {
            assert(staging.listing() =~= Seq::<(Seq<char>, Seq<u8>)>::empty());
            assert(staging@ =~= Map::<Seq<char>, Seq<u8>>::empty());
        }
        staging
    }

    /// Whether nothing is staged.
    pub fn is_empty(&self) -> (empty: bool)
        requires
            self.wf(),
        ensures
            empty == (self@ == Map::<Seq<char>, Seq<u8>>::empty()),
            empty == (self.listing().len() == 0),
    {
        proof {
            lemma_map_of(self.listing());
            if self.listing().len() == 0 {
                assert(self@ =~= Map::<Seq<char>, Seq<u8>>::empty());
            } else {
                assert(self@.contains_pair(self.listing()[0].0, self.listing()[0].1));
            }
        }
        self.entries.len() == 0
    }

    /// The number of staged files.
    pub fn len(&self) -> (count: usize)
        ensures
            count == self.listing().len(),
    {
        self.entries.len()
    }

    /// Where `path` stands among the entries, or where it would be put.
    fn position(&self, path: &str) -> (at: usize)
        ensures
            at <= self.listing().len(),
            forall|k: int| 0 <= k < at ==> text_lt((#[trigger] self.listing()[k]).0, path@),
            at < self.listing().len() ==> !text_lt(self.listing()[at as int].0, path@),
    {
        let mut at: usize = 0;
        while at < self.entries.len() && text_before(self.entries[at].path.as_str(), path)
            invariant
                at <= self.listing().len(),
                self.listing().len() == self.entries@.len(),
                forall|k: int| 0 <= k < at ==> text_lt((#[trigger] self.listing()[k]).0, path@),
            decreases self.entries@.len() - at,
        {
            at = at + 1;
        }
        at
    }

    /// Whether `path` is staged.
    pub fn contains(&self, path: &str) -> (staged: bool)
        requires
            self.wf(),
        ensures
            staged == self@.dom().contains(path@),
    {
        let at = self.position(path);
        let staged = at < self.entries.len() && text_eq(self.entries[at].path.as_str(), path);
        proof {
            lemma_map_of(self.listing());
            if staged {
                assert(self@.contains_pair(self.listing()[at as int].0, self.listing()[at as int].1));
            } else {
                if at < self.listing().len() {
                    lemma_text_order(self.listing()[at as int].0, path@);
                }
                lemma_absent_at(self.listing(), at as int, path@);
            }
        }
        staged
    }

    /// Stages `path` with `digest`. A path that is staged already keeps its
    /// place and has its digest replaced.
    pub fn insert(&mut self, path: &str, digest: Vec<u8>)
        requires
            old(self).wf(),
        ensures
            final(self).wf(),
            final(self)@ == old(self)@.insert(path@, digest@),
    {
        let at = self.position(path);
        let ghost before = self.listing();
        let entry = StagingEntry { path: String::from_str(path), digest };
        if at < self.entries.len() && text_eq(self.entries[at].path.as_str(), path) {
            self.entries.set(at, entry);
            proof {
                lemma_update_at(before, at as int, path@, digest@);
                assert(self.listing() =~= before.update(at as int, (path@, digest@)));
            }
        } else {
            proof {
                if at < before.len() {
                    lemma_text_order(before[at as int].0, path@);
                }
                lemma_insert_at(before, at as int, path@, digest@);
            }
            self.entries.insert(at, entry);
            proof {
                assert(self.listing() =~= before.insert(at as int, (path@, digest@)));
            }
        }
    }

    /// Takes `path` out of the staging area and says whether it was staged.
    /// Removing a path that is not staged changes nothing.
    pub fn remove(&mut self, path: &str) -> (was_staged: bool)
        requires
            old(self).wf(),
        ensures
            final(self).wf(),
            final(self)@ == old(self)@.remove(path@),
            was_staged == old(self)@.dom().contains(path@),
            !was_staged ==> final(self)@ == old(self)@,
    {
        let at = self.position(path);
        let ghost before = self.listing();
        proof {
            lemma_map_of(before);
        }
        if at < self.entries.len() && text_eq(self.entries[at].path.as_str(), path) {
            proof {
                lemma_remove_at(before, at as int);
                assert(self@.contains_pair(before[at as int].0, before[at as int].1));
            }
            let _ = self.entries.remove(at);
            proof {
                assert(self.listing() =~= before.remove(at as int));
            }
            true
        } else {
            proof {
                if at < before.len() {
                    lemma_text_order(before[at as int].0, path@);
                }
                lemma_absent_at(before, at as int, path@);
                assert(self@.remove(path@) =~= self@);
            }
            false
        }
    }

    /// Forgets every staged file.
    pub fn wipe(&mut self)
        ensures
            final(self).wf(),
            final(self)@ == Map::<Seq<char>, Seq<u8>>::empty(),
            final(self).listing() == Seq::<(Seq<char>, Seq<u8>)>::empty(),
    {
        self.entries.clear();
        proof {
            assert(self.listing() =~= Seq::<(Seq<char>, Seq<u8>)>::empty());
            assert(self@ =~= Map::<Seq<char>, Seq<u8>>::empty());
        }
    }

    /// The staged paths, in ascending order.
    pub fn paths(&self) -> (paths: Vec<String>)
        requires
            self.wf(),
        ensures
            paths.deep_view() == paths_of(self.listing()),
            lists(self.listing(), self@),
    {
        let mut paths: Vec<String> = Vec::new();
        let mut i: usize = 0;
        while i < self.entries.len()
            invariant
                i <= self.entries@.len(),
                paths.deep_view() == paths_of(self.listing().subrange(0, i as int)),
                self.listing().len() == self.entries@.len(),
            decreases self.entries@.len() - i,
        {
            let ghost seen = paths.deep_view();
            paths.push(self.entries[i].path.clone());
            proof {
                assert(paths.deep_view() =~= seen.push(self.entries@[i as int].path@));
                assert(paths_of(self.listing().subrange(0, i + 1)) =~= paths_of(
                    self.listing().subrange(0, i as int),
                ).push(self.listing()[i as int].0));
            }
            i = i + 1;
        }
        proof {
            lemma_map_of(self.listing());
            assert(self.listing().subrange(0, i as int) =~= self.listing());
        }
        paths
    }

    /// The staged files as the records of a review, ascending by path.
    pub fn to_review_files(&self) -> (files: Vec<ReviewFile>)
        requires
            self.wf(),
        ensures
            files_view(files@) == self.listing(),
            lists(self.listing(), self@),
    {
        let mut files: Vec<ReviewFile> = Vec::new();
        let mut i: usize = 0;
        while i < self.entries.len()
            invariant
                i <= self.entries@.len(),
                files_view(files@) == self.listing().subrange(0, i as int),
                self.listing().len() == self.entries@.len(),
            decreases self.entries@.len() - i,
        {
            let ghost seen = files_view(files@);
            let file = ReviewFile {
                path: self.entries[i].path.clone(),
                digest: slice_to_vec(self.entries[i].digest.as_slice()),
            };
            files.push(file);
            proof {
                assert(files_view(files@) =~= seen.push(self.listing()[i as int]));
                assert(self.listing().subrange(0, i + 1) =~= seen.push(self.listing()[i as int]));
            }
            i = i + 1;
        }
        proof {
            lemma_map_of(self.listing());
            assert(self.listing().subrange(0, i as int) =~= self.listing());
        }
        files
    }

    /// The digest that `observed` reports for `path`.
    fn lookup<'a>(observed: &'a Vec<Observation>, path: &str) -> (found: Option<&'a Vec<u8>>)
        ensures
            match found {
                None => reported(observed@, path@) is None,
                Some(digest) => reported(observed@, path@) == Some(digest@),
            },
    {
        let mut i: usize = 0;
        while i < observed.len()
            invariant
                i <= observed@.len(),
                reported(observed@, path@) == reported_from(observed@, path@, i as int),
            decreases observed@.len() - i,
        {
            if text_eq(observed[i].path.as_str(), path) {
                return match &observed[i].digest {
                    None => None,
                    Some(digest) => Some(digest),
                };
            }
            i = i + 1;
        }
        None
    }

    /// Checks that every staged file still is what was staged: `observed`
    /// reports for its path the digest that was recorded. A file that is gone,
    /// or that `observed` does not mention, is stale like one that changed.
    /// The error names every stale path, in ascending order.
    pub fn enforce_current(&self, observed: &Vec<Observation>) -> (checked: Result<
        (),
        ConsistencyError,
    >)
        requires
            self.wf(),
        ensures
            match checked {
                Ok(()) => stale_paths(self.listing(), observed@).len() == 0,
                Err(e) => e.paths.deep_view() == stale_paths(self.listing(), observed@)
                    && e.paths@.len() > 0,
            },
            checked is Ok <==> forall|p: Seq<char>| #[trigger]
                self@.dom().contains(p) ==> reported(observed@, p) == Some(self@[p]),
    {
        let mut stale: Vec<String> = Vec::new();
        let mut i: usize = 0;
        while i < self.entries.len()
            invariant
                i <= self.entries@.len(),
                self.listing().len() == self.entries@.len(),
                stale.deep_view() == stale_paths(self.listing().subrange(0, i as int), observed@),
            decreases self.entries@.len() - i,
        {
            proof {
                assert(self.listing().subrange(0, i + 1).drop_last() =~= self.listing().subrange(
                    0,
                    i as int,
                ));
                assert(self.listing()[i as int] == self.entries@[i as int]@);
            }
            let current = match Staging::lookup(observed, self.entries[i].path.as_str()) {
                None => false,
                Some(digest) => bytes_eq(digest.as_slice(), self.entries[i].digest.as_slice()),
            };
            if !current {
                let ghost seen = stale.deep_view();
                stale.push(self.entries[i].path.clone());
                proof {
                    assert(stale.deep_view() =~= seen.push(self.entries@[i as int].path@));
                }
            }
            i = i + 1;
        }
        proof {
            assert(self.listing().subrange(0, i as int) =~= self.listing());
            assert(stale.deep_view().len() == stale@.len());
            self.lemma_current(observed@);
        }
        if stale.len() == 0 {
            Ok(())
        } else {
            Err(ConsistencyError { paths: stale })
        }
    }

    /// No path is stale exactly when every staged path is reported with the
    /// digest that was staged.
    pub proof fn lemma_current(&self, observed: Seq<Observation>)
        requires
            self.wf(),
        ensures
            stale_paths(self.listing(), observed).len() == 0 <==> forall|p: Seq<char>| #[trigger]
                self@.dom().contains(p) ==> reported(observed, p) == Some(self@[p]),
    {
        let items = self.listing();
        lemma_stale_paths(items, observed);
        lemma_map_of(items);
        if stale_paths(items, observed).len() == 0 {
            assert forall|p: Seq<char>| #[trigger] self@.dom().contains(p) implies reported(
                observed,
                p,
            ) == Some(self@[p]) by {
                let i = choose|i: int| 0 <= i < items.len() && (#[trigger] items[i]).0 == p;
                assert(self@.contains_pair(items[i].0, items[i].1));
            }
        }
        if forall|p: Seq<char>| #[trigger]
            self@.dom().contains(p) ==> reported(observed, p) == Some(self@[p]) {
            assert forall|i: int| 0 <= i < items.len() implies reported(
                observed,
                (#[trigger] items[i]).0,
            ) == Some(items[i].1) by {
                assert(self@.contains_pair(items[i].0, items[i].1));
            }
        }
    }

    /// The marks of a record of the staging file.
    fn marks() -> (marks: Marks)
        ensures
            marks@ == staging_marks(),
    {
        Marks { open: "staged\n".as_bytes_vec(), middle: Vec::new(), close: Vec::new() }
    }

    /// The bytes that persist the staging area: one record for each staged
    /// file, ascending by path.
    pub fn save(&self) -> (bytes: Vec<u8>)
        requires
            self.wf(),
        ensures
            bytes@ == encode_listing(self.listing()),
            decode_listing(bytes@) == Some(self.listing()),
    {
        let marks = Staging::marks();
        let mut bytes: Vec<u8> = Vec::new();
        let mut i: usize = 0;
        while i < self.entries.len()
            invariant
                i <= self.entries@.len(),
                self.listing().len() == self.entries@.len(),
                marks@ == staging_marks(),
                bytes@ == encode_listing(self.listing().subrange(0, i as int)),
                fits(self.listing().subrange(0, i as int)),
            decreases self.entries@.len() - i,
        {
            proof {
                assert(self.listing().subrange(0, i + 1).drop_last() =~= self.listing().subrange(
                    0,
                    i as int,
                ));
                assert(self.listing()[i as int] == self.entries@[i as int]@);
            }
            put_record(
                &mut bytes,
                &marks,
                self.entries[i].path.as_str().as_bytes(),
                self.entries[i].digest.as_slice(),
            );
            proof {
                let seen = self.listing().subrange(0, i as int);
                let grown = self.listing().subrange(0, i + 1);
                assert forall|k: int| 0 <= k < grown.len() implies encode_utf8(
                    (#[trigger] grown[k]).0,
                ).len() <= u64::MAX && grown[k].1.len() <= u64::MAX by {
                    if k < seen.len() {
                        assert(grown[k] == seen[k]);
                    }
                }
            }
            i = i + 1;
        }
        proof {
            assert(self.listing().subrange(0, i as int) =~= self.listing());
            lemma_save_load(self.listing());
        }
        bytes
    }

    /// Reads a staging area from the bytes that persist it. Bytes that `save`
    /// did not write are refused.
    pub fn load(bytes: &[u8]) -> (loaded: Result<Staging, StagingError>)
        ensures
            match loaded {
                Ok(staging) => staging.wf() && decode_listing(bytes@) == Some(staging.listing()),
                Err(_) => decode_listing(bytes@) is None,
            },
    {
        let marks = Staging::marks();
        let records = match split_records(bytes, &marks) {
            None => {
                return Err(StagingError::Corrupt);
            },
            Some(records) => records,
        };
        let ghost raw = records.deep_view();
        let mut entries: Vec<StagingEntry> = Vec::new();
        let mut i: usize = 0;
        while i < records.len()
            invariant
                i <= records@.len(),
                raw == records.deep_view(),
                records_of(bytes@, staging_marks()) == Some(raw),
                entries@.len() == i,
                forall|k: int| 0 <= k < i ==> valid_utf8((#[trigger] raw[k]).0),
                forall|k: int|
                    0 <= k < i ==> (#[trigger] entries@[k])@ == (decode_utf8(raw[k].0), raw[k].1),
                sorted_by_path(entries@.map_values(|e: StagingEntry| e@)),
            decreases records@.len() - i,
        {
            let ghost listed = entries@.map_values(|e: StagingEntry| e@);
            proof {
                assert(raw[i as int] == records@[i as int].deep_view());
                assert(records@[i as int].0.deep_view() =~= records@[i as int].0@);
                assert(records@[i as int].1.deep_view() =~= records@[i as int].1@);
            }
            let path = match text_of_utf8(records[i].0.as_slice()) {
                None => {
                    return Err(StagingError::Corrupt);
                },
                Some(path) => path,
            };
            let digest = slice_to_vec(records[i].1.as_slice());
            if i > 0 && !text_before(entries[i - 1].path.as_str(), path.as_str()) {
                proof {
                    if listing_of_records(raw) is Some {
                        let items = listing_of_records(raw)->Some_0;
                        assert(items[i - 1].0 == entries@[i - 1]@.0);
                        assert(items[i as int].0 == path@);
                        assert(!text_lt(items[i - 1].0, items[i as int].0));
                    }
                }
                return Err(StagingError::Corrupt);
            }
            let entry = StagingEntry { path, digest };
            proof {
                if i > 0 {
                    assert(listed.last() == entries@[i - 1]@);
                }
                lemma_sorted_push(listed, entry@);
            }
            entries.push(entry);
            proof {
                assert(entries@.map_values(|e: StagingEntry| e@) =~= listed.push(entry@));
            }
            i = i + 1;
        }
        let staging = Staging { entries };
        proof {
            let items = listing_of_records(raw)->Some_0;
            assert(staging.listing() =~= items);
        }
        Ok(staging)
    }

    /// The staging area that was persisted, or an empty one where nothing was.
    pub fn open(persisted: Option<&[u8]>) -> (opened: Result<Staging, StagingError>)
        ensures
            match opened {
                Ok(staging) => staging.wf() && match persisted {
                    None => staging.listing() == Seq::<(Seq<char>, Seq<u8>)>::empty(),
                    Some(bytes) => decode_listing(bytes@) == Some(staging.listing()),
                },
                Err(_) => persisted matches Some(bytes) && decode_listing(bytes@) is None,
            },
    {
        match persisted {
            None => Ok(Staging::new()),
            Some(bytes) => Staging::load(bytes),
        }
    }

    /// Two staging areas that stage the same files with the same digests list
    /// them in the same order and are persisted by the same bytes, however
    /// they came about.
    pub proof fn lemma_order_is_fixed(&self, other: &Staging)
        requires
            self.wf(),
            other.wf(),
            self@ == other@,
        ensures
            self.listing() == other.listing(),
            paths_of(self.listing()) == paths_of(other.listing()),
            encode_listing(self.listing()) == encode_listing(other.listing()),
    {
        lemma_map_of(self.listing());
        lemma_map_of(other.listing());
        lemma_listing_unique(self.listing(), other.listing(), self@);
    }
}

} // verus!
