//! The tag catalog: every display tag once, with the search tag that it was
//! first seen with, in alphabetical order.

use crate::error::Error;
use crate::order::{lemma_str_lt_strict_total, str_lt};
use crate::sorting::{is_sorted, lemma_rearranged, sort_stable, Ranked};
use crate::text::same_text;
use vstd::prelude::*;

verus! {

/// The tags of one record: display tags and, index by index, the search tag
/// of each.
#[derive(Clone, Debug, PartialEq, Eq)]
pub struct TableTagData {
    pub tags: Vec<String>,
    pub search_tags: Vec<String>,
}

/// One entry of the tag catalog.
#[derive(Clone, Debug, PartialEq, Eq)]
pub struct SearchResult {
    pub tag: String,
    pub search_tag: String,
}

/// A display tag with its search tag, as texts.
pub struct TagPair {
    pub tag: Seq<char>,
    pub search_tag: Seq<char>,
}

/// The tag lists of a record, as texts.
pub struct TagLists {
    pub tags: Seq<Seq<char>>,
    pub search_tags: Seq<Seq<char>>,
}

impl View for SearchResult {
    type V = TagPair;

    open spec fn view(&self) -> TagPair {
        TagPair { tag: self.tag@, search_tag: self.search_tag@ }
    }
}

impl View for TableTagData {
    type V = TagLists;

    open spec fn view(&self) -> TagLists {
        TagLists {
            tags: Seq::new(self.tags@.len(), |i: int| self.tags@[i]@),
            search_tags: Seq::new(self.search_tags@.len(), |i: int| self.search_tags@[i]@),
        }
    }
}

impl Ranked for SearchResult {
    open spec fn rank(&self) -> Seq<char> {
        self.tag@
    }

    fn rank_str(&self) -> (s: &str) {
        self.tag.as_str()
    }
}

/// The entries of a listing, each by its texts.
pub open spec fn pairs_of(entries: Seq<SearchResult>) -> Seq<TagPair> {
    Seq::new(entries.len(), |i: int| entries[i]@)
}

/// The tag lists of the records, each by its texts.
pub open spec fn lists_of(records: Seq<TableTagData>) -> Seq<TagLists> {
    Seq::new(records.len(), |i: int| records[i]@)
}

/// Every record names as many search tags as tags.
pub open spec fn lists_match(records: Seq<TagLists>) -> bool {
    forall|i: int| 0 <= i < records.len() ==> (#[trigger] records[i]).tags.len() == records[i].search_tags.len()
}

/// The tags of one record, each paired with the search tag at the same index.
pub open spec fn record_pairs(record: TagLists) -> Seq<TagPair>
    recommends
        record.tags.len() == record.search_tags.len(),
{
    Seq::new(
        record.tags.len(),
        |i: int| TagPair { tag: record.tags[i], search_tag: record.search_tags[i] },
    )
}

/// All pairs in the order of traversal: record by record, and inside a record
/// tag by tag.
pub open spec fn traversal(records: Seq<TagLists>) -> Seq<TagPair>
    decreases records.len(),
{
    if records.len() == 0 {
        Seq::empty()
    } else {
        traversal(records.drop_last()) + record_pairs(records.last())
    }
}

/// Offset `p` is where `tag` occurs first in the traversal.
pub open spec fn first_seen_at(pairs: Seq<TagPair>, tag: Seq<char>, p: int) -> bool {
    &&& 0 <= p < pairs.len()
    &&& pairs[p].tag == tag
    &&& forall|q: int| 0 <= q < p ==> (#[trigger] pairs[q]).tag != tag
}

/// Some entry of the listing carries `tag`.
pub open spec fn has_tag(entries: Seq<TagPair>, tag: Seq<char>) -> bool {
    exists|i: int| 0 <= i < entries.len() && (#[trigger] entries[i]).tag == tag
}

/// No tag is carried by two entries.
pub open spec fn tags_distinct(entries: Seq<TagPair>) -> bool {
    forall|i: int, j: int|
        0 <= i < j < entries.len() ==> (#[trigger] entries[i]).tag != (#[trigger] entries[j]).tag
}

/// Offset `p` is where the tag of `entry` occurs first in the traversal, and
/// the search tag there is the one that `entry` carries.
pub open spec fn taken_from(pairs: Seq<TagPair>, entry: TagPair, p: int) -> bool {
    first_seen_at(pairs, entry.tag, p) && pairs[p].search_tag == entry.search_tag
}

/// The entry carries a tag of the traversal together with the search tag
/// that stands where that tag occurs first.
pub open spec fn first_seen(pairs: Seq<TagPair>, entry: TagPair) -> bool {
    exists|p: int| taken_from(pairs, entry, p)
}

/// Every entry is a first occurrence in the traversal.
pub open spec fn entries_first_seen(entries: Seq<TagPair>, pairs: Seq<TagPair>) -> bool {
    forall|i: int| 0 <= i < entries.len() ==> first_seen(pairs, #[trigger] entries[i])
}

/// Every tag of the traversal is carried by some entry.
pub open spec fn covers(entries: Seq<TagPair>, pairs: Seq<TagPair>) -> bool {
    forall|p: int| 0 <= p < pairs.len() ==> has_tag(entries, (#[trigger] pairs[p]).tag)
}

/// The entries stand in strictly ascending order of their tags.
pub open spec fn ascending_by_tag(entries: Seq<TagPair>) -> bool {
    forall|i: int, j: int|
        0 <= i < j < entries.len() ==> str_lt((#[trigger] entries[i]).tag, (#[trigger] entries[j]).tag)
}

/// `entries` is the catalog of the traversal `pairs`: each tag of the
/// traversal exactly once, with the search tag of its first occurrence, in
/// ascending order of the tags.
pub open spec fn is_catalog_of(entries: Seq<TagPair>, pairs: Seq<TagPair>) -> bool {
    &&& ascending_by_tag(entries)
    &&& entries_first_seen(entries, pairs)
    &&& covers(entries, pairs)
}

impl SearchResult {
    /// Whether one of the entries carries `tag`.
    pub fn exists_tag(result: &[SearchResult], tag: &str) -> (found: bool)
        ensures
            found == has_tag(pairs_of(result@), tag@),
    {
        let mut i: usize = 0;
        while i < result.len()
            invariant
                i <= result@.len(),
                forall|j: int| 0 <= j < i ==> (#[trigger] pairs_of(result@)[j]).tag != tag@,
            decreases result@.len() - i,
        {
            if same_text(result[i].tag.as_str(), tag) {
                assert(pairs_of(result@)[i as int].tag == tag@);
                return true;
            }
            i += 1;
        }
        false
    }
}

/// Builds the tag catalog of `records`. Records are gone through in the
/// order given and the tags of a record in list order; a tag that was seen
/// before is passed over, so each tag keeps the search tag it was first seen
/// with. The entries are then sorted by tag. A record that names more or
/// fewer search tags than tags makes the whole input invalid.
pub fn aggregate_tags(records: &Vec<TableTagData>) -> (result: Result<Vec<SearchResult>, Error>)
    ensures
        match result {
            Ok(entries) => {
                &&& lists_match(lists_of(records@))
                &&& is_catalog_of(pairs_of(entries@), traversal(lists_of(records@)))
                &&& tags_distinct(pairs_of(entries@))
            },
            Err(e) => !lists_match(lists_of(records@)) && e == Error::TagListsDiffer,
        },
{
    let ghost lists = lists_of(records@);
    let mut found: Vec<SearchResult> = Vec::new();
    let mut r: usize = 0;
    assert(lists.take(0) =~= Seq::<TagLists>::empty());
    while r < records.len()
        invariant
            lists == lists_of(records@),
            r <= records@.len(),
            lists_match(lists.take(r as int)),
            tags_distinct(pairs_of(found@)),
            entries_first_seen(pairs_of(found@), traversal(lists.take(r as int))),
            covers(pairs_of(found@), traversal(lists.take(r as int))),
        decreases records@.len() - r,
    {
        let post = &records[r];
        if post.tags.len() != post.search_tags.len() {
            assert(lists[r as int].tags.len() != lists[r as int].search_tags.len());
            return Err(Error::TagListsDiffer);
        }
        let ghost before = traversal(lists.take(r as int));
        let ghost here = record_pairs(lists[r as int]);
        let mut i: usize = 0;
        assert(before + here.take(0) =~= before);
        while i < post.tags.len()
            invariant
                lists == lists_of(records@),
                r < records@.len(),
                post == &records@[r as int],
                post.tags@.len() == post.search_tags@.len(),
                here == record_pairs(lists[r as int]),
                i <= post.tags@.len(),
                tags_distinct(pairs_of(found@)),
                entries_first_seen(pairs_of(found@), before + here.take(i as int)),
                covers(pairs_of(found@), before + here.take(i as int)),
            decreases post.tags@.len() - i,
        {
            let ghost seen = before + here.take(i as int);
            let ghost next = before + here.take(i + 1);
            let ghost old_entries = pairs_of(found@);
            let ghost pair = here[i as int];
            assert(next =~= seen.push(pair));
            assert(pair.tag == post.tags@[i as int]@);
            assert(pair.search_tag == post.search_tags@[i as int]@);
            if !SearchResult::exists_tag(found.as_slice(), post.tags[i].as_str()) {
                found.push(
                    SearchResult { tag: post.tags[i].clone(), search_tag: post.search_tags[i].clone() },
                );
                let ghost entries = pairs_of(found@);
                assert(entries =~= old_entries.push(pair));
                proof {
                    lemma_new_tag(old_entries, seen, pair);
                }
            } else {
                proof {
                    lemma_known_tag(old_entries, seen, pair);
                }
            }
            i += 1;
        }
        proof {
            assert(here.take(i as int) =~= here);
            assert(lists.take(r + 1).drop_last() =~= lists.take(r as int));
            assert(lists.take(r + 1).last() == lists[r as int]);
            assert forall|k: int| 0 <= k < lists.take(r + 1).len() implies (
            #[trigger] lists.take(r + 1)[k]).tags.len() == lists.take(r + 1)[k].search_tags.len() by {
                if k < r {
                    assert(lists.take(r as int)[k] == lists.take(r + 1)[k]);
                }
            }
        }
        r += 1;
    }
    assert(lists.take(r as int) =~= lists);
    let ghost pairs = traversal(lists);
    let ghost unsorted = found@;
    sort_stable(&mut found, false);
    proof {
        lemma_sorted_catalog(unsorted, found@, pairs);
    }
    Ok(found)
}

/// A pair whose tag no entry carries yet becomes a new entry: it is the
/// first occurrence of its tag.
proof fn lemma_new_tag(entries: Seq<TagPair>, seen: Seq<TagPair>, pair: TagPair)
    requires
        tags_distinct(entries),
        entries_first_seen(entries, seen),
        covers(entries, seen),
        !has_tag(entries, pair.tag),
    ensures
        tags_distinct(entries.push(pair)),
        entries_first_seen(entries.push(pair), seen.push(pair)),
        covers(entries.push(pair), seen.push(pair)),
{
    let grown = entries.push(pair);
    let next = seen.push(pair);
    assert forall|i: int, j: int| 0 <= i < j < grown.len() implies (#[trigger] grown[i]).tag != (
    #[trigger] grown[j]).tag by {
        if j == entries.len() {
            assert(entries[i].tag != pair.tag);
        } else {
            assert(entries[i].tag != entries[j].tag);
        }
    }
    assert forall|i: int| 0 <= i < grown.len() implies first_seen(next, #[trigger] grown[i]) by {
        if i < entries.len() {
            let p = choose|p: int| taken_from(seen, entries[i], p);
            assert forall|q: int| 0 <= q < p implies (#[trigger] next[q]).tag != grown[i].tag by {
                assert(seen[q].tag != entries[i].tag);
            }
            assert(taken_from(next, grown[i], p));
        } else {
            let p = seen.len() as int;
            assert forall|q: int| 0 <= q < p implies (#[trigger] next[q]).tag != pair.tag by {
                assert(has_tag(entries, seen[q].tag));
            }
            assert(taken_from(next, grown[i], p));
        }
    }
    assert forall|p: int| 0 <= p < next.len() implies has_tag(grown, (#[trigger] next[p]).tag) by {
        if p < seen.len() {
            assert(has_tag(entries, seen[p].tag));
            let i = choose|i: int| 0 <= i < entries.len() && (#[trigger] entries[i]).tag == seen[p].tag;
            assert(grown[i].tag == next[p].tag);
        } else {
            assert(grown[entries.len() as int].tag == pair.tag);
        }
    }
}

/// A pair whose tag an entry already carries changes nothing.
proof fn lemma_known_tag(entries: Seq<TagPair>, seen: Seq<TagPair>, pair: TagPair)
    requires
        entries_first_seen(entries, seen),
        covers(entries, seen),
        has_tag(entries, pair.tag),
    ensures
        entries_first_seen(entries, seen.push(pair)),
        covers(entries, seen.push(pair)),
{
    let next = seen.push(pair);
    assert forall|i: int| 0 <= i < entries.len() implies first_seen(next, #[trigger] entries[i]) by {
        let p = choose|p: int| taken_from(seen, entries[i], p);
        assert forall|q: int| 0 <= q < p implies (#[trigger] next[q]).tag != entries[i].tag by {
            assert(seen[q].tag != entries[i].tag);
        }
        assert(taken_from(next, entries[i], p));
    }
    assert forall|p: int| 0 <= p < next.len() implies has_tag(entries, (#[trigger] next[p]).tag) by {
        if p < seen.len() {
            assert(has_tag(entries, seen[p].tag));
        }
    }
}

/// Sorting the entries found, which carry each tag once, gives the catalog.
proof fn lemma_sorted_catalog(found: Seq<SearchResult>, sorted: Seq<SearchResult>, pairs: Seq<TagPair>)
    requires
        tags_distinct(pairs_of(found)),
        entries_first_seen(pairs_of(found), pairs),
        covers(pairs_of(found), pairs),
        is_sorted(sorted, false),
        sorted.to_multiset() == found.to_multiset(),
    ensures
        is_catalog_of(pairs_of(sorted), pairs),
        tags_distinct(pairs_of(sorted)),
{
    let before = pairs_of(found);
    let after = pairs_of(sorted);
    assert(found.no_duplicates()) by {
        assert forall|i: int, j: int| 0 <= i < found.len() && 0 <= j < found.len() && i != j implies found[i]
            != found[j] by {
            if i < j {
                assert(before[i].tag != before[j].tag);
            } else {
                assert(before[j].tag != before[i].tag);
            }
        }
    }
    lemma_rearranged(sorted, found);
    assert forall|i: int, j: int| 0 <= i < j < after.len() implies str_lt(
        (#[trigger] after[i]).tag,
        (#[trigger] after[j]).tag,
    ) by {
        assert(found.contains(sorted[i]));
        assert(found.contains(sorted[j]));
        let m = choose|m: int| 0 <= m < found.len() && found[m] == sorted[i];
        let n = choose|n: int| 0 <= n < found.len() && found[n] == sorted[j];
        assert(sorted[i] != sorted[j]);
        if m < n {
            assert(before[m].tag != before[n].tag);
        } else {
            assert(before[n].tag != before[m].tag);
        }
        assert(!str_lt(sorted[j].rank(), sorted[i].rank()));
        lemma_str_lt_strict_total(after[i].tag, after[j].tag, after[i].tag);
    }
    assert forall|i: int| 0 <= i < after.len() implies first_seen(pairs, #[trigger] after[i]) by {
        assert(found.contains(sorted[i]));
        let m = choose|m: int| 0 <= m < found.len() && found[m] == sorted[i];
        assert(before[m] == after[i]);
        let p = choose|p: int| taken_from(pairs, before[m], p);
        assert(taken_from(pairs, after[i], p));
    }
    assert forall|p: int| 0 <= p < pairs.len() implies has_tag(after, (#[trigger] pairs[p]).tag) by {
        assert(has_tag(before, pairs[p].tag));
        let m = choose|m: int| 0 <= m < before.len() && (#[trigger] before[m]).tag == pairs[p].tag;
        assert(sorted.contains(found[m]));
        let i = choose|i: int| 0 <= i < sorted.len() && sorted[i] == found[m];
        assert(after[i].tag == pairs[p].tag);
    }
}

/// Two listings in strictly ascending order are the same if each carries
/// the tags of the other and entries with the same tag are the same entry.
proof fn lemma_ascending_unique(a: Seq<TagPair>, b: Seq<TagPair>)
    requires
        ascending_by_tag(a),
        ascending_by_tag(b),
        forall|t: Seq<char>| has_tag(a, t) <==> has_tag(b, t),
        forall|i: int, j: int|
            0 <= i < a.len() && 0 <= j < b.len() && (#[trigger] a[i]).tag == (#[trigger] b[j]).tag
                ==> a[i] == b[j],
    ensures
        a == b,
    decreases a.len(),
{
    if a.len() == 0 {
        if b.len() > 0 {
            assert(has_tag(b, b[0].tag));
            assert(has_tag(a, b[0].tag));
        }
        assert(a =~= b);
    } else {
        let ta = a.last().tag;
        assert(has_tag(a, a[a.len() - 1].tag));
        assert(has_tag(b, ta));
        let j = choose|j: int| 0 <= j < b.len() && (#[trigger] b[j]).tag == ta;
        if j < b.len() - 1 {
            let tb = b.last().tag;
            assert(str_lt(b[j].tag, b[b.len() - 1].tag));
            assert(has_tag(b, b[b.len() - 1].tag));
            assert(has_tag(a, tb));
            let i = choose|i: int| 0 <= i < a.len() && (#[trigger] a[i]).tag == tb;
            lemma_str_lt_strict_total(ta, tb, ta);
            if i < a.len() - 1 {
                assert(str_lt(a[i].tag, a[a.len() - 1].tag));
            }
        }
        assert(a[a.len() - 1] == b[b.len() - 1]);
        let da = a.drop_last();
        let db = b.drop_last();
        assert forall|t: Seq<char>| has_tag(da, t) <==> has_tag(db, t) by {
            lemma_str_lt_strict_total(t, ta, t);
            if has_tag(da, t) {
                let i = choose|i: int| 0 <= i < da.len() && (#[trigger] da[i]).tag == t;
                assert(str_lt(a[i].tag, a[a.len() - 1].tag));
                assert(has_tag(a, a[i].tag));
                let k = choose|k: int| 0 <= k < b.len() && (#[trigger] b[k]).tag == t;
                assert(db[k].tag == t);
            }
            if has_tag(db, t) {
                let i = choose|i: int| 0 <= i < db.len() && (#[trigger] db[i]).tag == t;
                assert(str_lt(b[i].tag, b[b.len() - 1].tag));
                assert(has_tag(b, b[i].tag));
                let k = choose|k: int| 0 <= k < a.len() && (#[trigger] a[k]).tag == t;
                assert(da[k].tag == t);
            }
        }
        assert forall|i: int, k: int|
            0 <= i < da.len() && 0 <= k < db.len() && (#[trigger] da[i]).tag == (
            #[trigger] db[k]).tag implies da[i] == db[k] by {
            assert(a[i].tag == b[k].tag);
        }
        assert(ascending_by_tag(da)) by {
            assert forall|i: int, k: int| 0 <= i < k < da.len() implies str_lt(
                (#[trigger] da[i]).tag,
                (#[trigger] da[k]).tag,
            ) by {
                assert(str_lt(a[i].tag, a[k].tag));
            }
        }
        assert(ascending_by_tag(db)) by {
            assert forall|i: int, k: int| 0 <= i < k < db.len() implies str_lt(
                (#[trigger] db[i]).tag,
                (#[trigger] db[k]).tag,
            ) by {
                assert(str_lt(b[i].tag, b[k].tag));
            }
        }
        lemma_ascending_unique(da, db);
        assert(a =~= da.push(a.last()));
        assert(b =~= db.push(b.last()));
    }
}

/// A traversal has one catalog only.
pub proof fn lemma_catalog_unique(a: Seq<TagPair>, b: Seq<TagPair>, pairs: Seq<TagPair>)
    requires
        is_catalog_of(a, pairs),
        is_catalog_of(b, pairs),
    ensures
        a == b,
{
    assert forall|t: Seq<char>| has_tag(a, t) <==> has_tag(b, t) by {
        if has_tag(a, t) {
            let i = choose|i: int| 0 <= i < a.len() && (#[trigger] a[i]).tag == t;
            assert(first_seen(pairs, a[i]));
            let p = choose|p: int| taken_from(pairs, a[i], p);
            assert(has_tag(b, pairs[p].tag));
        }
        if has_tag(b, t) {
            let i = choose|i: int| 0 <= i < b.len() && (#[trigger] b[i]).tag == t;
            assert(first_seen(pairs, b[i]));
            let p = choose|p: int| taken_from(pairs, b[i], p);
            assert(has_tag(a, pairs[p].tag));
        }
    }
    assert forall|i: int, j: int|
        0 <= i < a.len() && 0 <= j < b.len() && (#[trigger] a[i]).tag == (#[trigger] b[j]).tag implies a[i]
        == b[j] by {
        assert(first_seen(pairs, a[i]));
        assert(first_seen(pairs, b[j]));
        let p = choose|p: int| taken_from(pairs, a[i], p);
        let q = choose|q: int| taken_from(pairs, b[j], q);
        if p < q {
            assert(pairs[p].tag != b[j].tag);
        } else if q < p {
            assert(pairs[q].tag != a[i].tag);
        }
    }
    lemma_ascending_unique(a, b);
}

} // verus!
