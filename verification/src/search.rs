//! Multi-term search: the terms of a query, and the combination of what the
//! store found for each of them.

use crate::post::PostSummary;
use crate::text::{chars_of, string_of, same_text};
use vstd::prelude::*;
use vstd::string::StringExecFns;

verus! {

/// The characters that separate the terms of a query: those with the Unicode
/// property `White_Space`.
pub open spec fn is_whitespace(c: char) -> bool {
    let n = c as u32;
    ||| 0x09 <= n <= 0x0d
    ||| n == 0x20
    ||| n == 0x85
    ||| n == 0xa0
    ||| n == 0x1680
    ||| 0x2000 <= n <= 0x200a
    ||| n == 0x2028
    ||| n == 0x2029
    ||| n == 0x202f
    ||| n == 0x205f
    ||| n == 0x3000
}

/// Whether `c` separates terms.
pub fn separates(c: char) -> (result: bool)
    ensures
        result == is_whitespace(c),
{
    let n: u32 = c as u32;
    (0x09 <= n && n <= 0x0d) || n == 0x20 || n == 0x85 || n == 0xa0 || n == 0x1680 || (0x2000 <= n
        && n <= 0x200a) || n == 0x2028 || n == 0x2029 || n == 0x202f || n == 0x205f || n == 0x3000
}

/// `word` as a sequence of terms: one term, or none if `word` is empty.
pub open spec fn closed_word(word: Seq<char>) -> Seq<Seq<char>> {
    if word.len() > 0 {
        seq![word]
    } else {
        Seq::empty()
    }
}

/// The terms of `text` when `word` is the term that was being read in front
/// of it: whitespace ends a term, anything else goes on with it.
pub open spec fn terms_after(word: Seq<char>, text: Seq<char>) -> Seq<Seq<char>>
    decreases text.len(),
{
    if text.len() == 0 {
        closed_word(word)
    } else if is_whitespace(text[0]) {
        closed_word(word) + terms_after(Seq::empty(), text.drop_first())
    } else {
        terms_after(word.push(text[0]), text.drop_first())
    }
}

/// The terms of a query: its maximal runs of characters that are not
/// whitespace, in order. The same term may occur more than once.
pub open spec fn terms_of(query: Seq<char>) -> Seq<Seq<char>> {
    terms_after(Seq::empty(), query)
}

/// The terms put together again with `separator` between one and the next.
pub open spec fn joined(terms: Seq<Seq<char>>, separator: Seq<char>) -> Seq<char>
    decreases terms.len(),
{
    if terms.len() == 0 {
        Seq::empty()
    } else if terms.len() == 1 {
        terms[0]
    } else {
        joined(terms.drop_last(), separator) + separator + terms.last()
    }
}

/// The texts of the strings.
pub open spec fn texts_of(strings: Seq<String>) -> Seq<Seq<char>> {
    Seq::new(strings.len(), |i: int| strings[i]@)
}

/// Splits a query into its terms.
pub fn split_terms(query: &str) -> (terms: Vec<String>)
    ensures
        texts_of(terms@) == terms_of(query@),
{
    let chars = chars_of(query);
    let mut terms: Vec<String> = Vec::new();
    let mut start: usize = 0;
    let mut i: usize = 0;
    assert(chars@.skip(0) =~= chars@);
    assert(chars@.subrange(0, 0) =~= Seq::<char>::empty());
    assert(texts_of(terms@) =~= Seq::<Seq<char>>::empty());
    while i < chars.len()
        invariant
            start <= i <= chars@.len(),
            chars@ == query@,
            terms_of(query@) == texts_of(terms@) + terms_after(
                chars@.subrange(start as int, i as int),
                chars@.skip(i as int),
            ),
        decreases chars@.len() - i,
    {
        let ghost word = chars@.subrange(start as int, i as int);
        let ghost rest = chars@.skip(i as int);
        let ghost before = texts_of(terms@);
        assert(rest.drop_first() =~= chars@.skip(i + 1));
        assert(rest[0] == chars@[i as int]);
        if separates(chars[i]) {
            if start < i {
                let term = string_of(&chars, start, i);
                terms.push(term);
                assert(texts_of(terms@) =~= before + closed_word(word));
            } else {
                assert(closed_word(word) =~= Seq::<Seq<char>>::empty());
                assert(before + closed_word(word) =~= before);
            }
            start = i + 1;
            assert(chars@.subrange(start as int, i + 1) =~= Seq::<char>::empty());
            assert(before + (closed_word(word) + terms_after(Seq::empty(), rest.drop_first()))
                =~= (before + closed_word(word)) + terms_after(Seq::empty(), rest.drop_first()));
        } else {
            assert(chars@.subrange(start as int, i + 1) =~= word.push(chars@[i as int]));
        }
        i += 1;
    }
    let ghost word = chars@.subrange(start as int, i as int);
    let ghost before = texts_of(terms@);
    assert(chars@.skip(i as int).len() == 0);
    if start < i {
        let term = string_of(&chars, start, i);
        terms.push(term);
        assert(texts_of(terms@) =~= before + closed_word(word));
    } else {
        assert(before + closed_word(word) =~= before);
    }
    terms
}

/// Puts the terms together with `separator` between one and the next.
pub fn join_terms(terms: &Vec<String>, separator: &str) -> (text: String)
    ensures
        text@ == joined(texts_of(terms@), separator@),
{
    let mut text = String::new();
    let mut i: usize = 0;
    assert(texts_of(terms@).take(0) =~= Seq::<Seq<char>>::empty());
    while i < terms.len()
        invariant
            i <= terms@.len(),
            text@ == joined(texts_of(terms@).take(i as int), separator@),
        decreases terms@.len() - i,
    {
        let ghost done = texts_of(terms@).take(i as int);
        let ghost next = texts_of(terms@).take(i + 1);
        assert(next.drop_last() =~= done);
        assert(next.last() == terms@[i as int]@);
        if i > 0 {
            text.append(separator);
        } else {
            assert(text@ + terms@[i as int]@ =~= terms@[i as int]@);
        }
        text.append(terms[i].as_str());
        i += 1;
    }
    assert(texts_of(terms@).take(i as int) =~= texts_of(terms@));
    text
}

/// The lists found for the terms of a query, each as a sequence.
pub open spec fn lists_of(matches: Seq<Vec<PostSummary>>) -> Seq<Seq<PostSummary>> {
    Seq::new(matches.len(), |i: int| matches[i]@)
}

/// One of the lists holds a post with the key `slag`.
pub open spec fn found_in(lists: Seq<Seq<PostSummary>>, slag: Seq<char>) -> bool {
    exists|i: int, j: int|
        0 <= i < lists.len() && 0 <= j < lists[i].len() && (#[trigger] lists[i][j]).slag@ == slag
}

/// What a search returns for the lists found term by term: the posts found
/// for the first term, in the order in which they were found, without those
/// whose key was also found for a later term. Without terms there is nothing.
pub open spec fn combined(lists: Seq<Seq<PostSummary>>) -> Seq<PostSummary> {
    if lists.len() == 0 {
        Seq::empty()
    } else {
        lists[0].filter(|candidate: PostSummary| !found_in(lists.skip(1), candidate.slag@))
    }
}

/// Whether one of the lists holds a post with the key `slag`.
fn is_found_in(lists: &Vec<Vec<PostSummary>>, slag: &str) -> (found: bool)
    ensures
        found == found_in(lists_of(lists@), slag@),
{
    let mut i: usize = 0;
    while i < lists.len()
        invariant
            i <= lists@.len(),
            forall|a: int, b: int|
                0 <= a < i && 0 <= b < lists@[a]@.len() ==> (#[trigger] lists_of(lists@)[a][b]).slag@
                    != slag@,
        decreases lists@.len() - i,
    {
        let list = &lists[i];
        let mut j: usize = 0;
        while j < list.len()
            invariant
                i < lists@.len(),
                list == &lists@[i as int],
                j <= list@.len(),
                forall|b: int| 0 <= b < j ==> (#[trigger] list@[b]).slag@ != slag@,
            decreases list@.len() - j,
        {
            if same_text(list[j].slag.as_str(), slag) {
                assert(lists_of(lists@)[i as int][j as int].slag@ == slag@);
                return true;
            }
            j += 1;
        }
        assert forall|a: int, b: int| 0 <= a < i + 1 && 0 <= b < lists@[a]@.len() implies (
        #[trigger] lists_of(lists@)[a][b]).slag@ != slag@ by {
            if a == i {
                assert(list@[b].slag@ != slag@);
            }
        }
        i += 1;
    }
    false
}

/// Combines the lists that the store found for the terms of a query, in the
/// order of the terms. A post that was found for the first term and again
/// for a later one is left out, not confirmed.
pub fn combine_matches(matches: Vec<Vec<PostSummary>>) -> (candidates: Vec<PostSummary>)
    ensures
        candidates@ == combined(lists_of(matches@)),
{
    let ghost lists = lists_of(matches@);
    let mut later = matches;
    if later.len() == 0 {
        return Vec::new();
    }
    let first = later.remove(0);
    assert(lists_of(later@) =~= lists.skip(1));
    let ghost keep = |candidate: PostSummary| !found_in(lists.skip(1), candidate.slag@);
    let mut candidates: Vec<PostSummary> = Vec::new();
    assert(first@.take(0).filter(keep) =~= Seq::<PostSummary>::empty()) by {
        reveal(Seq::filter);
    }
    for candidate in it: first
        invariant
            it.seq() == lists[0],
            lists_of(later@) == lists.skip(1),
            keep == |candidate: PostSummary| !found_in(lists.skip(1), candidate.slag@),
            candidates@ == it.seq().take(it.index() as int).filter(keep),
    {
        proof {
            reveal(Seq::filter);
            let done = it.seq().take(it.index() as int);
            let next = it.seq().take(it.index() + 1);
            assert(next.drop_last() =~= done);
            assert(next.last() == candidate);
        }
        if !is_found_in(&later, candidate.slag.as_str()) {
            candidates.push(candidate);
        }
    }
    assert(lists[0].take(lists[0].len() as int) =~= lists[0]);
    candidates
}

} // verus!
