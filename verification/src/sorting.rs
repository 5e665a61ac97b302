//! Stable sorting of listings by a string rank.

use crate::order::{lemma_str_lt_strict_total, str_less, str_lt};
use vstd::prelude::*;
use vstd::seq_lib::*;

verus! {

/// An item that a listing orders by a string.
pub trait Ranked {
    /// The string the item is ordered by.
    spec fn rank(&self) -> Seq<char>;

    fn rank_str(&self) -> (s: &str)
        ensures
            s@ == self.rank(),
    ;
}

/// In a listing sorted in the given direction, an item ranked `a` has to stand
/// before one ranked `b`.
pub open spec fn ranks_before(a: Seq<char>, b: Seq<char>, descending: bool) -> bool {
    if descending {
        str_lt(b, a)
    } else {
        str_lt(a, b)
    }
}

/// No item stands behind one that it has to stand before.
pub open spec fn is_sorted<T: Ranked>(s: Seq<T>, descending: bool) -> bool {
    forall|i: int, j: int|
        0 <= i < j < s.len() ==> !ranks_before(#[trigger] s[j].rank(), #[trigger] s[i].rank(), descending)
}

/// The test whether an item is ranked exactly `k`.
pub open spec fn rank_is<T: Ranked>(k: Seq<char>) -> spec_fn(T) -> bool {
    |x: T| x.rank() == k
}

/// The items of `s` ranked exactly `k`, in the order in which they stand.
pub open spec fn with_rank<T: Ranked>(s: Seq<T>, k: Seq<char>) -> Seq<T> {
    s.filter(rank_is(k))
}

/// `r` is `s` sorted stably: `r` is sorted, and for every rank the items of
/// that rank are the same in both and stand in the same order.
pub open spec fn is_stable_sort_of<T: Ranked>(r: Seq<T>, s: Seq<T>, descending: bool) -> bool {
    &&& is_sorted(r, descending)
    &&& forall|k: Seq<char>| #[trigger] with_rank(r, k) == with_rank(s, k)
}

proof fn lemma_with_rank_none<T: Ranked>(s: Seq<T>, k: Seq<char>)
    requires
        forall|i: int| 0 <= i < s.len() ==> (#[trigger] s[i]).rank() != k,
    ensures
        with_rank(s, k) == Seq::<T>::empty(),
    decreases s.len(),
{
    reveal(Seq::filter);
    if s.len() > 0 {
        lemma_with_rank_none(s.drop_last(), k);
    }
}

proof fn lemma_with_rank_one<T: Ranked>(x: T, k: Seq<char>)
    ensures
        with_rank(seq![x], k) == if x.rank() == k {
            seq![x]
        } else {
            Seq::<T>::empty()
        },
{
    reveal(Seq::filter);
    let s = seq![x];
    assert(s.drop_last() =~= Seq::<T>::empty());
    assert(with_rank(s.drop_last(), k) =~= Seq::<T>::empty());
    assert(s.last() == x);
    if x.rank() == k {
        assert(with_rank(s, k) =~= seq![x]);
    }
}

/// Putting `x` into a sorted listing behind the last item that it does not
/// have to stand before keeps the listing sorted and, rank by rank, appends
/// `x` to the items of its rank.
proof fn lemma_insert_keeps_order<T: Ranked>(s: Seq<T>, x: T, j: int, descending: bool)
    requires
        is_sorted(s, descending),
        0 <= j <= s.len(),
        j > 0 ==> !ranks_before(x.rank(), s[j - 1].rank(), descending),
        forall|m: int| j <= m < s.len() ==> ranks_before(x.rank(), (#[trigger] s[m]).rank(), descending),
    ensures
        is_sorted(s.insert(j, x), descending),
        forall|k: Seq<char>| #[trigger]
            with_rank(s.insert(j, x), k) == with_rank(s.push(x), k),
{
    let r = s.insert(j, x);
    assert forall|a: int, b: int| 0 <= a < b < r.len() implies !ranks_before(
        #[trigger] r[b].rank(),
        #[trigger] r[a].rank(),
        descending,
    ) by {
        if b == j {
            // r[a] stands in front of the place of x
            lemma_str_lt_strict_total(x.rank(), s[j - 1].rank(), s[a].rank());
            lemma_str_lt_strict_total(s[a].rank(), s[j - 1].rank(), x.rank());
            if a < j - 1 {
                assert(!ranks_before(s[j - 1].rank(), s[a].rank(), descending));
            }
        } else if a == j {
            lemma_str_lt_strict_total(x.rank(), s[b - 1].rank(), x.rank());
            assert(ranks_before(x.rank(), s[b - 1].rank(), descending));
        } else {
            let a0 = if a < j { a } else { a - 1 };
            let b0 = if b < j { b } else { b - 1 };
            assert(!ranks_before(s[b0].rank(), s[a0].rank(), descending));
        }
    }
    assert forall|k: Seq<char>| #[trigger]
        with_rank(s.insert(j, x), k) == with_rank(s.push(x), k) by {
        let pred = rank_is::<T>(k);
        let front = s.take(j);
        let back = s.skip(j);
        assert(r =~= front + seq![x] + back);
        assert(s.push(x) =~= front + back + seq![x]);
        Seq::filter_distributes_over_add(front, seq![x], pred);
        Seq::filter_distributes_over_add(front + seq![x], back, pred);
        Seq::filter_distributes_over_add(front, back, pred);
        Seq::filter_distributes_over_add(front + back, seq![x], pred);
        lemma_with_rank_one(x, k);
        if x.rank() == k {
            assert forall|i: int| 0 <= i < back.len() implies (#[trigger] back[i]).rank() != k by {
                assert(ranks_before(x.rank(), s[j + i].rank(), descending));
                lemma_str_lt_strict_total(x.rank(), x.rank(), x.rank());
            }
            lemma_with_rank_none(back, k);
            assert(with_rank(r, k) =~= with_rank(s.push(x), k));
        } else {
            assert(with_rank(r, k) =~= with_rank(s.push(x), k));
        }
    }
}

/// Whether `a` has to stand before `b` in the given direction.
fn must_precede<T: Ranked>(a: &T, b: &T, descending: bool) -> (result: bool)
    ensures
        result == ranks_before(a.rank(), b.rank(), descending),
{
    if descending {
        str_less(b.rank_str(), a.rank_str())
    } else {
        str_less(a.rank_str(), b.rank_str())
    }
}

/// Sorts `items` by rank, ascending or descending, keeping items of equal
/// rank in the order in which they came.
pub fn sort_stable<T: Ranked>(items: &mut Vec<T>, descending: bool)
    ensures
        is_stable_sort_of(final(items)@, old(items)@, descending),
        final(items)@.len() == old(items)@.len(),
        final(items)@.to_multiset() == old(items)@.to_multiset(),
{
    let n = items.len();
    let mut i: usize = 0;
    assert(items@.take(0) =~= old(items)@.take(0));
    while i < n
        invariant
            i <= n,
            n == items@.len(),
            n == old(items)@.len(),
            is_sorted(items@.take(i as int), descending),
            items@.skip(i as int) == old(items)@.skip(i as int),
            forall|k: Seq<char>| #[trigger]
                with_rank(items@.take(i as int), k) == with_rank(old(items)@.take(i as int), k),
            items@.to_multiset() == old(items)@.to_multiset(),
        decreases n - i,
    {
        let ghost before = items@;
        let x = items.remove(i);
        let mut j: usize = i;
        while j > 0 && must_precede(&x, &items[j - 1], descending)
            invariant
                j <= i,
                i < n,
                items@ == before.remove(i as int),
                before.len() == n,
                forall|m: int|
                    j <= m < i ==> ranks_before(x.rank(), (#[trigger] items@[m]).rank(), descending),
            decreases j,
        {
            j -= 1;
        }
        items.insert(j, x);
        proof {
            let sorted = before.take(i as int);
            assert(before.remove(i as int).take(i as int) =~= sorted);
            assert(x == before[i as int]);
            assert(before[i as int] == before.skip(i as int)[0]);
            assert(x == old(items)@.skip(i as int)[0]);
            lemma_insert_keeps_order(sorted, x, j as int, descending);
            assert(items@.take(i + 1) =~= sorted.insert(j as int, x));
            assert(old(items)@.take(i + 1) =~= old(items)@.take(i as int).push(x));
            assert(items@.skip(i + 1) =~= before.skip(i as int).skip(1));
            assert(old(items)@.skip(i + 1) =~= old(items)@.skip(i as int).skip(1));
            assert forall|k: Seq<char>| #[trigger]
                with_rank(items@.take(i + 1), k) == with_rank(old(items)@.take(i + 1), k) by {
                let pred = rank_is::<T>(k);
                Seq::filter_distributes_over_add(sorted, seq![x], pred);
                Seq::filter_distributes_over_add(old(items)@.take(i as int), seq![x], pred);
                assert(sorted.push(x) =~= sorted + seq![x]);
                assert(old(items)@.take(i as int).push(x) =~= old(items)@.take(i as int) + seq![x]);
                assert(with_rank(sorted, k) == with_rank(old(items)@.take(i as int), k));
            }
            to_multiset_remove(before, i as int);
            to_multiset_insert(before.remove(i as int), j as int, x);
            assert(before.to_multiset().remove(x).insert(x) =~= before.to_multiset()) by {
                before.to_multiset_ensures();
                assert(before.contains(x));
            }
        }
        i += 1;
    }
    assert(items@.take(n as int) =~= items@);
    assert(old(items)@.take(n as int) =~= old(items)@);
}

/// A rearrangement holds exactly the items of what it rearranges, and none
/// of them twice unless it was there twice.
pub proof fn lemma_rearranged<T>(r: Seq<T>, s: Seq<T>)
    requires
        r.to_multiset() == s.to_multiset(),
    ensures
        forall|x: T| r.contains(x) <==> s.contains(x),
        s.no_duplicates() ==> r.no_duplicates(),
{
    r.to_multiset_ensures();
    s.to_multiset_ensures();
    assert forall|x: T| r.contains(x) <==> s.contains(x) by {
        assert(r.contains(x) <==> r.to_multiset().count(x) > 0);
        assert(s.contains(x) <==> s.to_multiset().count(x) > 0);
    }
    if s.no_duplicates() {
        s.lemma_multiset_has_no_duplicates();
        r.lemma_multiset_has_no_duplicates_conv();
    }
}

/// Where some item of a listing has the rank `k`, there is an offset at
/// which such an item stands.
proof fn lemma_rank_occurs<T: Ranked>(s: Seq<T>, k: Seq<char>)
    requires
        with_rank(s, k).len() > 0,
    ensures
        exists|i: int| 0 <= i < s.len() && (#[trigger] s[i]).rank() == k,
{
    let pred = rank_is::<T>(k);
    let first = s.filter(pred)[0];
    s.lemma_filter_pred(pred, 0);
    assert(s.filter(pred).contains(first));
    s.lemma_filter_contains_rev(pred, first);
    let i = choose|i: int| 0 <= i < s.len() && s[i] == first;
    assert(s[i].rank() == k);
}

/// Taking the last item away takes it from the items of its rank and leaves
/// the items of every other rank as they are.
proof fn lemma_with_rank_drop_last<T: Ranked>(s: Seq<T>, k: Seq<char>)
    requires
        s.len() > 0,
    ensures
        s.last().rank() == k ==> with_rank(s, k).len() > 0 && with_rank(s, k).last() == s.last()
            && with_rank(s.drop_last(), k) == with_rank(s, k).drop_last(),
        s.last().rank() != k ==> with_rank(s.drop_last(), k) == with_rank(s, k),
{
    reveal(Seq::filter);
    if s.last().rank() == k {
        assert(with_rank(s, k).drop_last() =~= with_rank(s.drop_last(), k));
    }
}

/// Two sorted listings that hold, rank by rank, the same items in the same
/// order end with an item of the same rank.
proof fn lemma_same_last_rank<T: Ranked>(r1: Seq<T>, r2: Seq<T>, descending: bool)
    requires
        r1.len() > 0,
        r2.len() > 0,
        is_sorted(r1, descending),
        is_sorted(r2, descending),
        forall|k: Seq<char>| #[trigger] with_rank(r1, k) == with_rank(r2, k),
    ensures
        r1.last().rank() == r2.last().rank(),
{
    let k1 = r1.last().rank();
    let k2 = r2.last().rank();
    if k1 != k2 {
        lemma_str_lt_strict_total(k1, k2, k1);
        lemma_with_rank_drop_last(r1, k1);
        lemma_with_rank_drop_last(r2, k2);
        assert(with_rank(r1, k2) == with_rank(r2, k2));
        assert(with_rank(r1, k1) == with_rank(r2, k1));
        lemma_rank_occurs(r1, k2);
        lemma_rank_occurs(r2, k1);
        let i = choose|i: int| 0 <= i < r1.len() && (#[trigger] r1[i]).rank() == k2;
        let j = choose|j: int| 0 <= j < r2.len() && (#[trigger] r2[j]).rank() == k1;
        assert(!ranks_before(r1[r1.len() - 1].rank(), r1[i].rank(), descending));
        assert(!ranks_before(r2[r2.len() - 1].rank(), r2[j].rank(), descending));
    }
}

/// A listing has one stable sort only: whatever is sorted and holds, rank by
/// rank, the items of the listing in their order, is the same sequence.
pub proof fn lemma_stable_sort_unique<T: Ranked>(r1: Seq<T>, r2: Seq<T>, s: Seq<T>, descending: bool)
    requires
        is_stable_sort_of(r1, s, descending),
        is_stable_sort_of(r2, s, descending),
    ensures
        r1 == r2,
    decreases r1.len(),
{
    assert forall|k: Seq<char>| #[trigger] with_rank(r1, k) == with_rank(r2, k) by {
        assert(with_rank(r1, k) == with_rank(s, k));
        assert(with_rank(r2, k) == with_rank(s, k));
    }
    if r1.len() == 0 || r2.len() == 0 {
        if r1.len() > 0 {
            lemma_with_rank_drop_last(r1, r1.last().rank());
            assert(with_rank(r2, r1.last().rank()) =~= Seq::<T>::empty()) by {
                reveal(Seq::filter);
            }
            assert(with_rank(r1, r1.last().rank()) == with_rank(r2, r1.last().rank()));
        }
        if r2.len() > 0 {
            lemma_with_rank_drop_last(r2, r2.last().rank());
            assert(with_rank(r1, r2.last().rank()) =~= Seq::<T>::empty()) by {
                reveal(Seq::filter);
            }
            assert(with_rank(r1, r2.last().rank()) == with_rank(r2, r2.last().rank()));
        }
        assert(r1 =~= r2);
    } else {
        lemma_same_last_rank(r1, r2, descending);
        let last_rank = r1.last().rank();
        lemma_with_rank_drop_last(r1, last_rank);
        lemma_with_rank_drop_last(r2, last_rank);
        assert(with_rank(r1, last_rank) == with_rank(r2, last_rank));
        assert(r1.last() == r2.last());
        let d1 = r1.drop_last();
        let d2 = r2.drop_last();
        assert forall|k: Seq<char>| #[trigger] with_rank(d1, k) == with_rank(d2, k) by {
            lemma_with_rank_drop_last(r1, k);
            lemma_with_rank_drop_last(r2, k);
            assert(with_rank(r1, k) == with_rank(r2, k));
        }
        assert(is_sorted(d1, descending)) by {
            assert forall|i: int, j: int| 0 <= i < j < d1.len() implies !ranks_before(
                #[trigger] d1[j].rank(),
                #[trigger] d1[i].rank(),
                descending,
            ) by {
                assert(!ranks_before(r1[j].rank(), r1[i].rank(), descending));
            }
        }
        assert(is_sorted(d2, descending)) by {
            assert forall|i: int, j: int| 0 <= i < j < d2.len() implies !ranks_before(
                #[trigger] d2[j].rank(),
                #[trigger] d2[i].rank(),
                descending,
            ) by {
                assert(!ranks_before(r2[j].rank(), r2[i].rank(), descending));
            }
        }
        lemma_stable_sort_unique(d1, d2, d1, descending);
        assert(r1 =~= d1.push(r1.last()));
        assert(r2 =~= d2.push(r2.last()));
    }
}

/// Sorting leaves a listing that is sorted already as it is; so items of
/// one rank alone are never rearranged.
pub proof fn lemma_sorted_stays<T: Ranked>(r: Seq<T>, s: Seq<T>, descending: bool)
    requires
        is_sorted(s, descending),
        is_stable_sort_of(r, s, descending),
    ensures
        r == s,
{
    lemma_stable_sort_unique(r, s, s, descending);
}

} // verus!
