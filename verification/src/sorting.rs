//! Stable sorting by an integer key.

use vstd::multiset::*;
use vstd::prelude::*;
use vstd::seq_lib::*;

verus! {

/// A value that is ordered by an integer key.
pub trait Keyed {
    spec fn key(&self) -> int;
}

/// Where a value with key `k` goes in a sorted sequence: behind everything
/// with a key of at most `k`.
pub open spec fn insert_point<T: Keyed>(s: Seq<T>, k: int) -> int
    decreases s.len(),
{
    if s.len() == 0 {
        0
    } else if s.last().key() <= k {
        s.len() as int
    } else {
        insert_point(s.drop_last(), k)
    }
}

/// `x` put into its place.
pub open spec fn stable_insert<T: Keyed>(s: Seq<T>, x: T) -> Seq<T> {
    s.insert(insert_point(s, x.key()), x)
}

/// `s` sorted by key; values with equal keys keep their order.
pub open spec fn stable_sort<T: Keyed>(s: Seq<T>) -> Seq<T>
    decreases s.len(),
{
    if s.len() == 0 {
        s
    } else {
        stable_insert(stable_sort(s.drop_last()), s.last())
    }
}

/// Keys never fall.
pub open spec fn sorted<T: Keyed>(s: Seq<T>) -> bool {
    forall|i: int, j: int| 0 <= i <= j < s.len() ==> s[i].key() <= s[j].key()
}

pub proof fn lemma_insert_point<T: Keyed>(s: Seq<T>, k: int)
    ensures
        0 <= insert_point(s, k) <= s.len(),
        forall|i: int| insert_point(s, k) <= i < s.len() ==> k < #[trigger] s[i].key(),
        insert_point(s, k) > 0 ==> s[insert_point(s, k) - 1].key() <= k,
    decreases s.len(),
{
    if s.len() > 0 && s.last().key() > k {
        lemma_insert_point(s.drop_last(), k);
        let p = insert_point(s, k);
        assert forall|i: int| p <= i < s.len() implies k < #[trigger] s[i].key() by {
            if i < s.len() - 1 {
                assert(s.drop_last()[i] == s[i]);
            }
        }
    }
}

/// The insert point is the one position with larger keys behind it and none
/// before it.
pub proof fn lemma_insert_point_is<T: Keyed>(s: Seq<T>, k: int, p: int)
    requires
        0 <= p <= s.len(),
        forall|i: int| p <= i < s.len() ==> k < #[trigger] s[i].key(),
        p > 0 ==> s[p - 1].key() <= k,
    ensures
        insert_point(s, k) == p,
    decreases s.len(),
{
    if s.len() > 0 && p < s.len() {
        assert(s[s.len() - 1].key() > k);
        assert forall|i: int| p <= i < s.drop_last().len() implies k < #[trigger] s.drop_last()[i]
            .key() by {
            assert(s[i].key() > k);
        }
        lemma_insert_point_is(s.drop_last(), k, p);
    }
}

/// Sorting gives a sequence in key order with the same values.
pub proof fn stable_sort_sorts<T: Keyed>(s: Seq<T>)
    ensures
        sorted(stable_sort(s)),
        stable_sort(s).len() == s.len(),
        stable_sort(s).to_multiset() == s.to_multiset(),
    decreases s.len(),
{
    if s.len() > 0 {
        let d = s.drop_last();
        let x = s.last();
        stable_sort_sorts(d);
        let t = stable_sort(d);
        let p = insert_point(t, x.key());
        lemma_insert_point(t, x.key());
        let r = t.insert(p, x);
        assert forall|i: int, j: int| 0 <= i <= j < r.len() implies r[i].key() <= r[j].key() by {
            if p > 0 && i < p {
                assert(t[i].key() <= t[p - 1].key());
            }
        }
        assert(s =~= d.push(x));
        r.to_multiset_ensures();
        d.to_multiset_ensures();
        assert(r.remove(p) =~= t);
        assert(r[p] == x);
        assert(r.contains(x));
        assert(r.to_multiset() =~= t.to_multiset().insert(x));
    }
}

/// A sequence already in key order is left as it is.
pub proof fn stable_sort_fixpoint<T: Keyed>(s: Seq<T>)
    requires
        sorted(s),
    ensures
        stable_sort(s) == s,
    decreases s.len(),
{
    if s.len() > 0 {
        let d = s.drop_last();
        assert(sorted(d)) by {
            assert forall|i: int, j: int| 0 <= i <= j < d.len() implies d[i].key() <= d[j].key() by {
                assert(s[i].key() <= s[j].key());
            }
        }
        stable_sort_fixpoint(d);
        if d.len() > 0 {
            assert(s[d.len() - 1].key() <= s[d.len() as int].key());
        }
        assert(d.insert(d.len() as int, s.last()) =~= s);
    }
}

/// Where no value has the key, none is left of it.
pub proof fn lemma_none_kept<T: Keyed>(s: Seq<T>, k: int)
    requires
        forall|i: int| 0 <= i < s.len() ==> (#[trigger] s[i]).key() != k,
    ensures
        s.filter(|x: T| x.key() == k) == Seq::<T>::empty(),
    decreases s.len(),
{
    reveal(Seq::filter);
    if s.len() > 0 {
        assert(s[s.len() - 1].key() != k);
        assert forall|i: int| 0 <= i < s.drop_last().len() implies (
        #[trigger] s.drop_last()[i]).key() != k by {
            assert(s[i].key() != k);
        }
        lemma_none_kept(s.drop_last(), k);
    }
}

/// Sorting keeps the order of the values that have one key.
pub proof fn stable_sort_keeps_equals_in_order<T: Keyed>(s: Seq<T>, k: int)
    ensures
        stable_sort(s).filter(|x: T| x.key() == k) == s.filter(|x: T| x.key() == k),
    decreases s.len(),
{
    let f = |x: T| x.key() == k;
    if s.len() > 0 {
        let d = s.drop_last();
        let x = s.last();
        stable_sort_keeps_equals_in_order(d, k);
        let t = stable_sort(d);
        let p = insert_point(t, x.key());
        lemma_insert_point(t, x.key());
        let a = t.take(p);
        let b = t.skip(p);
        assert(t =~= a + b);
        assert(stable_sort(s) =~= a + seq![x] + b);
        assert(s =~= d + seq![x]);
        Seq::filter_distributes_over_add(a, b, f);
        Seq::filter_distributes_over_add(a + seq![x], b, f);
        Seq::filter_distributes_over_add(a, seq![x], f);
        Seq::filter_distributes_over_add(d, seq![x], f);
        if x.key() == k {
            assert forall|i: int| 0 <= i < b.len() implies (#[trigger] b[i]).key() != k by {
                assert(t[p + i].key() > x.key());
            }
            lemma_none_kept(b, k);
            assert(stable_sort(s).filter(f) =~= s.filter(f));
        } else {
            assert forall|i: int| 0 <= i < seq![x].len() implies (
            #[trigger] seq![x][i]).key() != k by {}
            lemma_none_kept(seq![x], k);
            assert(stable_sort(s).filter(f) =~= s.filter(f));
        }
    }
}

} // verus!
