//! Stable sorting.
//!
//! [`sorted_by`] says what a stable sort of a sequence is: the elements are
//! taken in turn, and each goes behind every element it does not precede.
//! [`order_of`] computes it for positions, by binary insertion.

use vstd::prelude::*;

verus! {

/// `s` with `x` put behind its last element that `le` places at or before `x`.
pub open spec fn insert_by<T>(s: Seq<T>, x: T, le: spec_fn(T, T) -> bool) -> Seq<T>
    decreases s.len(),
{
    if s.len() == 0 || le(s.last(), x) {
        s.push(x)
    } else {
        insert_by(s.drop_last(), x, le).push(s.last())
    }
}

/// `s` sorted by `le`, elements that `le` does not tell apart in their order.
pub open spec fn sorted_by<T>(s: Seq<T>, le: spec_fn(T, T) -> bool) -> Seq<T>
    decreases s.len(),
{
    if s.len() == 0 {
        Seq::empty()
    } else {
        insert_by(sorted_by(s.drop_last(), le), s.last(), le)
    }
}

/// `le` compares any two values and is transitive.
pub open spec fn is_preorder<T>(le: spec_fn(T, T) -> bool) -> bool {
    &&& forall|a: T, b: T| #[trigger] le(a, b) || le(b, a)
    &&& forall|a: T, b: T, c: T| #[trigger] le(a, b) && #[trigger] le(b, c) ==> le(a, c)
}

/// Each element is at or before every later one.
pub open spec fn ascending<T>(s: Seq<T>, le: spec_fn(T, T) -> bool) -> bool {
    forall|i: int, j: int| 0 <= i < j < s.len() ==> le(#[trigger] s[i], #[trigger] s[j])
}

/// The positions of a sequence of length `n`.
pub open spec fn positions(n: nat) -> Seq<int> {
    Seq::new(n, |i: int| i)
}

proof fn lemma_insert_by<T>(s: Seq<T>, x: T, le: spec_fn(T, T) -> bool)
    requires
        is_preorder(le),
        ascending(s, le),
    ensures
        insert_by(s, x, le).len() == s.len() + 1,
        ascending(insert_by(s, x, le), le),
        insert_by(s, x, le).to_multiset() == s.to_multiset().insert(x),
    decreases s.len(),
{
    broadcast use vstd::seq_lib::group_to_multiset_ensures;
    if s.len() == 0 || le(s.last(), x) {
        assert forall|i: int| 0 <= i < s.len() implies le(#[trigger] s[i], x) by {
            if i < s.len() - 1 {
                assert(le(s[i], s[s.len() - 1]));
            }
        }
    } else {
        let front = s.drop_last();
        lemma_insert_by(front, x, le);
        let r = insert_by(front, x, le);
        assert(s =~= front.push(s.last()));
        assert forall|i: int| 0 <= i < r.len() implies le(#[trigger] r[i], s.last()) by {
            assert(r.to_multiset().count(r[i]) > 0);
            if r[i] != x {
                assert(front.to_multiset().count(r[i]) > 0);
                assert(front.contains(r[i]));
            }
        }
        assert(insert_by(s, x, le).to_multiset() =~= s.to_multiset().insert(x));
    }
}

/// Sorting keeps the elements and puts them in order.
pub proof fn lemma_sorted_by<T>(s: Seq<T>, le: spec_fn(T, T) -> bool)
    requires
        is_preorder(le),
    ensures
        sorted_by(s, le).len() == s.len(),
        ascending(sorted_by(s, le), le),
        sorted_by(s, le).to_multiset() == s.to_multiset(),
    decreases s.len(),
{
    broadcast use vstd::seq_lib::group_to_multiset_ensures;
    if s.len() > 0 {
        lemma_sorted_by(s.drop_last(), le);
        lemma_insert_by(sorted_by(s.drop_last(), le), s.last(), le);
        assert(s =~= s.drop_last().push(s.last()));
    }
}

/// An element is in the sorted sequence exactly where it was in the other.
pub proof fn lemma_sorted_members<T>(s: Seq<T>, le: spec_fn(T, T) -> bool, x: T)
    requires
        is_preorder(le),
    ensures
        sorted_by(s, le).contains(x) <==> s.contains(x),
{
    broadcast use vstd::seq_lib::group_to_multiset_ensures;
    lemma_sorted_by(s, le);
    assert(s.contains(x) <==> s.to_multiset().count(x) > 0);
    assert(sorted_by(s, le).contains(x) <==> sorted_by(s, le).to_multiset().count(x) > 0);
}

/// Sorting by what `f` makes of the elements is sorting what `f` makes of them.
pub proof fn lemma_sorted_map<T, U>(
    s: Seq<T>,
    f: spec_fn(T) -> U,
    le: spec_fn(U, U) -> bool,
    lf: spec_fn(T, T) -> bool,
)
    requires
        forall|a: T, b: T| #[trigger] lf(a, b) == le(f(a), f(b)),
    ensures
        sorted_by(s.map_values(f), le) == sorted_by(s, lf).map_values(f),
    decreases s.len(),
{
    let m = s.map_values(f);
    if s.len() == 0 {
        assert(sorted_by(m, le) =~= sorted_by(s, lf).map_values(f));
    } else {
        lemma_sorted_map(s.drop_last(), f, le, lf);
        assert(m.drop_last() =~= s.drop_last().map_values(f));
        lemma_insert_map(sorted_by(s.drop_last(), lf), s.last(), f, le, lf);
    }
}

proof fn lemma_insert_map<T, U>(
    s: Seq<T>,
    x: T,
    f: spec_fn(T) -> U,
    le: spec_fn(U, U) -> bool,
    lf: spec_fn(T, T) -> bool,
)
    requires
        forall|a: T, b: T| #[trigger] lf(a, b) == le(f(a), f(b)),
    ensures
        insert_by(s.map_values(f), f(x), le) == insert_by(s, x, lf).map_values(f),
    decreases s.len(),
{
    let m = s.map_values(f);
    if s.len() == 0 || lf(s.last(), x) {
        assert(m.push(f(x)) =~= s.push(x).map_values(f));
    } else {
        lemma_insert_map(s.drop_last(), x, f, le, lf);
        assert(m.drop_last() =~= s.drop_last().map_values(f));
        assert(insert_by(m, f(x), le) =~= insert_by(s, x, lf).map_values(f));
    }
}

/// Where `x` goes into an ordered sequence.
pub proof fn lemma_insert_at<T>(s: Seq<T>, x: T, le: spec_fn(T, T) -> bool, k: int)
    requires
        0 <= k <= s.len(),
        forall|i: int| 0 <= i < k ==> le(#[trigger] s[i], x),
        forall|i: int| k <= i < s.len() ==> !le(#[trigger] s[i], x),
    ensures
        insert_by(s, x, le) == s.insert(k, x),
    decreases s.len(),
{
    if s.len() == 0 || le(s.last(), x) {
        assert(k == s.len());
        assert(s.push(x) =~= s.insert(k, x));
    } else {
        let front = s.drop_last();
        lemma_insert_at(front, x, le, k);
        assert(front.insert(k, x).push(s.last()) =~= s.insert(k, x));
    }
}

/// Two ordered sequences of the same elements are the same, where the order
/// tells the elements apart.
pub proof fn lemma_ascending_unique<T>(s: Seq<T>, t: Seq<T>, le: spec_fn(T, T) -> bool)
    requires
        ascending(s, le),
        ascending(t, le),
        s.to_multiset() == t.to_multiset(),
        forall|a: T, b: T|
            s.contains(a) && s.contains(b) && #[trigger] le(a, b) && #[trigger] le(b, a) ==> a
                == b,
    ensures
        s == t,
    decreases s.len(),
{
    broadcast use vstd::seq_lib::group_to_multiset_ensures;

    assert(s.to_multiset().len() == s.len());
    assert(t.to_multiset().len() == t.len());
    if s.len() == 0 {
        assert(s =~= t);
    } else {
        let a = s.last();
        let b = t.last();
        let n = s.len() - 1;
        assert(s[n] == a && t[n] == b);
        assert(s.to_multiset().count(a) > 0);
        assert(t.to_multiset().count(b) > 0);
        assert(t.contains(a));
        assert(s.contains(b));
        if a != b {
            let j = choose|j: int| 0 <= j < t.len() && t[j] == a;
            let i = choose|i: int| 0 <= i < s.len() && s[i] == b;
            assert(le(t[j], t[n]));
            assert(le(s[i], s[n]));
            assert(s.contains(a));
            assert(false);
        }
        let fs = s.drop_last();
        let ft = t.drop_last();
        assert(s =~= fs.push(a));
        assert(t =~= ft.push(b));
        assert(fs.to_multiset() =~= s.to_multiset().remove(a));
        assert(ft.to_multiset() =~= t.to_multiset().remove(b));
        assert forall|x: T| fs.contains(x) implies s.contains(x) by {
            let k = choose|k: int| 0 <= k < fs.len() && fs[k] == x;
            assert(s[k] == x);
        }
        lemma_ascending_unique(fs, ft, le);
    }
}

/// Sorting does not depend on the order in which the elements came, where it
/// tells them apart.
pub proof fn sorting_forgets_the_order<T>(s: Seq<T>, t: Seq<T>, le: spec_fn(T, T) -> bool)
    requires
        is_preorder(le),
        s.to_multiset() == t.to_multiset(),
        forall|a: T, b: T|
            s.contains(a) && s.contains(b) && #[trigger] le(a, b) && #[trigger] le(b, a) ==> a
                == b,
    ensures
        sorted_by(s, le) == sorted_by(t, le),
{
    lemma_sorted_by(s, le);
    lemma_sorted_by(t, le);
    assert forall|a: T, b: T|
        sorted_by(s, le).contains(a) && sorted_by(s, le).contains(b) && #[trigger] le(a, b)
            && #[trigger] le(b, a) implies a == b by {
        lemma_sorted_members(s, le, a);
        lemma_sorted_members(s, le, b);
    }
    lemma_ascending_unique(sorted_by(s, le), sorted_by(t, le), le);
}

/// Sorting leaves a sequence that is in order as it is.
pub proof fn lemma_sorted_stays<T>(s: Seq<T>, le: spec_fn(T, T) -> bool)
    requires
        ascending(s, le),
    ensures
        sorted_by(s, le) == s,
    decreases s.len(),
{
    if s.len() > 0 {
        let front = s.drop_last();
        lemma_sorted_stays(front, le);
        if front.len() > 0 {
            assert(le(s[s.len() - 2], s[s.len() - 1]));
        }
        assert(front.push(s.last()) =~= s);
    } else {
        assert(sorted_by(s, le) =~= s);
    }
}

/// The values of a sequence of machine positions.
pub open spec fn ints(v: Seq<usize>) -> Seq<int> {
    v.map_values(|i: usize| i as int)
}

/// The positions `0..n` sorted by `rel`, which `le` decides.
pub fn order_of<F: Fn(usize, usize) -> bool>(
    n: usize,
    le: F,
    Ghost(rel): Ghost<spec_fn(int, int) -> bool>,
) -> (order: Vec<usize>)
    requires
        is_preorder(rel),
        forall|i: usize, j: usize| i < n && j < n ==> #[trigger] le.requires((i, j)),
        forall|i: usize, j: usize, r: bool| #[trigger]
            le.ensures((i, j), r) && i < n && j < n ==> r == rel(i as int, j as int),
    ensures
        ints(order@) == sorted_by(positions(n as nat), rel),
        order@.len() == n,
        forall|k: int| 0 <= k < n ==> #[trigger] order@[k] < n,
{
    let mut order: Vec<usize> = Vec::new();
    let mut i: usize = 0;
    proof {
        assert(ints(order@) =~= sorted_by(positions(0), rel));
    }
    while i < n
        invariant
            i <= n,
            is_preorder(rel),
            forall|i: usize, j: usize| i < n && j < n ==> #[trigger] le.requires((i, j)),
            forall|i: usize, j: usize, r: bool| #[trigger]
                le.ensures((i, j), r) && i < n && j < n ==> r == rel(i as int, j as int),
            order@.len() == i,
            ints(order@) == sorted_by(positions(i as nat), rel),
            forall|k: int| 0 <= k < order@.len() ==> #[trigger] order@[k] < n,
        decreases n - i,
    {
        let ghost s = ints(order@);
        proof {
            lemma_sorted_by(positions(i as nat), rel);
        }
        let mut lo: usize = 0;
        let mut hi: usize = order.len();
        while lo < hi
            invariant
                lo <= hi <= order@.len(),
                i < n,
                is_preorder(rel),
                forall|i: usize, j: usize| i < n && j < n ==> #[trigger] le.requires((i, j)),
                forall|i: usize, j: usize, r: bool| #[trigger]
                    le.ensures((i, j), r) && i < n && j < n ==> r == rel(i as int, j as int),
                s == ints(order@),
                ascending(s, rel),
                forall|k: int| 0 <= k < order@.len() ==> #[trigger] order@[k] < n,
                forall|k: int| 0 <= k < lo ==> rel(#[trigger] s[k], i as int),
                forall|k: int| hi <= k < s.len() ==> !rel(#[trigger] s[k], i as int),
            decreases hi - lo,
        {
            let mid: usize = lo + (hi - lo) / 2;
            let before = le(order[mid], i);
            assert(s[mid as int] == order@[mid as int]);
            if before {
                assert forall|k: int| 0 <= k < mid + 1 implies rel(#[trigger] s[k], i as int) by {
                    if k < mid {
                        assert(rel(s[k], s[mid as int]));
                    }
                }
                lo = mid + 1;
            } else {
                assert forall|k: int| mid <= k < s.len() implies !rel(
                    #[trigger] s[k],
                    i as int,
                ) by {
                    if mid < k {
                        assert(rel(s[mid as int], s[k]));
                    }
                }
                hi = mid;
            }
        }
        proof {
            lemma_insert_at(s, i as int, rel, lo as int);
            assert(positions((i + 1) as nat).drop_last() =~= positions(i as nat));
        }
        order.insert(lo, i);
        proof {
            assert(ints(order@) =~= s.insert(lo as int, i as int));
        }
        i = i + 1;
    }
    order
}

} // verus!
