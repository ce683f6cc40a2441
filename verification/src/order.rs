//! Stable sorting, as a specification.
//!
//! `stable_sorted` places the elements of a sequence one after the other,
//! each behind the last element that is not above it. The lemmas below say
//! what that amounts to: the result is ordered, it is a rearrangement of the
//! input, and elements that tie keep the order in which they came.

use vstd::prelude::*;
use vstd::relations::{sorted_by, strongly_connected, transitive};
use vstd::seq_lib::*;

verus! {

/// Where `x` goes in `s`: behind the last element that is not above `x`.
pub open spec fn insertion_point<T>(s: Seq<T>, x: T, le: spec_fn(T, T) -> bool) -> int
    decreases s.len(),
{
    if s.len() == 0 {
        0
    } else if le(s.last(), x) {
        s.len() as int
    } else {
        insertion_point(s.drop_last(), x, le)
    }
}

/// The elements of `s` in ascending order of `le`, ties in the order of `s`.
pub open spec fn stable_sorted<T>(s: Seq<T>, le: spec_fn(T, T) -> bool) -> Seq<T>
    decreases s.len(),
{
    if s.len() == 0 {
        Seq::empty()
    } else {
        let front = stable_sorted(s.drop_last(), le);
        front.insert(insertion_point(front, s.last(), le), s.last())
    }
}

/// The elements that tie with `pivot`: neither is above the other.
pub open spec fn tied<T>(le: spec_fn(T, T) -> bool, pivot: T) -> spec_fn(T) -> bool {
    |y: T| le(pivot, y) && le(y, pivot)
}

/// The insertion point lies within `s`, the element before it is not above
/// `x`, and every element from it on is above `x`.
pub proof fn lemma_insertion_point<T>(s: Seq<T>, x: T, le: spec_fn(T, T) -> bool)
    ensures
        0 <= insertion_point(s, x, le) <= s.len(),
        insertion_point(s, x, le) > 0 ==> le(s[insertion_point(s, x, le) - 1], x),
        forall|j: int| insertion_point(s, x, le) <= j < s.len() ==> !le(#[trigger] s[j], x),
    decreases s.len(),
{
    if s.len() == 0 {
    } else if le(s.last(), x) {
    } else {
        lemma_insertion_point(s.drop_last(), x, le);
        assert forall|j: int| insertion_point(s, x, le) <= j < s.len() implies !le(
            #[trigger] s[j],
            x,
        ) by {
            if j < s.len() - 1 {
                assert(s.drop_last()[j] == s[j]);
            }
        }
    }
}

/// Sorting keeps the length.
pub proof fn lemma_stable_sorted_len<T>(s: Seq<T>, le: spec_fn(T, T) -> bool)
    ensures
        stable_sorted(s, le).len() == s.len(),
    decreases s.len(),
{
    if s.len() > 0 {
        let front = stable_sorted(s.drop_last(), le);
        lemma_stable_sorted_len(s.drop_last(), le);
        lemma_insertion_point(front, s.last(), le);
    }
}

/// Under a total preorder the result is in ascending order.
pub proof fn lemma_stable_sorted_ascends<T>(s: Seq<T>, le: spec_fn(T, T) -> bool)
    requires
        transitive(le),
        strongly_connected(le),
    ensures
        sorted_by(stable_sorted(s, le), le),
    decreases s.len(),
{
    if s.len() > 0 {
        let front = stable_sorted(s.drop_last(), le);
        let x = s.last();
        let p = insertion_point(front, x, le);
        let out = front.insert(p, x);
        lemma_stable_sorted_ascends(s.drop_last(), le);
        lemma_insertion_point(front, x, le);
        assert forall|i: int, j: int| 0 <= i < j < out.len() implies #[trigger] le(
            out[i],
            out[j],
        ) by {
            if j < p {
                assert(le(front[i], front[j]));
            } else if j == p {
                if i < p - 1 {
                    assert(le(front[i], front[p - 1]));
                    assert(le(front[p - 1], x));
                }
            } else if i < p {
                assert(le(front[i], front[j - 1]));
            } else if i == p {
                assert(!le(front[j - 1], x));
                assert(le(x, front[j - 1]) || le(front[j - 1], x));
            } else {
                assert(le(front[i - 1], front[j - 1]));
            }
        }
    }
}

/// The result is a rearrangement of the input.
pub proof fn lemma_stable_sorted_permutes<T>(s: Seq<T>, le: spec_fn(T, T) -> bool)
    ensures
        stable_sorted(s, le).to_multiset() == s.to_multiset(),
    decreases s.len(),
{
    broadcast use group_to_multiset_ensures;

    if s.len() > 0 {
        let rest = s.drop_last();
        let front = stable_sorted(rest, le);
        let x = s.last();
        let p = insertion_point(front, x, le);
        let head = front.subrange(0, p);
        let tail = front.subrange(p, front.len() as int);
        lemma_stable_sorted_permutes(rest, le);
        lemma_insertion_point(front, x, le);
        assert(front =~= head + tail);
        assert(s =~= rest.push(x));
        lemma_multiset_commutative(head, tail);
        lemma_multiset_commutative(head.push(x), tail);
        assert(stable_sorted(s, le).to_multiset() =~= s.to_multiset());
    }
}

proof fn lemma_filter_none<T>(s: Seq<T>, pred: spec_fn(T) -> bool)
    requires
        forall|j: int| 0 <= j < s.len() ==> !pred(#[trigger] s[j]),
    ensures
        s.filter(pred) == Seq::<T>::empty(),
    decreases s.len(),
{
    reveal(Seq::filter);
    if s.len() > 0 {
        assert forall|j: int| 0 <= j < s.drop_last().len() implies !pred(
            #[trigger] s.drop_last()[j],
        ) by {
            assert(s.drop_last()[j] == s[j]);
        }
        lemma_filter_none(s.drop_last(), pred);
    }
}

/// Sorting is stable: the elements that tie with `pivot` come out in the
/// order in which they went in.
pub proof fn lemma_stable_sorted_keeps_ties<T>(s: Seq<T>, le: spec_fn(T, T) -> bool, pivot: T)
    requires
        transitive(le),
    ensures
        stable_sorted(s, le).filter(tied(le, pivot)) == s.filter(tied(le, pivot)),
    decreases s.len(),
{
    let pred = tied(le, pivot);
    if s.len() == 0 {
        assert(stable_sorted(s, le) =~= s);
    } else {
        let rest = s.drop_last();
        let front = stable_sorted(rest, le);
        let x = s.last();
        let p = insertion_point(front, x, le);
        let head = front.subrange(0, p);
        let tail = front.subrange(p, front.len() as int);
        lemma_stable_sorted_keeps_ties(rest, le, pivot);
        lemma_insertion_point(front, x, le);
        assert(front =~= head + tail);
        assert(s =~= rest.push(x));
        rest.lemma_filter_push(x, pred);
        head.lemma_filter_push(x, pred);
        Seq::filter_distributes_over_add(head, tail, pred);
        Seq::filter_distributes_over_add(head.push(x), tail, pred);
        if pred(x) {
            assert forall|j: int| 0 <= j < tail.len() implies !pred(#[trigger] tail[j]) by {
                let y = tail[j];
                assert(y == front[p + j]);
                assert(!le(front[p + j], x));
                if pred(y) {
                    assert(le(y, pivot) && le(pivot, x));
                }
            }
            lemma_filter_none(tail, pred);
            assert(head.filter(pred).push(x) + Seq::<T>::empty() =~= head.filter(pred).push(x));
            assert(head.filter(pred) + Seq::<T>::empty() =~= head.filter(pred));
        }
    }
}

/// Ascending order and the order of ties determine a sequence: two
/// ascending sequences that hold, for every pivot, the same elements tying
/// with it in the same order are equal.
pub proof fn lemma_ascending_and_ties_determine<T>(
    t: Seq<T>,
    u: Seq<T>,
    le: spec_fn(T, T) -> bool,
)
    requires
        transitive(le),
        strongly_connected(le),
        sorted_by(t, le),
        sorted_by(u, le),
        forall|pivot: T| t.filter(#[trigger] tied(le, pivot)) == u.filter(tied(le, pivot)),
    ensures
        t == u,
    decreases t.len(),
{
    if t.len() == 0 {
        if u.len() > 0 {
            let b = u[0];
            let pb = tied(le, b);
            assert(le(b, b) || le(b, b));
            u.lemma_filter_contains(pb, 0);
            t.lemma_filter_len(pb);
            assert(t.filter(pb) == u.filter(pb));
            assert(false);
        }
        assert(t =~= u);
    } else {
        let a = t.last();
        let pa = tied(le, a);
        let t1 = t.drop_last();
        assert(le(a, a) || le(a, a));
        assert(t =~= t1.push(a));
        t1.lemma_filter_push(a, pa);
        assert(t.filter(pa) == u.filter(pa));
        u.lemma_filter_len(pa);
        let b = u.last();
        let u1 = u.drop_last();
        assert(u =~= u1.push(b));
        u1.lemma_filter_push(b, pa);
        if !pa(b) {
            let f = u1.filter(pa);
            assert(f[f.len() - 1] == a);
            assert(f.contains(a));
            u1.lemma_filter_contains_rev(pa, a);
            let k = choose|k: int| 0 <= k < u1.len() && u1[k] == a;
            assert(le(u[k], u[u.len() - 1]));
            let pb = tied(le, b);
            assert(le(b, b) || le(b, b));
            u.lemma_filter_contains(pb, u.len() - 1);
            assert(t.filter(pb) == u.filter(pb));
            t.lemma_filter_contains_rev(pb, b);
            let m = choose|m: int| 0 <= m < t.len() && t[m] == b;
            if m < t.len() - 1 {
                assert(le(t[m], t[t.len() - 1]));
            }
            assert(false);
        }
        assert(t1.filter(pa).push(a).last() == a);
        assert(u1.filter(pa).push(b).last() == b);
        assert forall|pivot: T| t1.filter(#[trigger] tied(le, pivot)) == u1.filter(
            tied(le, pivot),
        ) by {
            let p = tied(le, pivot);
            t1.lemma_filter_push(a, p);
            u1.lemma_filter_push(b, p);
            assert(t.filter(p) == u.filter(p));
            if p(a) {
                assert(t1.filter(p).push(a).drop_last() =~= t1.filter(p));
                assert(u1.filter(p).push(a).drop_last() =~= u1.filter(p));
            }
        }
        assert forall|i: int, j: int| 0 <= i < j < t1.len() implies #[trigger] le(t1[i], t1[j]) by {
            assert(le(t[i], t[j]));
        }
        assert forall|i: int, j: int| 0 <= i < j < u1.len() implies #[trigger] le(u1[i], u1[j]) by {
            assert(le(u[i], u[j]));
        }
        lemma_ascending_and_ties_determine(t1, u1, le);
        assert(t =~= u);
    }
}

/// The stable sort of `s` is the only ascending sequence that holds, for
/// every pivot, the elements of `s` tying with it in their order in `s`.
pub proof fn lemma_stable_sorted_unique<T>(s: Seq<T>, t: Seq<T>, le: spec_fn(T, T) -> bool)
    requires
        transitive(le),
        strongly_connected(le),
        sorted_by(t, le),
        forall|pivot: T| t.filter(#[trigger] tied(le, pivot)) == s.filter(tied(le, pivot)),
    ensures
        t == stable_sorted(s, le),
{
    let u = stable_sorted(s, le);
    lemma_stable_sorted_ascends(s, le);
    assert forall|pivot: T| t.filter(#[trigger] tied(le, pivot)) == u.filter(
        tied(le, pivot),
    ) by {
        lemma_stable_sorted_keeps_ties(s, le, pivot);
    }
    lemma_ascending_and_ties_determine(t, u, le);
}

/// Filtering a sequence filters its multiset.
proof fn lemma_filter_to_multiset<T>(s: Seq<T>, pred: spec_fn(T) -> bool)
    ensures
        s.filter(pred).to_multiset() == s.to_multiset().filter(pred),
    decreases s.len(),
{
    broadcast use group_to_multiset_ensures;
    broadcast use vstd::multiset::group_multiset_axioms;

    if s.len() == 0 {
        reveal(Seq::filter);
        assert(s.filter(pred) =~= s);
        assert(s.to_multiset().len() == 0);
        assert(s.filter(pred).to_multiset() =~= s.to_multiset().filter(pred));
    } else {
        let rest = s.drop_last();
        let x = s.last();
        lemma_filter_to_multiset(rest, pred);
        assert(s =~= rest.push(x));
        rest.lemma_filter_push(x, pred);
        assert(s.filter(pred).to_multiset() =~= s.to_multiset().filter(pred));
    }
}

/// Among elements none of which ties with another, at most one ties with
/// a given pivot.
proof fn lemma_at_most_one_tie<T>(s: Seq<T>, le: spec_fn(T, T) -> bool, pivot: T)
    requires
        transitive(le),
        strongly_connected(le),
        forall|i: int, j: int|
            0 <= i < j < s.len() ==> !(#[trigger] le(s[i], s[j]) && le(s[j], s[i])),
    ensures
        s.filter(tied(le, pivot)).len() <= 1,
{
    broadcast use group_to_multiset_ensures;
    broadcast use vstd::multiset::group_multiset_axioms;

    let pred = tied(le, pivot);
    let f = s.filter(pred);
    if f.len() >= 2 {
        assert forall|i: int, j: int| 0 <= i < s.len() && 0 <= j < s.len() && i != j implies s[i]
            != s[j] by {
            assert(le(s[i], s[i]) || le(s[i], s[i]));
            if i < j {
                assert(!(le(s[i], s[j]) && le(s[j], s[i])));
            } else {
                assert(!(le(s[j], s[i]) && le(s[i], s[j])));
            }
        }
        assert(s.no_duplicates());
        s.lemma_multiset_has_no_duplicates();
        lemma_filter_to_multiset(s, pred);
        assert forall|x: T| f.to_multiset().contains(x) implies f.to_multiset().count(x) == 1 by {
            assert(f.to_multiset().count(x) <= s.to_multiset().count(x));
            assert(s.to_multiset().contains(x));
        }
        f.lemma_multiset_has_no_duplicates_conv();
        s.lemma_filter_pred(pred, 0);
        s.lemma_filter_pred(pred, 1);
        assert(f.contains(f[0]));
        assert(f.contains(f[1]));
        s.lemma_filter_contains_rev(pred, f[0]);
        s.lemma_filter_contains_rev(pred, f[1]);
        let i = choose|i: int| 0 <= i < s.len() && s[i] == f[0];
        let j = choose|j: int| 0 <= j < s.len() && s[j] == f[1];
        assert(le(f[0], pivot) && le(pivot, f[1]));
        assert(le(f[1], pivot) && le(pivot, f[0]));
        assert(le(s[i], s[j]) && le(s[j], s[i]));
        assert(f[0] != f[1]);
        if i < j {
            assert(!(le(s[i], s[j]) && le(s[j], s[i])));
        } else {
            assert(!(le(s[j], s[i]) && le(s[i], s[j])));
        }
    }
}

/// The order of arrival matters for ties only: two arrangements of the same
/// elements, none of which ties with another, sort to the same sequence.
pub proof fn lemma_stable_sorted_of_rearrangement<T>(
    a: Seq<T>,
    b: Seq<T>,
    le: spec_fn(T, T) -> bool,
)
    requires
        transitive(le),
        strongly_connected(le),
        a.to_multiset() == b.to_multiset(),
        forall|i: int, j: int|
            0 <= i < j < a.len() ==> !(#[trigger] le(a[i], a[j]) && le(a[j], a[i])),
    ensures
        stable_sorted(a, le) == stable_sorted(b, le),
{
    broadcast use group_to_multiset_ensures;

    let t = stable_sorted(a, le);
    let u = stable_sorted(b, le);
    lemma_stable_sorted_ascends(a, le);
    lemma_stable_sorted_ascends(b, le);
    assert forall|pivot: T| t.filter(#[trigger] tied(le, pivot)) == u.filter(
        tied(le, pivot),
    ) by {
        let pred = tied(le, pivot);
        let f = a.filter(pred);
        let g = b.filter(pred);
        lemma_stable_sorted_keeps_ties(a, le, pivot);
        lemma_stable_sorted_keeps_ties(b, le, pivot);
        lemma_filter_to_multiset(a, pred);
        lemma_filter_to_multiset(b, pred);
        lemma_at_most_one_tie(a, le, pivot);
        assert(f.to_multiset() == g.to_multiset());
        assert(f.len() == f.to_multiset().len() && g.len() == g.to_multiset().len());
        if f.len() == 1 {
            assert(f.contains(f[0]));
            assert(g.to_multiset().count(f[0]) > 0);
            assert(g.contains(f[0]));
        }
        assert(f =~= g);
    }
    lemma_ascending_and_ties_determine(t, u, le);
}

} // verus!
