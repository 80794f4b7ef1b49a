//! Sorting through std's stable sorts, with what their documentation promises.
use vstd::prelude::*;

use std::cmp::Ordering;

verus! {

/// `p` lists each of the positions `0..n` once.
pub open spec fn is_permutation(p: Seq<int>, n: nat) -> bool {
    &&& p.len() == n
    &&& forall|i: int| 0 <= i < n ==> 0 <= #[trigger] p[i] < n
    &&& forall|i: int, j: int| 0 <= i < j < n ==> #[trigger] p[i] != #[trigger] p[j]
}

/// `t` holds the elements of `s`, the one at position `i` taken from `p[i]`.
pub open spec fn rearranged<T>(s: Seq<T>, t: Seq<T>, p: Seq<int>) -> bool {
    &&& is_permutation(p, s.len())
    &&& t.len() == s.len()
    &&& forall|i: int| 0 <= i < t.len() ==> #[trigger] t[i] == s[p[i]]
}

/// A permutation reaches every position.
pub proof fn lemma_permutation_onto(p: Seq<int>, n: nat, x: int)
    requires
        is_permutation(p, n),
        0 <= x < n,
    ensures
        exists|i: int| 0 <= i < n && p[i] == x,
{
    assert(p.no_duplicates()) by {
        assert forall|i: int, j: int|
            0 <= i < p.len() && 0 <= j < p.len() && i != j implies p[i] != p[j] by {
            if i < j {
                assert(p[i] != p[j]);
            } else {
                assert(p[j] != p[i]);
            }
        }
    }
    p.unique_seq_to_set();
    vstd::set_lib::lemma_int_range(0, n as int);
    let s = p.to_set();
    let r = vstd::set_lib::set_int_range(0, n as int);
    assert(s.subset_of(r)) by {
        assert forall|y: int| s.contains(y) implies r.contains(y) by {
            let i = choose|i: int| 0 <= i < p.len() && p[i] == y;
            assert(0 <= p[i] < n);
        }
    }
    vstd::seq_lib::seq_to_set_is_finite(p);
    vstd::set_lib::lemma_subset_equality(s, r);
    assert(r.contains(x));
    assert(s.contains(x));
}

/// `before` may answer that `a` comes before `b`.
pub open spec fn comes_before<F: Fn(u64, u64) -> bool>(before: F, a: u64, b: u64) -> bool {
    call_ensures(before, (a, b), true)
}

/// On the distinct nodes of `s`, `before` answers the same each time and
/// orders them strictly and totally.
pub open spec fn strict_total_on<F: Fn(u64, u64) -> bool>(before: F, s: Seq<u64>) -> bool {
    &&& forall|a: u64, b: u64|
        s.contains(a) && s.contains(b) && a != b ==> call_ensures(before, (a, b), true)
            != call_ensures(before, (a, b), false)
    &&& forall|a: u64, b: u64|
        s.contains(a) && s.contains(b) && a != b ==> comes_before(before, a, b) != comes_before(
            before,
            b,
            a,
        )
    &&& forall|a: u64, b: u64, c: u64|
        s.contains(a) && s.contains(b) && s.contains(c) && a != b && b != c && a != c
            && comes_before(before, a, b) && comes_before(before, b, c) ==> comes_before(
            before,
            a,
            c,
        )
}

/// The ordering that `before` gives two nodes: equal for the same node, else
/// first where `before` says so, else second.
pub fn precedence<F: Fn(u64, u64) -> bool>(before: &F, a: u64, b: u64) -> (o: Ordering)
    requires
        a != b ==> call_requires(*before, (a, b)),
    ensures
        (o == Ordering::Equal) == (a == b),
        o == Ordering::Less ==> call_ensures(*before, (a, b), true),
        o == Ordering::Greater ==> call_ensures(*before, (a, b), false),
{
    if a == b {
        Ordering::Equal
    } else if before(a, b) {
        Ordering::Less
    } else {
        Ordering::Greater
    }
}

/// Sorts the nodes so that each comes before those after it.
///
/// Trusted: calls `slice::sort_by` with the ordering of [`precedence`]. Its
/// documentation says that it sorts the slice by the comparison, so the result
/// is a rearrangement in which earlier elements do not compare greater than
/// later ones; the requires makes that ordering the total order that the
/// documentation needs (it may panic without one): equal nodes compare equal,
/// distinct ones as `before` orders them.
#[verifier::external_body]
pub fn sort_nodes_by<F: Fn(u64, u64) -> bool>(items: &mut Vec<u64>, before: &F)
    requires
        strict_total_on(*before, old(items)@),
        forall|a: u64, b: u64| call_requires(*before, (a, b)),
    ensures
        exists|p: Seq<int>| rearranged(old(items)@, final(items)@, p),
        forall|i: int, j: int|
            0 <= i < j < final(items)@.len() && final(items)@[i] != final(items)@[j]
                ==> comes_before(*before, final(items)@[i], final(items)@[j]),
{
    items.sort_by(|a, b| precedence(before, *a, *b));
}

/// Sorts pairs by their first element, keeping the order of pairs whose first
/// elements are equal.
///
/// Trusted: calls `slice::sort_by_key` with a key that picks the first element.
/// Its documentation says that it sorts by the key and is stable: a
/// rearrangement in which keys do not decrease and pairs with equal keys keep
/// their relative order. The second elements increase before the call, as the
/// requires asks, so after it the pairs are in the lexicographic order stated.
#[verifier::external_body]
pub fn sort_by_first(v: &mut Vec<(i64, u64)>)
    requires
        forall|i: int, j: int| 0 <= i < j < old(v)@.len() ==> old(v)@[i].1 < old(v)@[j].1,
    ensures
        exists|p: Seq<int>| rearranged(old(v)@, final(v)@, p),
        forall|i: int, j: int|
            0 <= i < j < final(v)@.len() ==> final(v)@[i].0 < final(v)@[j].0 || (final(v)@[i].0
                == final(v)@[j].0 && final(v)@[i].1 < final(v)@[j].1),
{
    v.sort_by_key(|p| p.0);
}

} // verus!
