//! A registry of scene nodes, known by their instance ids, with a chain of
//! queries over them.
//!
//! A chain starts from every registered node; each link narrows, reorders or
//! summarises the working set, and `collect` ends the chain with what the last
//! summarising link produced, or with the working set itself.
use vstd::prelude::*;

use crate::sorting::{
    comes_before, is_permutation, lemma_permutation_onto, rearranged, sort_by_first, sort_nodes_by, strict_total_on,
};

verus! {

/// What a chain of queries produces, as mathematical values.
pub enum Yield<V> {
    Nodes(Seq<u64>),
    Value(V),
    Values(Seq<V>),
    Flag(bool),
    Count(i64),
    Node(Option<u64>),
}

/// What a chain of queries produces.
pub enum Collected<V> {
    /// The working set, where no link summarised it.
    Nodes(Vec<u64>),
    /// What `reduce` folded.
    Value(V),
    /// What `map` gave for each node.
    Values(Vec<V>),
    /// What `any` or `all` found.
    Flag(bool),
    /// How many nodes `count` found.
    Count(i64),
    /// The node that `first`, `last`, `min_by` or `max_by` picked.
    Node(Option<u64>),
}

impl<V> Collected<V> {
    pub open spec fn view(&self) -> Yield<V> {
        match self {
            Collected::Nodes(v) => Yield::Nodes(v@),
            Collected::Value(x) => Yield::Value(*x),
            Collected::Values(v) => Yield::Values(v@),
            Collected::Flag(b) => Yield::Flag(*b),
            Collected::Count(n) => Yield::Count(*n),
            Collected::Node(n) => Yield::Node(*n),
        }
    }
}

/// The registry as mathematical values.
pub struct RegistryView<V> {
    /// The registered nodes, in the order they were registered.
    pub items: Seq<u64>,
    /// The working set of the chain in progress.
    pub staged: Seq<u64>,
    /// What the last summarising link produced.
    pub value: Option<Yield<V>>,
    /// Whether a chain is in progress.
    pub started: bool,
}

/// A registry of nodes with a chain of queries over them.
pub struct Registry<V> {
    items: Vec<u64>,
    staged: Vec<u64>,
    value: Option<Collected<V>>,
    started: bool,
}

impl<V> View for Registry<V> {
    type V = RegistryView<V>;

    closed spec fn view(&self) -> RegistryView<V> {
        RegistryView {
            items: self.items@,
            staged: self.staged@,
            value: match self.value {
                Some(c) => Some(c@),
                None => None,
            },
            started: self.started,
        }
    }
}

/// The registry once a chain is in progress: a new chain starts from every
/// registered node, with nothing summarised yet.
pub open spec fn begun<V>(r: RegistryView<V>) -> RegistryView<V> {
    if r.started {
        r
    } else {
        RegistryView { staged: r.items, value: None, started: true, ..r }
    }
}

/// The registry with a new working set.
pub open spec fn restaged<V>(r: RegistryView<V>, staged: Seq<u64>) -> RegistryView<V> {
    RegistryView { staged, ..begun(r) }
}

/// The registry with a new summary.
pub open spec fn summarised<V>(r: RegistryView<V>, y: Yield<V>) -> RegistryView<V> {
    RegistryView { value: Some(y), ..begun(r) }
}

/// The nodes of `s` whose flag in `r` equals `keep`, in order.
pub open spec fn keep_where(s: Seq<u64>, r: Seq<bool>, keep: bool) -> Seq<u64>
    decreases s.len(),
{
    if s.len() == 0 {
        Seq::empty()
    } else {
        let rest = keep_where(s.drop_last(), r.drop_last(), keep);
        if r.last() == keep {
            rest.push(s.last())
        } else {
            rest
        }
    }
}

/// The nodes of `s`, each kept at its first occurrence only.
pub open spec fn first_occurrences(s: Seq<u64>) -> Seq<u64>
    decreases s.len(),
{
    if s.len() == 0 {
        Seq::empty()
    } else {
        let rest = first_occurrences(s.drop_last());
        if rest.contains(s.last()) {
            rest
        } else {
            rest.push(s.last())
        }
    }
}

/// `s` in reverse order.
pub open spec fn reversed(s: Seq<u64>) -> Seq<u64> {
    Seq::new(s.len(), |i: int| s[s.len() - 1 - i])
}

/// How many nodes a count keeps or drops: none for a negative count, at most
/// all of them.
pub open spec fn clamp_count(count: i64, len: nat) -> int {
    if count <= 0 {
        0
    } else if count >= len {
        len as int
    } else {
        count as int
    }
}

/// `r` holds, node by node, answers that `f` may give for the nodes of `s`.
pub open spec fn answers<R, F: Fn(u64) -> R>(f: F, s: Seq<u64>, r: Seq<R>) -> bool {
    &&& r.len() == s.len()
    &&& forall|i: int| 0 <= i < s.len() ==> call_ensures(f, (s[i],), #[trigger] r[i])
}

/// `r` holds the answers of `f` for the nodes of `s` from the first on, up to
/// and including the first answer equal to `stop`, or for all of them where
/// none is.
pub open spec fn scanned<F: Fn(u64) -> bool>(f: F, s: Seq<u64>, r: Seq<bool>, stop: bool) -> bool {
    &&& r.len() <= s.len()
    &&& answers(f, s.take(r.len() as int), r)
    &&& forall|j: int| 0 <= j < r.len() - 1 ==> #[trigger] r[j] != stop
    &&& r.len() < s.len() ==> r.len() > 0 && r.last() == stop
}

/// Whether a scan ended on an answer equal to `stop`.
pub open spec fn stopped(r: Seq<bool>, stop: bool) -> bool {
    r.len() > 0 && r.last() == stop
}

/// `acc` holds the running values of folding `f` over `s` from `init`.
pub open spec fn folded<V, F: Fn(V, u64) -> V>(f: F, init: V, s: Seq<u64>, acc: Seq<V>) -> bool {
    &&& acc.len() == s.len() + 1
    &&& acc[0] == init
    &&& forall|i: int| 0 <= i < s.len() ==> call_ensures(f, (acc[i], s[i]), #[trigger] acc[i + 1])
}

/// Where IEEE 754's total order puts the binary64 value with these bits; this
/// is the order of `f64::total_cmp`.
pub open spec fn total_key64(bits: u64) -> int {
    if bits < 0x8000_0000_0000_0000 {
        bits as int
    } else {
        0x7FFF_FFFF_FFFF_FFFF - bits
    }
}

/// Where IEEE 754's total order puts the binary32 value with these bits; this
/// is the order of `f32::total_cmp`.
pub open spec fn total_key32(bits: u32) -> int {
    if bits < 0x8000_0000 {
        bits as int
    } else {
        0x7FFF_FFFF - bits
    }
}

/// The total-order keys of binary64 bit patterns.
pub open spec fn keys64(r: Seq<u64>) -> Seq<int> {
    r.map_values(|b: u64| total_key64(b))
}

/// The total-order keys of binary32 bit patterns.
pub open spec fn keys32(r: Seq<u32>) -> Seq<int> {
    r.map_values(|b: u32| total_key32(b))
}

/// Machine keys as integers.
pub open spec fn widen(k: Seq<i64>) -> Seq<int> {
    k.map_values(|x: i64| x as int)
}

/// The position of the first smallest key.
pub open spec fn first_min_index(k: Seq<int>) -> int
    decreases k.len(),
{
    if k.len() <= 1 {
        0
    } else {
        let j = first_min_index(k.drop_last());
        if k.last() < k[j] {
            k.len() - 1
        } else {
            j
        }
    }
}

/// The position of the last largest key.
pub open spec fn last_max_index(k: Seq<int>) -> int
    decreases k.len(),
{
    if k.len() <= 1 {
        0
    } else {
        let j = last_max_index(k.drop_last());
        if k.last() >= k[j] {
            k.len() - 1
        } else {
            j
        }
    }
}

/// The node at position `i`, or none where `s` is empty.
pub open spec fn pick(s: Seq<u64>, i: int) -> Option<u64> {
    if s.len() == 0 {
        None
    } else {
        Some(s[i])
    }
}

proof fn lemma_first_min_index(k: Seq<int>)
    requires
        k.len() > 0,
    ensures
        0 <= first_min_index(k) < k.len(),
        forall|j: int| 0 <= j < k.len() ==> k[first_min_index(k)] <= #[trigger] k[j],
        forall|j: int| 0 <= j < first_min_index(k) ==> k[first_min_index(k)] < #[trigger] k[j],
    decreases k.len(),
{
    if k.len() > 1 {
        let d = k.drop_last();
        lemma_first_min_index(d);
        let m = first_min_index(k);
        assert forall|j: int| 0 <= j < k.len() implies k[m] <= #[trigger] k[j] by {
            if j < k.len() - 1 {
                assert(d[j] == k[j]);
            }
        }
        assert forall|j: int| 0 <= j < m implies k[m] < #[trigger] k[j] by {
            assert(d[j] == k[j]);
        }
    }
}

proof fn lemma_last_max_index(k: Seq<int>)
    requires
        k.len() > 0,
    ensures
        0 <= last_max_index(k) < k.len(),
        forall|j: int| 0 <= j < k.len() ==> #[trigger] k[j] <= k[last_max_index(k)],
        forall|j: int| last_max_index(k) < j < k.len() ==> #[trigger] k[j] < k[last_max_index(k)],
    decreases k.len(),
{
    if k.len() > 1 {
        let d = k.drop_last();
        lemma_last_max_index(d);
        let m = last_max_index(k);
        assert forall|j: int| 0 <= j < k.len() implies #[trigger] k[j] <= k[m] by {
            if j < k.len() - 1 {
                assert(d[j] == k[j]);
            }
        }
        assert forall|j: int| m < j < k.len() implies #[trigger] k[j] < k[m] by {
            if j < k.len() - 1 {
                assert(d[j] == k[j]);
            }
        }
    }
}

/// The key of IEEE 754's total order for binary64 bits.
pub fn total_key_of64(bits: u64) -> (k: i64)
    ensures
        k == total_key64(bits),
{
    if bits < 0x8000_0000_0000_0000 {
        bits as i64
    } else {
        let m: u64 = bits - 0x8000_0000_0000_0000;
        -1 - (m as i64)
    }
}

/// The key of IEEE 754's total order for binary32 bits.
pub fn total_key_of32(bits: u32) -> (k: i64)
    ensures
        k == total_key32(bits),
{
    if bits < 0x8000_0000 {
        bits as i64
    } else {
        let m: u32 = bits - 0x8000_0000;
        -1 - (m as i64)
    }
}

/// The position of the first smallest key.
fn first_min_at(k: &Vec<i64>) -> (i: usize)
    requires
        k.len() > 0,
    ensures
        i == first_min_index(widen(k@)),
{
    let mut best: usize = 0;
    let mut i: usize = 1;
    while i < k.len()
        invariant
            1 <= i <= k.len(),
            best == first_min_index(widen(k@).take(i as int)),
            best < i,
        decreases k.len() - i,
    {
        proof {
            assert(widen(k@).take(i + 1).drop_last() =~= widen(k@).take(i as int));
        }
        if k[i] < k[best] {
            best = i;
        }
        i += 1;
    }
    proof {
        assert(widen(k@).take(k.len() as int) =~= widen(k@));
    }
    best
}

/// The position of the last largest key.
fn last_max_at(k: &Vec<i64>) -> (i: usize)
    requires
        k.len() > 0,
    ensures
        i == last_max_index(widen(k@)),
{
    let mut best: usize = 0;
    let mut i: usize = 1;
    while i < k.len()
        invariant
            1 <= i <= k.len(),
            best == last_max_index(widen(k@).take(i as int)),
            best < i,
        decreases k.len() - i,
    {
        proof {
            assert(widen(k@).take(i + 1).drop_last() =~= widen(k@).take(i as int));
        }
        if k[i] >= k[best] {
            best = i;
        }
        i += 1;
    }
    proof {
        assert(widen(k@).take(k.len() as int) =~= widen(k@));
    }
    best
}

/// The total-order keys of binary64 values that `key` gives for the nodes.
fn keys_by64<F: Fn(u64) -> u64>(s: &Vec<u64>, key: F) -> (out: (Vec<i64>, Ghost<Seq<u64>>))
    requires
        forall|x: u64| call_requires(key, (x,)),
    ensures
        answers(key, s@, out.1@),
        out.0@.len() == s@.len(),
        widen(out.0@) == keys64(out.1@),
{
    let mut k: Vec<i64> = Vec::new();
    let ghost mut r: Seq<u64> = Seq::empty();
    let mut i: usize = 0;
    while i < s.len()
        invariant
            i <= s.len(),
            forall|x: u64| call_requires(key, (x,)),
            answers(key, s@.take(i as int), r),
            k@.len() == i,
            widen(k@) == keys64(r),
        decreases s.len() - i,
    {
        let b = key(s[i]);
        let ghost k0 = k@;
        let ghost r0 = r;
        k.push(total_key_of64(b));
        proof {
            r = r.push(b);
            assert forall|j: int| 0 <= j < k@.len() implies #[trigger] widen(k@)[j] == keys64(r)[j] by {
                if j < i {
                    assert(widen(k0)[j] == keys64(r0)[j]);
                }
            }
            assert(widen(k@) =~= keys64(r));
            assert(s@.take(i + 1)[i as int] == s@[i as int]);
            assert forall|j: int| 0 <= j < i + 1 implies call_ensures(
                key,
                (s@.take(i + 1)[j],),
                #[trigger] r[j],
            ) by {
                if j < i {
                    assert(s@.take(i + 1)[j] == s@.take(i as int)[j]);
                }
            }
        }
        i += 1;
    }
    proof {
        assert(s@.take(s.len() as int) =~= s@);
    }
    (k, Ghost(r))
}

/// The total-order keys of binary32 values that `dist` gives for the nodes.
fn keys_by32<F: Fn(u64) -> u32>(s: &Vec<u64>, dist: F) -> (out: (Vec<i64>, Ghost<Seq<u32>>))
    requires
        forall|x: u64| call_requires(dist, (x,)),
    ensures
        answers(dist, s@, out.1@),
        out.0@.len() == s@.len(),
        widen(out.0@) == keys32(out.1@),
{
    let mut k: Vec<i64> = Vec::new();
    let ghost mut r: Seq<u32> = Seq::empty();
    let mut i: usize = 0;
    while i < s.len()
        invariant
            i <= s.len(),
            forall|x: u64| call_requires(dist, (x,)),
            answers(dist, s@.take(i as int), r),
            k@.len() == i,
            widen(k@) == keys32(r),
        decreases s.len() - i,
    {
        let b = dist(s[i]);
        let ghost k0 = k@;
        let ghost r0 = r;
        k.push(total_key_of32(b));
        proof {
            r = r.push(b);
            assert forall|j: int| 0 <= j < k@.len() implies #[trigger] widen(k@)[j] == keys32(r)[j] by {
                if j < i {
                    assert(widen(k0)[j] == keys32(r0)[j]);
                }
            }
            assert(widen(k@) =~= keys32(r));
            assert(s@.take(i + 1)[i as int] == s@[i as int]);
            assert forall|j: int| 0 <= j < i + 1 implies call_ensures(
                dist,
                (s@.take(i + 1)[j],),
                #[trigger] r[j],
            ) by {
                if j < i {
                    assert(s@.take(i + 1)[j] == s@.take(i as int)[j]);
                }
            }
        }
        i += 1;
    }
    proof {
        assert(s@.take(s.len() as int) =~= s@);
    }
    (k, Ghost(r))
}

/// The node nearest by the binary32 distances that `dist` gives: the first of
/// the nearest, in IEEE 754's total order.
fn nearest<F: Fn(u64) -> u32>(s: &Vec<u64>, dist: F) -> (out: (Option<u64>, Ghost<Seq<u32>>))
    requires
        forall|x: u64| call_requires(dist, (x,)),
    ensures
        answers(dist, s@, out.1@),
        out.0 == pick(s@, first_min_index(keys32(out.1@))),
{
    let (k, Ghost(r)) = keys_by32(s, dist);
    if s.len() == 0 {
        (None, Ghost(r))
    } else {
        let i = first_min_at(&k);
        proof {
            lemma_first_min_index(widen(k@));
        }
        (Some(s[i]), Ghost(r))
    }
}

/// `filter` and `reject` given the same answers split the working set between
/// them: together they keep every node exactly as often as it occurs.
pub proof fn law_filter_reject_split(s: Seq<u64>, r: Seq<bool>)
    requires
        r.len() == s.len(),
    ensures
        keep_where(s, r, true).to_multiset().add(keep_where(s, r, false).to_multiset())
            == s.to_multiset(),
    decreases s.len(),
{
    broadcast use vstd::seq_lib::to_multiset_build;
    broadcast use vstd::multiset::group_multiset_axioms;

    if s.len() == 0 {
        vstd::seq_lib::lemma_multiset_commutative(s, s);
        assert(s + s =~= s);
        assert(keep_where(s, r, true) =~= s);
        assert(keep_where(s, r, false) =~= s);
    } else {
        law_filter_reject_split(s.drop_last(), r.drop_last());
        assert(s =~= s.drop_last().push(s.last()));
        assert(keep_where(s, r, true).to_multiset().add(keep_where(s, r, false).to_multiset())
            =~= s.to_multiset());
    }
}

/// `take` and `skip` with the same count split the working set at one place:
/// what one keeps followed by what the other keeps is the whole of it.
pub proof fn law_take_skip_split(s: Seq<u64>, count: i64)
    ensures
        s.take(clamp_count(count, s.len())) + s.skip(clamp_count(count, s.len())) == s,
{
    assert(s.take(clamp_count(count, s.len())) + s.skip(clamp_count(count, s.len())) =~= s);
}

/// Reversing twice gives the working set back.
pub proof fn law_reverse_twice(s: Seq<u64>)
    ensures
        reversed(reversed(s)) == s,
{
    assert(reversed(reversed(s)) =~= s);
}

/// `unique` keeps each node once: no node occurs twice in what it keeps, it
/// keeps every node of the working set and no other, and keeping first
/// occurrences again changes nothing.
pub proof fn law_unique(s: Seq<u64>)
    ensures
        forall|i: int, j: int|
            0 <= i < j < first_occurrences(s).len() ==> first_occurrences(s)[i]
                != first_occurrences(s)[j],
        forall|x: u64| first_occurrences(s).contains(x) <==> s.contains(x),
        first_occurrences(first_occurrences(s)) == first_occurrences(s),
{
    lemma_first_occurrences(s);
    lemma_no_repeats_fixed(first_occurrences(s));
}

proof fn lemma_first_occurrences(s: Seq<u64>)
    ensures
        forall|i: int, j: int|
            0 <= i < j < first_occurrences(s).len() ==> first_occurrences(s)[i]
                != first_occurrences(s)[j],
        forall|x: u64| first_occurrences(s).contains(x) <==> s.contains(x),
    decreases s.len(),
{
    if s.len() > 0 {
        let d = s.drop_last();
        lemma_first_occurrences(d);
        let rest = first_occurrences(d);
        assert forall|x: u64| first_occurrences(s).contains(x) <==> s.contains(x) by {
            if s.contains(x) && x != s.last() {
                let i = choose|i: int| 0 <= i < s.len() && s[i] == x;
                assert(d[i] == x);
            }
            if d.contains(x) {
                let i = choose|i: int| 0 <= i < d.len() && d[i] == x;
                assert(s[i] == x);
            }
            if first_occurrences(s).contains(x) && !rest.contains(x) {
                assert(x == s.last());
                assert(s[s.len() - 1] == x);
            }
            if rest.contains(x) && !rest.contains(s.last()) {
                let i = choose|i: int| 0 <= i < rest.len() && rest[i] == x;
                assert(first_occurrences(s)[i] == x);
            }
            if !rest.contains(s.last()) && x == s.last() {
                assert(first_occurrences(s)[rest.len() as int] == x);
            }
        }
    }
}

proof fn lemma_no_repeats_fixed(s: Seq<u64>)
    requires
        forall|i: int, j: int| 0 <= i < j < s.len() ==> s[i] != s[j],
    ensures
        first_occurrences(s) == s,
    decreases s.len(),
{
    if s.len() > 0 {
        let d = s.drop_last();
        lemma_no_repeats_fixed(d);
        if d.contains(s.last()) {
            let i = choose|i: int| 0 <= i < d.len() && d[i] == s.last();
            assert(s[i] == s[s.len() - 1]);
        }
        assert(d.push(s.last()) =~= s);
    }
}

/// `min_by` picks a node with the smallest key, and no node before it has
/// that key.
pub proof fn law_min_is_first_smallest(k: Seq<int>)
    requires
        k.len() > 0,
    ensures
        0 <= first_min_index(k) < k.len(),
        forall|j: int| 0 <= j < k.len() ==> k[first_min_index(k)] <= #[trigger] k[j],
        forall|j: int| 0 <= j < first_min_index(k) ==> k[first_min_index(k)] < #[trigger] k[j],
{
    lemma_first_min_index(k);
}

/// `max_by` picks a node with the largest key, and no node after it has that
/// key.
pub proof fn law_max_is_last_largest(k: Seq<int>)
    requires
        k.len() > 0,
    ensures
        0 <= last_max_index(k) < k.len(),
        forall|j: int| 0 <= j < k.len() ==> #[trigger] k[j] <= k[last_max_index(k)],
        forall|j: int| last_max_index(k) < j < k.len() ==> #[trigger] k[j] < k[last_max_index(k)],
{
    lemma_last_max_index(k);
}

/// IEEE 754's total order of binary64 values orders distinct bit patterns
/// strictly: the key tells every two of them apart.
pub proof fn law_total_key64_distinct(a: u64, b: u64)
    ensures
        (total_key64(a) == total_key64(b)) == (a == b),
{
}

/// IEEE 754's total order of binary32 values orders distinct bit patterns
/// strictly: the key tells every two of them apart.
pub proof fn law_total_key32_distinct(a: u32, b: u32)
    ensures
        (total_key32(a) == total_key32(b)) == (a == b),
{
}

/// The nodes other than `item`, in order.
fn without(items: &Vec<u64>, item: u64) -> (kept: Vec<u64>)
    ensures
        kept@ == items@.filter(|c: u64| c != item),
{
    let mut kept: Vec<u64> = Vec::new();
    let mut i: usize = 0;
    while i < items.len()
        invariant
            i <= items.len(),
            kept@ == items@.take(i as int).filter(|c: u64| c != item),
        decreases items.len() - i,
    {
        let c = items[i];
        proof {
            assert(items@.take(i + 1) =~= items@.take(i as int).push(c));
            items@.take(i as int).lemma_filter_push(c, |c: u64| c != item);
        }
        if c != item {
            kept.push(c);
        }
        i += 1;
    }
    proof {
        assert(items@.take(items@.len() as int) =~= items@);
    }
    kept
}

impl<V> Registry<V> {
    /// An empty registry with no chain in progress.
    pub fn new() -> (r: Self)
        ensures
            r@ == (RegistryView::<V> {
                items: Seq::empty(),
                staged: Seq::empty(),
                value: None,
                started: false,
            }),
    {
        Registry { items: Vec::new(), staged: Vec::new(), value: None, started: false }
    }

    /// The registered nodes.
    pub fn items(&self) -> (r: &Vec<u64>)
        ensures
            r@ == self@.items,
    {
        &self.items
    }

    fn copy_of(s: &Vec<u64>) -> (r: Vec<u64>)
        ensures
            r@ == s@,
    {
        let mut r: Vec<u64> = Vec::new();
        let mut i: usize = 0;
        while i < s.len()
            invariant
                i <= s.len(),
                r@ == s@.take(i as int),
            decreases s.len() - i,
        {
            r.push(s[i]);
            i += 1;
            proof {
                assert(r@ =~= s@.take(i as int));
            }
        }
        proof {
            assert(s@.take(s.len() as int) =~= s@);
        }
        r
    }

    /// Starts a chain from every registered node, unless one is in progress.
    fn begin(&mut self)
        ensures
            final(self)@ == begun(old(self)@),
    {
        if !self.started {
            self.staged = Self::copy_of(&self.items);
            self.value = None;
            self.started = true;
        }
    }

    /// Registers a node after those already registered.
    pub fn register(&mut self, item: u64)
        ensures
            final(self)@ == (RegistryView { items: old(self)@.items.push(item), ..old(self)@ }),
    {
        self.items.push(item);
    }

    /// Removes every registration of the node.
    pub fn unregister(&mut self, item: u64)
        ensures
            final(self)@ == (RegistryView {
                items: old(self)@.items.filter(|c: u64| c != item),
                ..old(self)@
            }),
    {
        self.items = without(&self.items, item);
    }

    /// Narrows the working set to the node, where it is there.
    pub fn find(&mut self, node: u64)
        ensures
            final(self)@ == restaged(
                old(self)@,
                if begun(old(self)@).staged.contains(node) {
                    seq![node]
                } else {
                    Seq::empty()
                },
            ),
    {
        self.begin();
        let mut i: usize = 0;
        while i < self.staged.len()
            invariant
                i <= self.staged.len(),
                self@ == begun(old(self)@),
                forall|j: int| 0 <= j < i ==> self.staged@[j] != node,
            decreases self.staged.len() - i,
        {
            if self.staged[i] == node {
                proof {
                    assert(begun(old(self)@).staged[i as int] == node);
                }
                self.staged = vec![node];
                proof {
                    assert(seq![node] =~= self.staged@);
                }
                return;
            }
            i += 1;
        }
        proof {
            assert(!begun(old(self)@).staged.contains(node));
        }
        self.staged = Vec::new();
    }

    /// Keeps at most the first `count` nodes.
    pub fn take(&mut self, count: i64)
        ensures
            final(self)@ == restaged(
                old(self)@,
                begun(old(self)@).staged.take(clamp_count(count, begun(old(self)@).staged.len())),
            ),
    {
        self.begin();
        if count <= 0 {
            self.staged.truncate(0);
        } else if (count as u64) < (self.staged.len() as u64) {
            self.staged.truncate(count as usize);
        }
        proof {
            let s = begun(old(self)@).staged;
            assert(self.staged@ =~= s.take(clamp_count(count, s.len())));
        }
    }

    /// Drops the first `count` nodes.
    pub fn skip(&mut self, count: i64)
        ensures
            final(self)@ == restaged(
                old(self)@,
                begun(old(self)@).staged.skip(clamp_count(count, begun(old(self)@).staged.len())),
            ),
    {
        self.begin();
        let n: usize = if count <= 0 {
            0
        } else if (count as u64) < (self.staged.len() as u64) {
            count as usize
        } else {
            self.staged.len()
        };
        let rest = self.staged.split_off(n);
        self.staged = rest;
        proof {
            let s = begun(old(self)@).staged;
            assert(self.staged@ =~= s.skip(clamp_count(count, s.len())));
        }
    }

    /// Reverses the order of the working set.
    pub fn reverse(&mut self)
        ensures
            final(self)@ == restaged(old(self)@, reversed(begun(old(self)@).staged)),
    {
        self.begin();
        let mut out: Vec<u64> = Vec::new();
        let mut i: usize = self.staged.len();
        while i > 0
            invariant
                i <= self.staged.len(),
                out@ =~= reversed(self.staged@).take(self.staged.len() - i),
            decreases i,
        {
            i -= 1;
            out.push(self.staged[i]);
            proof {
                assert(out@ =~= reversed(self.staged@).take(self.staged.len() - i));
            }
        }
        proof {
            assert(reversed(self.staged@).take(self.staged.len() as int) =~= reversed(
                self.staged@,
            ));
        }
        self.staged = out;
    }

    /// Removes repeated nodes, keeping the first occurrence of each.
    pub fn unique(&mut self)
        ensures
            final(self)@ == restaged(old(self)@, first_occurrences(begun(old(self)@).staged)),
    {
        self.begin();
        let mut out: Vec<u64> = Vec::new();
        let mut i: usize = 0;
        while i < self.staged.len()
            invariant
                i <= self.staged.len(),
                out@ == first_occurrences(self.staged@.take(i as int)),
            decreases self.staged.len() - i,
        {
            let x = self.staged[i];
            proof {
                assert(self.staged@.take(i + 1).drop_last() =~= self.staged@.take(i as int));
            }
            let mut seen = false;
            let mut j: usize = 0;
            while j < out.len()
                invariant
                    j <= out.len(),
                    seen == out@.take(j as int).contains(x),
                decreases out.len() - j,
            {
                proof {
                    assert(out@.take(j + 1) =~= out@.take(j as int).push(out@[j as int]));
                }
                if out[j] == x {
                    seen = true;
                    proof {
                        assert(out@.take(j + 1)[j as int] == x);
                    }
                } else {
                    proof {
                        if out@.take(j + 1).contains(x) {
                            let k = choose|k: int| 0 <= k < j + 1 && #[trigger] out@.take(j + 1)[k] == x;
                            assert(out@.take(j as int)[k] == x);
                        }
                    }
                }
                j += 1;
            }
            proof {
                assert(out@.take(out.len() as int) =~= out@);
            }
            if !seen {
                out.push(x);
            }
            i += 1;
        }
        proof {
            assert(self.staged@.take(self.staged.len() as int) =~= self.staged@);
        }
        self.staged = out;
    }

    /// Yields the number of nodes in the working set.
    pub fn count(&mut self)
        ensures
            final(self)@ == summarised(
                old(self)@,
                Yield::Count(begun(old(self)@).staged.len() as i64),
            ),
    {
        self.begin();
        let n = self.staged.len() as i64;
        self.value = Some(Collected::Count(n));
    }

    /// Yields the first node of the working set, if any.
    pub fn first(&mut self)
        ensures
            final(self)@ == summarised(
                old(self)@,
                Yield::Node(
                    if begun(old(self)@).staged.len() == 0 {
                        None
                    } else {
                        Some(begun(old(self)@).staged[0])
                    },
                ),
            ),
    {
        self.begin();
        let f = if self.staged.len() == 0 {
            None
        } else {
            Some(self.staged[0])
        };
        self.value = Some(Collected::Node(f));
    }

    /// Yields the last node of the working set, if any.
    pub fn last(&mut self)
        ensures
            final(self)@ == summarised(
                old(self)@,
                Yield::Node(
                    if begun(old(self)@).staged.len() == 0 {
                        None
                    } else {
                        Some(begun(old(self)@).staged.last())
                    },
                ),
            ),
    {
        self.begin();
        let n = self.staged.len();
        let l = if n == 0 {
            None
        } else {
            Some(self.staged[n - 1])
        };
        self.value = Some(Collected::Node(l));
    }

    /// The registered node nearest by the binary32 distances that `dist`
    /// gives, the first of them where several are nearest (in IEEE 754's total
    /// order); none where nothing is registered.
    pub fn closest<F: Fn(u64) -> u32>(&self, dist: F) -> (c: Option<u64>)
        requires
            forall|x: u64| call_requires(dist, (x,)),
        ensures
            exists|r: Seq<u32>|
                answers(dist, self@.items, r) && c == pick(self@.items, first_min_index(keys32(r))),
    {
        let (c, Ghost(r)) = nearest(&self.items, dist);
        proof {
            assert(answers(dist, self@.items, r) && c == pick(self@.items, first_min_index(keys32(r))));
        }
        c
    }

    fn keep_answering<F: Fn(u64) -> bool>(&mut self, f: F, keep: bool)
        requires
            forall|x: u64| call_requires(f, (x,)),
        ensures
            exists|r: Seq<bool>|
                answers(f, begun(old(self)@).staged, r) && final(self)@ == restaged(
                    old(self)@,
                    keep_where(begun(old(self)@).staged, r, keep),
                ),
    {
        self.begin();
        let ghost s = self.staged@;
        let ghost mut r: Seq<bool> = Seq::empty();
        let mut kept: Vec<u64> = Vec::new();
        let mut i: usize = 0;
        while i < self.staged.len()
            invariant
                i <= self.staged.len(),
                self@ == begun(old(self)@),
                s == self.staged@,
                forall|x: u64| call_requires(f, (x,)),
                answers(f, s.take(i as int), r),
                kept@ == keep_where(s.take(i as int), r, keep),
            decreases self.staged.len() - i,
        {
            let x = self.staged[i];
            let b = f(x);
            proof {
                let r0 = r;
                r = r.push(b);
                assert(s.take(i + 1).drop_last() =~= s.take(i as int));
                assert(r.drop_last() =~= r0);
                assert forall|j: int| 0 <= j < i + 1 implies call_ensures(
                    f,
                    (s.take(i + 1)[j],),
                    #[trigger] r[j],
                ) by {
                    if j < i {
                        assert(s.take(i + 1)[j] == s.take(i as int)[j]);
                    }
                }
            }
            if b == keep {
                kept.push(x);
            }
            i += 1;
        }
        proof {
            assert(s.take(s.len() as int) =~= s);
        }
        self.staged = kept;
        proof {
            assert(answers(f, begun(old(self)@).staged, r) && final(self)@ == restaged(
                old(self)@,
                keep_where(begun(old(self)@).staged, r, keep),
            ));
        }
    }

    /// Keeps the nodes for which `f` answers true.
    pub fn filter<F: Fn(u64) -> bool>(&mut self, f: F)
        requires
            forall|x: u64| call_requires(f, (x,)),
        ensures
            exists|r: Seq<bool>|
                answers(f, begun(old(self)@).staged, r) && final(self)@ == restaged(
                    old(self)@,
                    keep_where(begun(old(self)@).staged, r, true),
                ),
    {
        self.keep_answering(f, true)
    }

    /// Keeps the nodes for which `f` answers false.
    pub fn reject<F: Fn(u64) -> bool>(&mut self, f: F)
        requires
            forall|x: u64| call_requires(f, (x,)),
        ensures
            exists|r: Seq<bool>|
                answers(f, begun(old(self)@).staged, r) && final(self)@ == restaged(
                    old(self)@,
                    keep_where(begun(old(self)@).staged, r, false),
                ),
    {
        self.keep_answering(f, false)
    }

    fn scan<F: Fn(u64) -> bool>(&mut self, f: F, stop: bool) -> (found: bool)
        requires
            forall|x: u64| call_requires(f, (x,)),
        ensures
            final(self)@ == begun(old(self)@),
            exists|r: Seq<bool>|
                scanned(f, begun(old(self)@).staged, r, stop) && found == stopped(r, stop),
    {
        self.begin();
        let ghost s = self.staged@;
        let ghost mut r: Seq<bool> = Seq::empty();
        let mut i: usize = 0;
        while i < self.staged.len()
            invariant
                i <= self.staged.len(),
                self@ == begun(old(self)@),
                s == self.staged@,
                forall|x: u64| call_requires(f, (x,)),
                r.len() == i,
                answers(f, s.take(i as int), r),
                forall|j: int| 0 <= j < i ==> #[trigger] r[j] != stop,
            decreases self.staged.len() - i,
        {
            let b = f(self.staged[i]);
            proof {
                r = r.push(b);
                assert forall|j: int| 0 <= j < i + 1 implies call_ensures(
                    f,
                    (s.take(i + 1)[j],),
                    #[trigger] r[j],
                ) by {
                    if j < i {
                        assert(s.take(i + 1)[j] == s.take(i as int)[j]);
                    }
                }
            }
            if b == stop {
                proof {
                    assert(scanned(f, begun(old(self)@).staged, r, stop) && true == stopped(r, stop));
                }
                return true;
            }
            i += 1;
        }
        proof {
            assert(s.take(s.len() as int) =~= s);
            assert(scanned(f, begun(old(self)@).staged, r, stop) && false == stopped(r, stop));
        }
        false
    }

    /// Yields whether `f` answers true for some node, asking node by node until
    /// it does.
    pub fn any<F: Fn(u64) -> bool>(&mut self, f: F)
        requires
            forall|x: u64| call_requires(f, (x,)),
        ensures
            exists|r: Seq<bool>|
                scanned(f, begun(old(self)@).staged, r, true) && final(self)@ == summarised(
                    old(self)@,
                    Yield::Flag(stopped(r, true)),
                ),
    {
        let found = self.scan(f, true);
        self.value = Some(Collected::Flag(found));
    }

    /// Yields whether `f` answers true for every node, asking node by node
    /// until it answers false.
    pub fn all<F: Fn(u64) -> bool>(&mut self, f: F)
        requires
            forall|x: u64| call_requires(f, (x,)),
        ensures
            exists|r: Seq<bool>|
                scanned(f, begun(old(self)@).staged, r, false) && final(self)@ == summarised(
                    old(self)@,
                    Yield::Flag(!stopped(r, false)),
                ),
    {
        let found = self.scan(f, false);
        self.value = Some(Collected::Flag(!found));
    }

    /// Yields what folding `f` over the nodes gives, starting from `default`.
    pub fn reduce<F: Fn(V, u64) -> V>(&mut self, default: V, f: F)
        requires
            forall|a: V, x: u64| call_requires(f, (a, x)),
        ensures
            exists|acc: Seq<V>|
                folded(f, default, begun(old(self)@).staged, acc) && final(self)@ == summarised(
                    old(self)@,
                    Yield::Value(acc.last()),
                ),
    {
        self.begin();
        let ghost s = self.staged@;
        let ghost mut acc: Seq<V> = seq![default];
        let mut cur = default;
        let mut i: usize = 0;
        while i < self.staged.len()
            invariant
                i <= self.staged.len(),
                self@ == begun(old(self)@),
                s == self.staged@,
                forall|a: V, x: u64| call_requires(f, (a, x)),
                folded(f, default, s.take(i as int), acc),
                cur == acc.last(),
            decreases self.staged.len() - i,
        {
            let x = self.staged[i];
            let ghost before = cur;
            cur = f(cur, x);
            proof {
                let acc0 = acc;
                acc = acc.push(cur);
                assert forall|j: int| 0 <= j < i + 1 implies call_ensures(
                    f,
                    (acc[j], s.take(i + 1)[j]),
                    #[trigger] acc[j + 1],
                ) by {
                    if j < i {
                        assert(s.take(i + 1)[j] == s.take(i as int)[j]);
                        assert(acc[j] == acc0[j] && acc[j + 1] == acc0[j + 1]);
                    }
                }
            }
            i += 1;
        }
        proof {
            assert(s.take(s.len() as int) =~= s);
        }
        self.value = Some(Collected::Value(cur));
        proof {
            assert(folded(f, default, begun(old(self)@).staged, acc) && final(self)@ == summarised(
                old(self)@,
                Yield::Value(acc.last()),
            ));
        }
    }

    /// Yields what `f` gives for each node, in order.
    pub fn map<F: Fn(u64) -> V>(&mut self, f: F)
        requires
            forall|x: u64| call_requires(f, (x,)),
        ensures
            exists|r: Seq<V>|
                answers(f, begun(old(self)@).staged, r) && final(self)@ == summarised(
                    old(self)@,
                    Yield::Values(r),
                ),
    {
        self.begin();
        let ghost s = self.staged@;
        let mut out: Vec<V> = Vec::new();
        let mut i: usize = 0;
        while i < self.staged.len()
            invariant
                i <= self.staged.len(),
                self@ == begun(old(self)@),
                s == self.staged@,
                forall|x: u64| call_requires(f, (x,)),
                answers(f, s.take(i as int), out@),
            decreases self.staged.len() - i,
        {
            let y = f(self.staged[i]);
            out.push(y);
            proof {
                assert forall|j: int| 0 <= j < i + 1 implies call_ensures(
                    f,
                    (s.take(i + 1)[j],),
                    #[trigger] out@[j],
                ) by {
                    if j < i {
                        assert(s.take(i + 1)[j] == s.take(i as int)[j]);
                    }
                }
            }
            i += 1;
        }
        proof {
            assert(s.take(s.len() as int) =~= s);
        }
        let ghost r = out@;
        self.value = Some(Collected::Values(out));
        proof {
            assert(answers(f, begun(old(self)@).staged, r) && final(self)@ == summarised(
                old(self)@,
                Yield::Values(r),
            ));
        }
    }

    /// Runs `f` once for each node, in order, and leaves the working set as it
    /// is: `f` was called on each node of it.
    pub fn for_each<F: Fn(u64)>(&mut self, f: F)
        requires
            forall|x: u64| call_requires(f, (x,)),
        ensures
            final(self)@ == begun(old(self)@),
            exists|r: Seq<()>| answers(f, begun(old(self)@).staged, r),
    {
        self.begin();
        let ghost s = self.staged@;
        let ghost mut r: Seq<()> = Seq::empty();
        let mut i: usize = 0;
        while i < self.staged.len()
            invariant
                i <= self.staged.len(),
                self@ == begun(old(self)@),
                s == self.staged@,
                forall|x: u64| call_requires(f, (x,)),
                answers(f, s.take(i as int), r),
            decreases self.staged.len() - i,
        {
            let u = f(self.staged[i]);
            proof {
                r = r.push(u);
                assert forall|j: int| 0 <= j < i + 1 implies call_ensures(
                    f,
                    (s.take(i + 1)[j],),
                    #[trigger] r[j],
                ) by {
                    if j < i {
                        assert(s.take(i + 1)[j] == s.take(i as int)[j]);
                    }
                }
            }
            i += 1;
        }
        proof {
            assert(s.take(s.len() as int) =~= s);
            assert(answers(f, begun(old(self)@).staged, r));
        }
    }

    /// Yields the node with the smallest binary64 key that `key` gives, the
    /// first of them where several are smallest (in IEEE 754's total order).
    pub fn min_by<F: Fn(u64) -> u64>(&mut self, key: F)
        requires
            forall|x: u64| call_requires(key, (x,)),
        ensures
            exists|r: Seq<u64>|
                answers(key, begun(old(self)@).staged, r) && final(self)@ == summarised(
                    old(self)@,
                    Yield::Node(pick(begun(old(self)@).staged, first_min_index(keys64(r)))),
                ),
    {
        self.begin();
        let (k, Ghost(r)) = keys_by64(&self.staged, key);
        let best = if self.staged.len() == 0 {
            None
        } else {
            let i = first_min_at(&k);
            proof {
                lemma_first_min_index(widen(k@));
            }
            Some(self.staged[i])
        };
        self.value = Some(Collected::Node(best));
        proof {
            assert(answers(key, begun(old(self)@).staged, r));
        }
    }

    /// Yields the node with the largest binary64 key that `key` gives, the
    /// last of them where several are largest (in IEEE 754's total order).
    pub fn max_by<F: Fn(u64) -> u64>(&mut self, key: F)
        requires
            forall|x: u64| call_requires(key, (x,)),
        ensures
            exists|r: Seq<u64>|
                answers(key, begun(old(self)@).staged, r) && final(self)@ == summarised(
                    old(self)@,
                    Yield::Node(pick(begun(old(self)@).staged, last_max_index(keys64(r)))),
                ),
    {
        self.begin();
        let (k, Ghost(r)) = keys_by64(&self.staged, key);
        let best = if self.staged.len() == 0 {
            None
        } else {
            let i = last_max_at(&k);
            proof {
                lemma_last_max_index(widen(k@));
            }
            Some(self.staged[i])
        };
        self.value = Some(Collected::Node(best));
        proof {
            assert(answers(key, begun(old(self)@).staged, r));
        }
    }

    /// Sorts the working set so that each node comes before the other nodes
    /// after it, by `before`, which must order the distinct nodes strictly and
    /// totally; repeated nodes end up next to each other.
    pub fn sort<F: Fn(u64, u64) -> bool>(&mut self, before: F)
        requires
            strict_total_on(before, begun(old(self)@).staged),
            forall|a: u64, b: u64| call_requires(before, (a, b)),
        ensures
            exists|p: Seq<int>|
                rearranged(begun(old(self)@).staged, final(self)@.staged, p),
            forall|i: int, j: int|
                0 <= i < j < final(self)@.staged.len() && final(self)@.staged[i]
                    != final(self)@.staged[j] ==> comes_before(
                    before,
                    final(self)@.staged[i],
                    final(self)@.staged[j],
                ),
            final(self)@ == restaged(old(self)@, final(self)@.staged),
    {
        self.begin();
        sort_nodes_by(&mut self.staged, &before);
    }

    /// Ends the chain: gives what the last summarising link produced, or else
    /// the working set, and leaves no chain in progress.
    pub fn collect(&mut self) -> (c: Collected<V>)
        ensures
            c@ == (match old(self)@.value {
                Some(y) => y,
                None => Yield::Nodes(old(self)@.staged),
            }),
            final(self)@ == (RegistryView::<V> {
                items: old(self)@.items,
                staged: Seq::empty(),
                value: None,
                started: false,
            }),
    {
        self.started = false;
        let v = self.value.take();
        let mut staged: Vec<u64> = Vec::new();
        std::mem::swap(&mut staged, &mut self.staged);
        match v {
            Some(y) => y,
            None => Collected::Nodes(staged),
        }
    }
}

/// `p` puts the positions of `k` in order of their keys, keeping positions with
/// equal keys in their order.
pub open spec fn stable_by_key(k: Seq<int>, p: Seq<int>) -> bool {
    &&& is_permutation(p, k.len())
    &&& forall|i: int, j: int|
        0 <= i < j < k.len() ==> k[p[i]] < k[p[j]] || (k[p[i]] == k[p[j]] && p[i] < p[j])
}

/// Registered campfires, known by their instance ids.
pub struct Campfires {
    campfires: Vec<u64>,
}

impl View for Campfires {
    type V = Seq<u64>;

    closed spec fn view(&self) -> Seq<u64> {
        self.campfires@
    }
}

/// The campfire that `closest` lists first is the one that `closest_one`
/// picks, for the same distances.
pub proof fn law_closest_starts_with_closest_one(k: Seq<int>, p: Seq<int>)
    requires
        stable_by_key(k, p),
        k.len() > 0,
    ensures
        p[0] == first_min_index(k),
{
    let m = first_min_index(k);
    lemma_first_min_index(k);
    lemma_permutation_onto(p, k.len(), m);
    let t = choose|t: int| 0 <= t < k.len() && p[t] == m;
    if t != 0 {
        assert(k[p[0]] < k[p[t]] || (k[p[0]] == k[p[t]] && p[0] < p[t]));
        assert(k[m] <= k[p[0]]);
        assert(p[0] < m);
        assert(k[m] < k[p[0]]);
    }
}

impl Campfires {
    /// No campfire registered.
    pub fn new() -> (c: Self)
        ensures
            c@ == Seq::<u64>::empty(),
    {
        Campfires { campfires: Vec::new() }
    }

    /// Registers a campfire after those already registered.
    pub fn register(&mut self, campfire: u64)
        ensures
            final(self)@ == old(self)@.push(campfire),
    {
        self.campfires.push(campfire);
    }

    /// Removes every registration of the campfire.
    pub fn unregister(&mut self, campfire: u64)
        ensures
            final(self)@ == old(self)@.filter(|c: u64| c != campfire),
    {
        self.campfires = without(&self.campfires, campfire);
    }

    /// The campfire nearest by the binary32 distances that `dist` gives, the
    /// first of them where several are nearest (in IEEE 754's total order).
    pub fn closest_one<F: Fn(u64) -> u32>(&self, dist: F) -> (c: Option<u64>)
        requires
            forall|x: u64| call_requires(dist, (x,)),
        ensures
            exists|r: Seq<u32>|
                answers(dist, self@, r) && c == pick(self@, first_min_index(keys32(r))),
    {
        let (c, Ghost(r)) = nearest(&self.campfires, dist);
        proof {
            assert(answers(dist, self@, r) && c == pick(self@, first_min_index(keys32(r))));
        }
        c
    }

    /// All campfires, nearest first by the binary32 distances that `dist`
    /// gives (in IEEE 754's total order), those at equal distances in the order
    /// they were registered.
    pub fn closest<F: Fn(u64) -> u32>(&self, dist: F) -> (out: Vec<u64>)
        requires
            forall|x: u64| call_requires(dist, (x,)),
        ensures
            exists|r: Seq<u32>, p: Seq<int>|
                answers(dist, self@, r) && stable_by_key(keys32(r), p) && out@.len() == self@.len()
                    && forall|i: int| 0 <= i < out@.len() ==> #[trigger] out@[i] == self@[p[i]],
    {
        let s = &self.campfires;
        let (k, Ghost(r)) = keys_by32(s, dist);
        let mut pairs: Vec<(i64, u64)> = Vec::new();
        let mut i: usize = 0;
        while i < k.len()
            invariant
                i <= k.len(),
                pairs@.len() == i,
                forall|j: int| 0 <= j < i ==> #[trigger] pairs@[j] == (k@[j], j as u64),
            decreases k.len() - i,
        {
            pairs.push((k[i], i as u64));
            i += 1;
        }
        let ghost before = pairs@;
        sort_by_first(&mut pairs);
        let ghost p = choose|p: Seq<int>| rearranged(before, pairs@, p);
        let mut out: Vec<u64> = Vec::new();
        let mut i: usize = 0;
        while i < pairs.len()
            invariant
                i <= pairs.len(),
                pairs@.len() == s@.len(),
                rearranged(before, pairs@, p),
                before.len() == s@.len(),
                forall|j: int| 0 <= j < before.len() ==> #[trigger] before[j] == (k@[j], j as u64),
                out@.len() == i,
                forall|j: int| 0 <= j < i ==> #[trigger] out@[j] == s@[p[j]],
            decreases pairs.len() - i,
        {
            let at = pairs[i].1;
            proof {
                assert(pairs@[i as int] == before[p[i as int]]);
            }
            out.push(s[at as usize]);
            i += 1;
        }
        proof {
            let kk = keys32(r);
            assert(widen(k@) == kk);
            assert forall|a: int, b: int| 0 <= a < b < kk.len() implies kk[p[a]] < kk[p[b]] || (kk[p[a]]
                == kk[p[b]] && p[a] < p[b]) by {
                assert(pairs@[a] == before[p[a]]);
                assert(pairs@[b] == before[p[b]]);
                assert(widen(k@)[p[a]] == k@[p[a]] as int);
                assert(widen(k@)[p[b]] == k@[p[b]] as int);
            }
            assert(answers(dist, self@, r) && stable_by_key(keys32(r), p) && out@.len() == self@.len()
                && forall|i: int| 0 <= i < out@.len() ==> #[trigger] out@[i] == self@[p[i]]);
        }
        out
    }
}

} // verus!
