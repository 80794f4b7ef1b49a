use vstd::prelude::*;

use crate::value::{VValue, Value};

verus! {

/// The model of a blackboard: what each key holds.
pub type BoardView = Map<Seq<char>, VValue>;

/// The keyed values an NPC plans with: a map from names to values.
#[derive(Debug)]
pub struct Blackboard {
    entries: Vec<(String, Value)>,
}

/// The map that a list of distinct-keyed entries stands for.
pub open spec fn entries_map(s: Seq<(String, Value)>) -> BoardView
    decreases s.len(),
{
    if s.len() == 0 {
        Map::empty()
    } else {
        entries_map(s.drop_last()).insert(s.last().0@, s.last().1@)
    }
}

pub open spec fn distinct_keys(s: Seq<(String, Value)>) -> bool {
    forall|i: int, j: int| 0 <= i < s.len() && 0 <= j < s.len() && i != j ==> s[i].0@ != s[j].0@
}

/// The entries' map holds exactly their keys, each with its own value.
pub proof fn lemma_entries_map(s: Seq<(String, Value)>)
    requires
        distinct_keys(s),
    ensures
        forall|i: int| 0 <= i < s.len() ==> #[trigger] entries_map(s).contains_key(s[i].0@)
            && entries_map(s)[s[i].0@] == s[i].1@,
        forall|k: Seq<char>| #[trigger] entries_map(s).contains_key(k) ==> exists|i: int|
            0 <= i < s.len() && s[i].0@ == k,
    decreases s.len(),
{
    if s.len() > 0 {
        let t = s.drop_last();
        assert(distinct_keys(t)) by {
            assert forall|i: int, j: int|
                0 <= i < t.len() && 0 <= j < t.len() && i != j implies t[i].0@ != t[j].0@ by {
                assert(t[i] == s[i] && t[j] == s[j]);
            }
        }
        lemma_entries_map(t);
        assert forall|i: int| 0 <= i < s.len() implies #[trigger] entries_map(s).contains_key(s[i].0@)
            && entries_map(s)[s[i].0@] == s[i].1@ by {
            if i < s.len() - 1 {
                assert(t[i] == s[i]);
                assert(entries_map(t).contains_key(t[i].0@));
                assert(s[i].0@ != s[s.len() - 1].0@);
            }
        }
        assert forall|k: Seq<char>| #[trigger] entries_map(s).contains_key(k) implies exists|i: int|
            0 <= i < s.len() && s[i].0@ == k by {
            if k == s.last().0@ {
                assert(s[s.len() - 1].0@ == k);
            } else {
                assert(entries_map(t).contains_key(k));
                let i = choose|i: int| 0 <= i < t.len() && t[i].0@ == k;
                assert(s[i] == t[i]);
            }
        }
    }
}

impl View for Blackboard {
    type V = BoardView;

    closed spec fn view(&self) -> BoardView {
        entries_map(self.entries@)
    }
}

impl Blackboard {
    /// The blackboard's invariant: no key appears twice.
    pub closed spec fn wf(&self) -> bool {
        distinct_keys(self.entries@)
    }

    /// An empty blackboard.
    pub fn new() -> (r: Blackboard)
        ensures
            r.wf(),
            r@ == Map::<Seq<char>, VValue>::empty(),
    {
        Blackboard { entries: Vec::new() }
    }

    /// The index of the entry whose key is `key`, if there is one.
    fn position(&self, key: &String) -> (r: Option<usize>)
        requires
            self.wf(),
        ensures
            match r {
                Some(i) => i < self.entries@.len() && self.entries@[i as int].0@ == key@,
                None => forall|i: int| 0 <= i < self.entries@.len() ==> self.entries@[i].0@ != key@,
            },
    {
        let mut i: usize = 0;
        while i < self.entries.len()
            invariant
                i <= self.entries@.len(),
                forall|j: int| 0 <= j < i ==> self.entries@[j].0@ != key@,
            decreases self.entries@.len() - i,
        {
            if self.entries[i].0 == *key {
                return Some(i);
            }
            i = i + 1;
        }
        None
    }

    /// The value held under `key`.
    pub fn get(&self, key: &String) -> (r: Option<&Value>)
        requires
            self.wf(),
        ensures
            match r {
                Some(v) => self@.contains_key(key@) && self@[key@] == v@,
                None => !self@.contains_key(key@),
            },
    {
        proof {
            lemma_entries_map(self.entries@);
        }
        match self.position(key) {
            Some(i) => {
                assert(entries_map(self.entries@).contains_key(self.entries@[i as int].0@));
                Some(&self.entries[i].1)
            },
            None => None,
        }
    }

    /// Whether `key` holds a value.
    pub fn has(&self, key: &String) -> (r: bool)
        requires
            self.wf(),
        ensures
            r == self@.contains_key(key@),
    {
        proof {
            lemma_entries_map(self.entries@);
        }
        self.position(key).is_some()
    }

    /// Stores `value` under `key`, replacing what it held.
    pub fn insert(&mut self, key: String, value: Value)
        requires
            old(self).wf(),
        ensures
            final(self).wf(),
            final(self)@ == old(self)@.insert(key@, value@),
    {
        proof {
            lemma_entries_map(self.entries@);
        }
        let ghost old_entries = self.entries@;
        match self.position(&key) {
            Some(i) => {
                self.entries.set(i, (key, value));
                proof {
                    let s = self.entries@;
                    assert(distinct_keys(s)) by {
                        assert forall|a: int, b: int|
                            0 <= a < s.len() && 0 <= b < s.len() && a != b implies s[a].0@
                            != s[b].0@ by {
                            if a != i && b != i {
                                assert(s[a] == old_entries[a] && s[b] == old_entries[b]);
                            } else if a == i {
                                assert(s[b] == old_entries[b]);
                            } else {
                                assert(s[a] == old_entries[a]);
                            }
                        }
                    }
                    lemma_entries_map(s);
                    assert(self@ =~= old(self)@.insert(key@, value@)) by {
                        assert forall|k: Seq<char>| #[trigger] self@.contains_key(k) implies old(
                            self,
                        )@.insert(key@, value@).contains_key(k) by {
                            let j = choose|j: int| 0 <= j < s.len() && s[j].0@ == k;
                            if j != i {
                                assert(s[j] == old_entries[j]);
                            }
                        }
                        assert forall|k: Seq<char>|
                            #[trigger] old(self)@.insert(key@, value@).contains_key(
                                k,
                            ) implies self@.contains_key(k) && self@[k] == old(self)@.insert(
                            key@,
                            value@,
                        )[k] by {
                            if k == key@ {
                                assert(s[i as int].0@ == k);
                                assert(entries_map(s).contains_key(s[i as int].0@));
                            } else {
                                assert(old(self)@.contains_key(k));
                                let j = choose|j: int|
                                    0 <= j < old_entries.len() && old_entries[j].0@ == k;
                                assert(old_entries[i as int].0@ == key@);
                                assert(j != i);
                                assert(s[j] == old_entries[j]);
                                assert(entries_map(s).contains_key(s[j].0@));
                                assert(entries_map(old_entries).contains_key(old_entries[j].0@));
                            }
                        }
                    }
                }
            },
            None => {
                self.entries.push((key, value));
                proof {
                    let s = self.entries@;
                    assert(s.drop_last() =~= old_entries);
                    assert(distinct_keys(s)) by {
                        assert forall|a: int, b: int|
                            0 <= a < s.len() && 0 <= b < s.len() && a != b implies s[a].0@
                            != s[b].0@ by {
                            if a < old_entries.len() && b < old_entries.len() {
                                assert(s[a] == old_entries[a] && s[b] == old_entries[b]);
                            } else if a < old_entries.len() {
                                assert(s[a] == old_entries[a]);
                            } else {
                                assert(s[b] == old_entries[b]);
                            }
                        }
                    }
                }
            },
        }
    }

    /// Removes what `key` holds, if anything.
    pub fn remove(&mut self, key: &String)
        requires
            old(self).wf(),
        ensures
            final(self).wf(),
            final(self)@ == old(self)@.remove(key@),
    {
        proof {
            lemma_entries_map(self.entries@);
        }
        let ghost old_entries = self.entries@;
        match self.position(key) {
            Some(i) => {
                self.entries.remove(i);
                proof {
                    let s = self.entries@;
                    assert(s =~= old_entries.remove(i as int));
                    assert(distinct_keys(s)) by {
                        assert forall|a: int, b: int|
                            0 <= a < s.len() && 0 <= b < s.len() && a != b implies s[a].0@
                            != s[b].0@ by {
                            let oa = if a < i { a } else { a + 1 };
                            let ob = if b < i { b } else { b + 1 };
                            assert(s[a] == old_entries[oa] && s[b] == old_entries[ob]);
                        }
                    }
                    lemma_entries_map(s);
                    assert(self@ =~= old(self)@.remove(key@)) by {
                        assert forall|k: Seq<char>| #[trigger] self@.contains_key(k) implies old(
                            self,
                        )@.remove(key@).contains_key(k) by {
                            let j = choose|j: int| 0 <= j < s.len() && s[j].0@ == k;
                            let oj = if j < i { j } else { j + 1 };
                            assert(s[j] == old_entries[oj]);
                        }
                        assert forall|k: Seq<char>|
                            #[trigger] old(self)@.remove(key@).contains_key(k) implies self@.contains_key(
                            k,
                        ) && self@[k] == old(self)@[k] by {
                            let j = choose|j: int|
                                0 <= j < old_entries.len() && old_entries[j].0@ == k;
                            assert(j != i);
                            let nj = if j < i { j } else { j - 1 };
                            assert(s[nj] == old_entries[j]);
                        }
                    }
                }
            },
            None => {
                assert(self@ =~= old(self)@.remove(key@));
            },
        }
    }

    /// Stores `value` under `key`; `None` (a nil value) removes the key.
    pub fn set(&mut self, key: String, value: Option<Value>)
        requires
            old(self).wf(),
        ensures
            final(self).wf(),
            final(self)@ == match value {
                Some(v) => old(self)@.insert(key@, v@),
                None => old(self)@.remove(key@),
            },
    {
        match value {
            Some(v) => self.insert(key, v),
            None => self.remove(&key),
        }
    }

    /// A copy of this blackboard.
    pub fn duplicate(&self) -> (r: Blackboard)
        requires
            self.wf(),
        ensures
            r.wf(),
            r@ == self@,
    {
        let mut entries: Vec<(String, Value)> = Vec::new();
        let mut i: usize = 0;
        while i < self.entries.len()
            invariant
                i <= self.entries@.len(),
                entries@.len() == i,
                forall|j: int|
                    0 <= j < i ==> #[trigger] entries@[j].0@ == self.entries@[j].0@ && entries@[j].1@
                        == self.entries@[j].1@,
            decreases self.entries@.len() - i,
        {
            let k = self.entries[i].0.clone();
            let v = self.entries[i].1.duplicate();
            entries.push((k, v));
            i = i + 1;
        }
        let r = Blackboard { entries };
        proof {
            lemma_same_map(r.entries@, self.entries@);
        }
        r
    }
}

/// Entries with the same keys and values, position by position, stand for the
/// same map.
proof fn lemma_same_map(a: Seq<(String, Value)>, b: Seq<(String, Value)>)
    requires
        a.len() == b.len(),
        forall|j: int| 0 <= j < a.len() ==> #[trigger] a[j].0@ == b[j].0@ && a[j].1@ == b[j].1@,
    ensures
        entries_map(a) == entries_map(b),
        distinct_keys(a) == distinct_keys(b),
    decreases a.len(),
{
    if a.len() > 0 {
        lemma_same_map(a.drop_last(), b.drop_last());
        assert(a[a.len() - 1].0@ == b[b.len() - 1].0@);
    }
    assert(distinct_keys(a) == distinct_keys(b)) by {
        if distinct_keys(a) {
            assert forall|i: int, j: int|
                0 <= i < b.len() && 0 <= j < b.len() && i != j implies b[i].0@ != b[j].0@ by {
                assert(a[i].0@ == b[i].0@ && a[j].0@ == b[j].0@);
            }
        }
        if distinct_keys(b) {
            assert forall|i: int, j: int|
                0 <= i < a.len() && 0 <= j < a.len() && i != j implies a[i].0@ != a[j].0@ by {
                assert(a[i].0@ == b[i].0@ && a[j].0@ == b[j].0@);
            }
        }
    }
}

/// Reading a key right after setting it gives what was set; every other key
/// keeps what it held.
pub proof fn law_get_after_set(board: BoardView, key: Seq<char>, value: VValue, other: Seq<char>)
    requires
        other != key,
    ensures
        board.insert(key, value).contains_key(key),
        board.insert(key, value)[key] == value,
        board.insert(key, value).contains_key(other) == board.contains_key(other),
        board.contains_key(other) ==> board.insert(key, value)[other] == board[other],
{
}

/// Setting a key to nil leaves the key without a value and every other key as
/// it was.
pub proof fn law_nil_removes(board: BoardView, key: Seq<char>, other: Seq<char>)
    requires
        other != key,
    ensures
        !board.remove(key).contains_key(key),
        board.remove(key).contains_key(other) == board.contains_key(other),
        board.contains_key(other) ==> board.remove(key)[other] == board[other],
{
}

} // verus!
