use vstd::prelude::*;

verus! {

broadcast use vstd::string::group_string_axioms;

/// The blackboards of the NPCs, each under the key of the NPC that owns it.
pub struct NPCBlackboards<B> {
    boards: Vec<(String, B)>,
}

pub open spec fn boards_map<B>(s: Seq<(String, B)>) -> Map<Seq<char>, B>
    decreases s.len(),
{
    if s.len() == 0 {
        Map::empty()
    } else {
        boards_map(s.drop_last()).insert(s.last().0@, s.last().1)
    }
}

pub open spec fn distinct_board_keys<B>(s: Seq<(String, B)>) -> bool {
    forall|i: int, j: int| 0 <= i < s.len() && 0 <= j < s.len() && i != j ==> s[i].0@ != s[j].0@
}

proof fn lemma_boards_map<B>(s: Seq<(String, B)>)
    requires
        distinct_board_keys(s),
    ensures
        forall|i: int| 0 <= i < s.len() ==> #[trigger] boards_map(s).contains_key(s[i].0@)
            && boards_map(s)[s[i].0@] == s[i].1,
        forall|k: Seq<char>| #[trigger] boards_map(s).contains_key(k) ==> exists|i: int|
            0 <= i < s.len() && s[i].0@ == k,
    decreases s.len(),
{
    if s.len() > 0 {
        let t = s.drop_last();
        assert(distinct_board_keys(t)) by {
            assert forall|i: int, j: int|
                0 <= i < t.len() && 0 <= j < t.len() && i != j implies t[i].0@ != t[j].0@ by {
                assert(t[i] == s[i] && t[j] == s[j]);
            }
        }
        lemma_boards_map(t);
        assert forall|i: int| 0 <= i < s.len() implies #[trigger] boards_map(s).contains_key(s[i].0@)
            && boards_map(s)[s[i].0@] == s[i].1 by {
            if i < s.len() - 1 {
                assert(t[i] == s[i]);
                assert(boards_map(t).contains_key(t[i].0@));
                assert(s[i].0@ != s[s.len() - 1].0@);
            }
        }
        assert forall|k: Seq<char>| #[trigger] boards_map(s).contains_key(k) implies exists|i: int|
            0 <= i < s.len() && s[i].0@ == k by {
            if k == s.last().0@ {
                assert(s[s.len() - 1].0@ == k);
            } else {
                assert(boards_map(t).contains_key(k));
                let i = choose|i: int| 0 <= i < t.len() && t[i].0@ == k;
                assert(s[i] == t[i]);
            }
        }
    }
}

impl<B> View for NPCBlackboards<B> {
    type V = Map<Seq<char>, B>;

    closed spec fn view(&self) -> Map<Seq<char>, B> {
        boards_map(self.boards@)
    }
}

/// `f` called on `b`, which it may change.
fn call_on<B, R, F: FnOnce(&mut B) -> R>(b: &mut B, f: F) -> (r: R)
    requires
        forall|m: &mut B| *m == *old(b) ==> call_requires(f, (m,)),
    ensures
        exists|m: &mut B| *m == *old(b) && *final(m) == *final(b) && call_ensures(f, (m,), r),
{
    f(b)
}

impl<B> NPCBlackboards<B> {
    /// The invariant: no key appears twice.
    pub closed spec fn wf(&self) -> bool {
        distinct_board_keys(self.boards@)
    }

    /// No blackboards.
    pub fn new() -> (r: NPCBlackboards<B>)
        ensures
            r.wf(),
            r@ == Map::<Seq<char>, B>::empty(),
    {
        NPCBlackboards { boards: Vec::new() }
    }

    fn position(&self, key: &str) -> (r: Option<usize>)
        requires
            self.wf(),
        ensures
            match r {
                Some(i) => i < self.boards@.len() && self.boards@[i as int].0@ == key@,
                None => forall|i: int| 0 <= i < self.boards@.len() ==> self.boards@[i].0@ != key@,
            },
    {
        let wanted = key.to_string();
        let mut i: usize = 0;
        while i < self.boards.len()
            invariant
                wanted@ == key@,
                i <= self.boards@.len(),
                forall|j: int| 0 <= j < i ==> self.boards@[j].0@ != key@,
            decreases self.boards@.len() - i,
        {
            if self.boards[i].0 == wanted {
                return Some(i);
            }
            i = i + 1;
        }
        None
    }

    /// Gives `key` the blackboard `board`, replacing any it had.
    pub fn register(&mut self, key: String, board: B)
        requires
            old(self).wf(),
        ensures
            final(self).wf(),
            final(self)@ == old(self)@.insert(key@, board),
    {
        proof {
            lemma_boards_map(self.boards@);
        }
        let ghost old_boards = self.boards@;
        match self.position(key.as_str()) {
            Some(i) => {
                self.boards.set(i, (key, board));
                proof {
                    let s = self.boards@;
                    assert(distinct_board_keys(s)) by {
                        assert forall|a: int, b: int|
                            0 <= a < s.len() && 0 <= b < s.len() && a != b implies s[a].0@
                            != s[b].0@ by {
                            if a != i && b != i {
                                assert(s[a] == old_boards[a] && s[b] == old_boards[b]);
                            } else if a == i {
                                assert(s[b] == old_boards[b]);
                            } else {
                                assert(s[a] == old_boards[a]);
                            }
                        }
                    }
                    lemma_boards_map(s);
                    assert(self@ =~= old(self)@.insert(key@, board)) by {
                        assert forall|k: Seq<char>| #[trigger] self@.contains_key(k) implies old(
                            self,
                        )@.insert(key@, board).contains_key(k) by {
                            let j = choose|j: int| 0 <= j < s.len() && s[j].0@ == k;
                            if j != i {
                                assert(s[j] == old_boards[j]);
                            }
                        }
                        assert forall|k: Seq<char>|
                            #[trigger] old(self)@.insert(key@, board).contains_key(
                                k,
                            ) implies self@.contains_key(k) && self@[k] == old(self)@.insert(
                            key@,
                            board,
                        )[k] by {
                            if k == key@ {
                                assert(s[i as int].0@ == k);
                            } else {
                                let j = choose|j: int|
                                    0 <= j < old_boards.len() && old_boards[j].0@ == k;
                                assert(s[j] == old_boards[j]);
                            }
                        }
                    }
                }
            },
            None => {
                self.boards.push((key, board));
                proof {
                    let s = self.boards@;
                    assert(s.drop_last() =~= old_boards);
                    assert(distinct_board_keys(s)) by {
                        assert forall|a: int, b: int|
                            0 <= a < s.len() && 0 <= b < s.len() && a != b implies s[a].0@
                            != s[b].0@ by {
                            if a < old_boards.len() && b < old_boards.len() {
                                assert(s[a] == old_boards[a] && s[b] == old_boards[b]);
                            } else if a < old_boards.len() {
                                assert(s[a] == old_boards[a]);
                            } else {
                                assert(s[b] == old_boards[b]);
                            }
                        }
                    }
                }
            },
        }
    }

    /// The blackboard of `key`.
    pub fn get(&self, key: &str) -> (r: Option<&B>)
        requires
            self.wf(),
        ensures
            match r {
                Some(b) => self@.contains_key(key@) && self@[key@] == *b,
                None => !self@.contains_key(key@),
            },
    {
        proof {
            lemma_boards_map(self.boards@);
        }
        match self.position(key) {
            Some(i) => {
                assert(boards_map(self.boards@).contains_key(self.boards@[i as int].0@));
                Some(&self.boards[i].1)
            },
            None => None,
        }
    }

    /// `f` applied to the blackboard of `key`; `None` where `key` has none.
    pub fn with_blackboard<R, F: FnOnce(&B) -> R>(&self, key: &str, f: F) -> (r: Option<R>)
        requires
            self.wf(),
            self@.contains_key(key@) ==> call_requires(f, (&self@[key@],)),
        ensures
            match r {
                Some(v) => self@.contains_key(key@) && call_ensures(f, (&self@[key@],), v),
                None => !self@.contains_key(key@),
            },
    {
        match self.get(key) {
            Some(b) => Some(f(b)),
            None => None,
        }
    }

    /// `f` applied to the blackboard of `key`, which it may change; `None`
    /// where `key` has none.
    pub fn with_blackboard_mut<R, F: FnOnce(&mut B) -> R>(&mut self, key: &str, f: F) -> (r: Option<R>)
        requires
            old(self).wf(),
            old(self)@.contains_key(key@) ==> forall|m: &mut B|
                *m == old(self)@[key@] ==> call_requires(f, (m,)),
        ensures
            final(self).wf(),
            match r {
                Some(v) => old(self)@.contains_key(key@) && exists|m: &mut B|
                    *m == old(self)@[key@] && call_ensures(f, (m,), v) && final(self)@ == old(
                        self,
                    )@.insert(key@, *final(m)),
                None => !old(self)@.contains_key(key@) && final(self)@ == old(self)@,
            },
    {
        proof {
            lemma_boards_map(self.boards@);
        }
        match self.position(key) {
            Some(i) => {
                assert(boards_map(self.boards@).contains_key(self.boards@[i as int].0@));
                let (k, mut b2) = self.boards.remove(i);
                let v = call_on(&mut b2, f);
                self.boards.insert(i, (k, b2));
                proof {
                    let s = self.boards@;
                    let o = old(self).boards@;
                    assert(s =~= o.update(i as int, (k, b2)));
                    assert(distinct_board_keys(s)) by {
                        assert forall|a: int, c: int|
                            0 <= a < s.len() && 0 <= c < s.len() && a != c implies s[a].0@
                            != s[c].0@ by {
                            if a != i && c != i {
                                assert(s[a] == o[a] && s[c] == o[c]);
                            } else if a == i {
                                assert(s[c] == o[c]);
                            } else {
                                assert(s[a] == o[a]);
                            }
                        }
                    }
                    lemma_boards_map(s);
                    assert(self@ =~= old(self)@.insert(key@, b2)) by {
                        assert forall|q: Seq<char>| #[trigger] self@.contains_key(q) implies old(
                            self,
                        )@.insert(key@, b2).contains_key(q) by {
                            let j = choose|j: int| 0 <= j < s.len() && s[j].0@ == q;
                            if j != i {
                                assert(s[j] == o[j]);
                            }
                        }
                        assert forall|q: Seq<char>|
                            #[trigger] old(self)@.insert(key@, b2).contains_key(
                                q,
                            ) implies self@.contains_key(q) && self@[q] == old(self)@.insert(
                            key@,
                            b2,
                        )[q] by {
                            if q == key@ {
                                assert(s[i as int].0@ == q);
                                assert(boards_map(s).contains_key(s[i as int].0@));
                            } else {
                                let j = choose|j: int| 0 <= j < o.len() && o[j].0@ == q;
                                assert(s[j] == o[j]);
                            }
                        }
                    }
                }
                Some(v)
            },
            None => None,
        }
    }

    /// Drops the blackboard of `key`; `None` where it had none.
    pub fn cleanup(&mut self, key: &str) -> (r: Option<()>)
        requires
            old(self).wf(),
        ensures
            final(self).wf(),
            final(self)@ == old(self)@.remove(key@),
            r is Some <==> old(self)@.contains_key(key@),
    {
        proof {
            lemma_boards_map(self.boards@);
        }
        let ghost o = self.boards@;
        match self.position(key) {
            Some(i) => {
                assert(boards_map(o).contains_key(o[i as int].0@));
                self.boards.remove(i);
                proof {
                    let s = self.boards@;
                    assert(s =~= o.remove(i as int));
                    assert(distinct_board_keys(s)) by {
                        assert forall|a: int, b: int|
                            0 <= a < s.len() && 0 <= b < s.len() && a != b implies s[a].0@
                            != s[b].0@ by {
                            let oa = if a < i { a } else { a + 1 };
                            let ob = if b < i { b } else { b + 1 };
                            assert(s[a] == o[oa] && s[b] == o[ob]);
                        }
                    }
                    lemma_boards_map(s);
                    assert(self@ =~= old(self)@.remove(key@)) by {
                        assert forall|k: Seq<char>| #[trigger] self@.contains_key(k) implies old(
                            self,
                        )@.remove(key@).contains_key(k) by {
                            let j = choose|j: int| 0 <= j < s.len() && s[j].0@ == k;
                            let oj = if j < i { j } else { j + 1 };
                            assert(s[j] == o[oj]);
                        }
                        assert forall|k: Seq<char>|
                            #[trigger] old(self)@.remove(key@).contains_key(k) implies self@.contains_key(
                            k,
                        ) && self@[k] == old(self)@[k] by {
                            let j = choose|j: int| 0 <= j < o.len() && o[j].0@ == k;
                            assert(j != i);
                            let nj = if j < i { j } else { j - 1 };
                            assert(s[nj] == o[j]);
                        }
                    }
                }
                Some(())
            },
            None => {
                assert(self@ =~= old(self)@.remove(key@));
                None
            },
        }
    }
}

/// A blackboard is found under its key from registering it until cleaning it
/// up, and not after.
pub proof fn law_register_then_cleanup<B>(boards: Map<Seq<char>, B>, key: Seq<char>, board: B)
    ensures
        boards.insert(key, board).contains_key(key),
        boards.insert(key, board)[key] == board,
        !boards.insert(key, board).remove(key).contains_key(key),
{
}

} // verus!
