//! Task networks over boolean facts: tasks with operators, sequences of tasks,
//! and selectors over sequences, each guarded by preconditions on the facts.
use vstd::prelude::*;

use crate::htn::{append_strings, strings_view};

verus! {

/// What each named fact holds.
pub type Facts = Map<Seq<char>, bool>;

/// Required or produced fact values, by name.
pub type FactPairs = Seq<(Seq<char>, bool)>;

pub open spec fn pairs_view(s: Seq<(String, bool)>) -> FactPairs {
    s.map_values(|p: (String, bool)| (p.0@, p.1))
}

/// The facts that a list of assignments stands for: a later assignment of a
/// name overrides an earlier one.
pub open spec fn facts_of(s: Seq<(String, bool)>) -> Facts
    decreases s.len(),
{
    if s.len() == 0 {
        Map::empty()
    } else {
        facts_of(s.drop_last()).insert(s.last().0@, s.last().1)
    }
}

/// Named boolean facts.
pub struct FactBoard {
    entries: Vec<(String, bool)>,
}

impl View for FactBoard {
    type V = Facts;

    closed spec fn view(&self) -> Facts {
        facts_of(self.entries@)
    }
}

proof fn lemma_later_entries_ignored(s: Seq<(String, bool)>, i: int, k: Seq<char>)
    requires
        0 <= i <= s.len(),
        forall|j: int| i <= j < s.len() ==> #[trigger] s[j].0@ != k,
    ensures
        facts_of(s).contains_key(k) == facts_of(s.take(i)).contains_key(k),
        facts_of(s).contains_key(k) ==> facts_of(s)[k] == facts_of(s.take(i))[k],
    decreases s.len(),
{
    if s.len() == i {
        assert(s.take(i) =~= s);
    } else {
        let d = s.drop_last();
        assert forall|j: int| i <= j < d.len() implies #[trigger] d[j].0@ != k by {
            assert(d[j] == s[j]);
        }
        lemma_later_entries_ignored(d, i, k);
        assert(d.take(i) =~= s.take(i));
        assert(s[s.len() - 1].0@ != k);
    }
}

impl FactBoard {
    /// No facts.
    pub fn new() -> (r: Self)
        ensures
            r@ == Map::<Seq<char>, bool>::empty(),
    {
        FactBoard { entries: Vec::new() }
    }

    /// What the named fact holds, if it is set.
    pub fn get(&self, key: &String) -> (r: Option<bool>)
        ensures
            r == (if self@.contains_key(key@) {
                Some(self@[key@])
            } else {
                None
            }),
    {
        let mut i: usize = self.entries.len();
        while i > 0
            invariant
                i <= self.entries@.len(),
                forall|j: int| i <= j < self.entries@.len() ==> #[trigger] self.entries@[j].0@ != key@,
            decreases i,
        {
            if self.entries[i - 1].0 == *key {
                proof {
                    let s = self.entries@;
                    lemma_later_entries_ignored(s, i as int, key@);
                    assert(s.take(i as int).drop_last() =~= s.take(i - 1));
                    assert(s.take(i as int).last() == s[i - 1]);
                }
                return Some(self.entries[i - 1].1);
            }
            i -= 1;
        }
        proof {
            lemma_later_entries_ignored(self.entries@, 0, key@);
        }
        None
    }

    /// Sets the named fact.
    pub fn set(&mut self, key: String, value: bool)
        ensures
            final(self)@ == old(self)@.insert(key@, value),
    {
        let ghost s = self.entries@;
        self.entries.push((key, value));
        proof {
            assert(self.entries@.drop_last() =~= s);
        }
    }

    /// A board with the same facts.
    pub fn duplicate(&self) -> (r: Self)
        ensures
            r@ == self@,
    {
        let mut entries: Vec<(String, bool)> = Vec::new();
        let mut i: usize = 0;
        while i < self.entries.len()
            invariant
                i <= self.entries@.len(),
                entries@.len() == i,
                facts_of(entries@) == facts_of(self.entries@.take(i as int)),
                forall|j: int|
                    0 <= j < i ==> #[trigger] entries@[j].0@ == self.entries@[j].0@ && entries@[j].1
                        == self.entries@[j].1,
            decreases self.entries@.len() - i,
        {
            let ghost before = entries@;
            entries.push((self.entries[i].0.clone(), self.entries[i].1));
            proof {
                assert(entries@.drop_last() =~= before);
                assert(self.entries@.take(i + 1).drop_last() =~= self.entries@.take(i as int));
            }
            i += 1;
        }
        proof {
            assert(self.entries@.take(self.entries@.len() as int) =~= self.entries@);
        }
        FactBoard { entries }
    }
}

/// Every required value is what the facts hold; an unset fact fails.
pub open spec fn met(pre: FactPairs, f: Facts) -> bool {
    forall|i: int| 0 <= i < pre.len() ==> f.contains_key(#[trigger] pre[i].0) && f[pre[i].0] == pre[i].1
}

/// The facts after the assignments, in order.
pub open spec fn with_effects(e: FactPairs, f: Facts) -> Facts
    decreases e.len(),
{
    if e.len() == 0 {
        f
    } else {
        with_effects(e.drop_last(), f).insert(e.last().0, e.last().1)
    }
}

/// Whether the facts meet the preconditions: each named fact is set and holds
/// the required value.
pub fn is_met(preconditions: &Vec<(String, bool)>, facts: &FactBoard) -> (r: bool)
    ensures
        r == met(pairs_view(preconditions@), facts@),
{
    let mut i: usize = 0;
    while i < preconditions.len()
        invariant
            i <= preconditions@.len(),
            met(pairs_view(preconditions@).take(i as int), facts@),
        decreases preconditions@.len() - i,
    {
        let (key, value) = (&preconditions[i].0, preconditions[i].1);
        match facts.get(key) {
            Some(v) => {
                if v != value {
                    proof {
                        let p = pairs_view(preconditions@);
                        assert(p[i as int] == (key@, value));
                        assert(!(facts@.contains_key(p[i as int].0) && facts@[p[i as int].0]
                            == p[i as int].1));
                    }
                    return false;
                }
            },
            None => {
                proof {
                    let p = pairs_view(preconditions@);
                    assert(p[i as int] == (key@, value));
                    assert(!facts@.contains_key(p[i as int].0));
                }
                return false;
            },
        }
        proof {
            let p = pairs_view(preconditions@);
            assert forall|j: int| 0 <= j < i + 1 implies facts@.contains_key(
                #[trigger] p.take(i + 1)[j].0,
            ) && facts@[p.take(i + 1)[j].0] == p.take(i + 1)[j].1 by {
                if j < i {
                    assert(p.take(i + 1)[j] == p.take(i as int)[j]);
                }
            }
        }
        i += 1;
    }
    proof {
        assert(pairs_view(preconditions@).take(preconditions@.len() as int) =~= pairs_view(
            preconditions@,
        ));
    }
    true
}

/// A task: when planned, it gives its operator and sets its effects.
pub struct Task {
    pub preconditions: Vec<(String, bool)>,
    pub effects: Vec<(String, bool)>,
    pub operator: String,
}

/// Tasks to plan one after another.
pub struct Sequence {
    pub preconditions: Vec<(String, bool)>,
    pub tasks: Vec<Node>,
}

/// Sequences to choose from.
pub struct Selector {
    pub preconditions: Vec<(String, bool)>,
    pub sequences: Vec<Sequence>,
}

/// What a sequence can hold: a task or a selector.
pub enum Node {
    Task(Task),
    Selector(Selector),
}

/// The model of a node.
pub enum VNode {
    Task { pre: FactPairs, effects: FactPairs, operator: Seq<char> },
    Selector { pre: FactPairs, sequences: Seq<VSequence> },
}

/// The model of a sequence.
pub struct VSequence {
    pub pre: FactPairs,
    pub tasks: Seq<VNode>,
}

pub open spec fn node_view(n: Node) -> VNode
    decreases n, 0int,
{
    match n {
        Node::Task(t) => VNode::Task {
            pre: pairs_view(t.preconditions@),
            effects: pairs_view(t.effects@),
            operator: t.operator@,
        },
        Node::Selector(s) => VNode::Selector {
            pre: pairs_view(s.preconditions@),
            sequences: sequences_view(s.sequences@),
        },
    }
}

pub open spec fn nodes_view(s: Seq<Node>) -> Seq<VNode>
    decreases s, 1int,
{
    if s.len() == 0 {
        Seq::empty()
    } else {
        nodes_view(s.drop_last()).push(node_view(s.last()))
    }
}

pub open spec fn sequence_view(q: Sequence) -> VSequence
    decreases q, 0int,
{
    VSequence { pre: pairs_view(q.preconditions@), tasks: nodes_view(q.tasks@) }
}

pub open spec fn sequences_view(s: Seq<Sequence>) -> Seq<VSequence>
    decreases s, 1int,
{
    if s.len() == 0 {
        Seq::empty()
    } else {
        sequences_view(s.drop_last()).push(sequence_view(s.last()))
    }
}

impl View for Node {
    type V = VNode;

    open spec fn view(&self) -> VNode {
        node_view(*self)
    }
}

impl View for Sequence {
    type V = VSequence;

    open spec fn view(&self) -> VSequence {
        sequence_view(*self)
    }
}

impl View for Selector {
    type V = VNode;

    open spec fn view(&self) -> VNode {
        VNode::Selector {
            pre: pairs_view(self.preconditions@),
            sequences: sequences_view(self.sequences@),
        }
    }
}

impl View for Task {
    type V = VNode;

    open spec fn view(&self) -> VNode {
        VNode::Task {
            pre: pairs_view(self.preconditions@),
            effects: pairs_view(self.effects@),
            operator: self.operator@,
        }
    }
}

pub proof fn lemma_nodes_view(s: Seq<Node>)
    ensures
        nodes_view(s).len() == s.len(),
        forall|i: int| 0 <= i < s.len() ==> #[trigger] nodes_view(s)[i] == node_view(s[i]),
    decreases s.len(),
{
    if s.len() > 0 {
        lemma_nodes_view(s.drop_last());
        assert forall|i: int| 0 <= i < s.len() implies #[trigger] nodes_view(s)[i] == node_view(
            s[i],
        ) by {
            if i < s.len() - 1 {
                assert(nodes_view(s.drop_last())[i] == node_view(s.drop_last()[i]));
            }
        }
    }
}

pub proof fn lemma_sequences_view(s: Seq<Sequence>)
    ensures
        sequences_view(s).len() == s.len(),
        forall|i: int| 0 <= i < s.len() ==> #[trigger] sequences_view(s)[i] == sequence_view(s[i]),
    decreases s.len(),
{
    if s.len() > 0 {
        lemma_sequences_view(s.drop_last());
        assert forall|i: int| 0 <= i < s.len() implies #[trigger] sequences_view(s)[i]
            == sequence_view(s[i]) by {
            if i < s.len() - 1 {
                assert(sequences_view(s.drop_last())[i] == sequence_view(s.drop_last()[i]));
            }
        }
    }
}

/// The preconditions of a node.
pub open spec fn node_pre(n: VNode) -> FactPairs {
    match n {
        VNode::Task { pre, .. } => pre,
        VNode::Selector { pre, .. } => pre,
    }
}

/// What planning a node gives: its operators, in order, and the facts it
/// leaves. The node's own preconditions are tested by its parent.
pub open spec fn decompose_node(n: VNode, f: Facts) -> (Seq<Seq<char>>, Facts)
    decreases n, 0int,
{
    match n {
        VNode::Task { effects, operator, .. } => (seq![operator], with_effects(effects, f)),
        VNode::Selector { sequences, .. } => select_first(sequences, f),
    }
}

/// A selector tries its first sequence only: that sequence's plan if its
/// preconditions hold and it plans something, else nothing, on the facts as
/// they were.
pub open spec fn select_first(qs: Seq<VSequence>, f: Facts) -> (Seq<Seq<char>>, Facts)
    decreases qs, 0int,
{
    if qs.len() == 0 {
        (Seq::empty(), f)
    } else if !met(qs[0].pre, f) {
        (Seq::empty(), f)
    } else {
        let (ops, b) = decompose_sequence(qs[0], f);
        if ops.len() == 0 {
            (Seq::empty(), f)
        } else {
            (ops, b)
        }
    }
}

/// A sequence plans its tasks in turn.
pub open spec fn decompose_sequence(q: VSequence, f: Facts) -> (Seq<Seq<char>>, Facts)
    decreases q, 0int,
{
    sequence_from(q.tasks, 0, f, Seq::empty(), f)
}

/// The tasks from index `i` on, each tested and planned on the facts the
/// sequence started with: `acc` holds the operators gathered so far and
/// `last` the facts the latest task left. A task whose preconditions fail ends
/// the sequence with what was gathered, on the starting facts; a task that
/// plans nothing ends it with nothing; at the end come all the operators with
/// the facts the last task left.
pub open spec fn sequence_from(
    ts: Seq<VNode>,
    i: int,
    f: Facts,
    acc: Seq<Seq<char>>,
    last: Facts,
) -> (Seq<Seq<char>>, Facts)
    decreases ts, ts.len() - i,
{
    if i < 0 || i >= ts.len() {
        (acc, last)
    } else if !met(node_pre(ts[i]), f) {
        (acc, f)
    } else {
        let (c, b) = decompose_node(ts[i], f);
        if c.len() == 0 {
            (Seq::empty(), f)
        } else {
            sequence_from(ts, i + 1, f, acc + c, b)
        }
    }
}

/// A task that is met but plans nothing makes its whole sequence plan
/// nothing, on the facts as given, provided every task before it is met.
pub proof fn law_sequence_empty_task_empties(q: VSequence, f: Facts, i: int)
    requires
        0 <= i < q.tasks.len(),
        forall|j: int| 0 <= j <= i ==> met(node_pre(#[trigger] q.tasks[j]), f),
        decompose_node(q.tasks[i], f).0.len() == 0,
    ensures
        decompose_sequence(q, f) == (Seq::<Seq<char>>::empty(), f),
{
    lemma_sequence_from_empty_task(q.tasks, 0, i, f, Seq::empty(), f);
}

proof fn lemma_sequence_from_empty_task(
    ts: Seq<VNode>,
    k: int,
    i: int,
    f: Facts,
    acc: Seq<Seq<char>>,
    last: Facts,
)
    requires
        0 <= k <= i < ts.len(),
        forall|j: int| k <= j <= i ==> met(node_pre(#[trigger] ts[j]), f),
        decompose_node(ts[i], f).0.len() == 0,
    ensures
        sequence_from(ts, k, f, acc, last) == (Seq::<Seq<char>>::empty(), f),
    decreases i - k,
{
    assert(met(node_pre(ts[k]), f));
    if k < i {
        let (c, b) = decompose_node(ts[k], f);
        if c.len() > 0 {
            lemma_sequence_from_empty_task(ts, k + 1, i, f, acc + c, b);
        }
    }
}

/// A selector looks at its first sequence only: the sequences after it never
/// change what it plans.
pub proof fn law_selector_first_sequence_only(qs: Seq<VSequence>, f: Facts)
    ensures
        qs.len() > 0 ==> select_first(qs, f) == select_first(seq![qs[0]], f),
{
    if qs.len() > 0 {
        assert(seq![qs[0]][0] == qs[0]);
    }
}

/// Where a node plans nothing, the facts it gives back are those it was given.
pub proof fn law_no_plan_no_change(n: VNode, f: Facts)
    ensures
        decompose_node(n, f).0.len() == 0 ==> decompose_node(n, f).1 == f,
{
}

/// Where a sequence plans nothing, the facts it gives back are those it was
/// given.
pub proof fn law_sequence_no_plan_no_change(q: VSequence, f: Facts)
    ensures
        decompose_sequence(q, f).0.len() == 0 ==> decompose_sequence(q, f).1 == f,
{
    lemma_sequence_from_no_plan(q.tasks, 0, f, Seq::empty(), f);
}

proof fn lemma_sequence_from_no_plan(
    ts: Seq<VNode>,
    i: int,
    f: Facts,
    acc: Seq<Seq<char>>,
    last: Facts,
)
    requires
        acc.len() == 0 ==> last == f,
    ensures
        sequence_from(ts, i, f, acc, last).0.len() == 0 ==> sequence_from(ts, i, f, acc, last).1
            == f,
    decreases ts.len() - i,
{
    if 0 <= i < ts.len() && met(node_pre(ts[i]), f) {
        let (c, b) = decompose_node(ts[i], f);
        if c.len() > 0 {
            lemma_sequence_from_no_plan(ts, i + 1, f, acc + c, b);
        }
    }
}

/// A sequence whose tasks all hold their preconditions and each plan something
/// plans their operators one after another, each task planned on the facts
/// the sequence started with, and leaves the facts the last task left.
pub proof fn law_sequence_joins_plans(q: VSequence, f: Facts)
    requires
        q.tasks.len() > 0,
        forall|i: int| 0 <= i < q.tasks.len() ==> met(node_pre(#[trigger] q.tasks[i]), f),
        forall|i: int| 0 <= i < q.tasks.len() ==> #[trigger] decompose_node(q.tasks[i], f).0.len() > 0,
    ensures
        decompose_sequence(q, f) == (
            joined(q.tasks, f, q.tasks.len() as int),
            decompose_node(q.tasks.last(), f).1,
        ),
{
    lemma_sequence_from_joins(q.tasks, 0, f, Seq::empty(), f);
    assert(joined(q.tasks, f, 0) =~= Seq::empty());
}

/// The operators that the first `n` tasks plan, each on the facts `f`, one
/// after another.
pub open spec fn joined(ts: Seq<VNode>, f: Facts, n: int) -> Seq<Seq<char>>
    decreases n,
{
    if n <= 0 {
        Seq::empty()
    } else {
        joined(ts, f, n - 1) + decompose_node(ts[n - 1], f).0
    }
}

proof fn lemma_sequence_from_joins(
    ts: Seq<VNode>,
    i: int,
    f: Facts,
    acc: Seq<Seq<char>>,
    last: Facts,
)
    requires
        0 <= i < ts.len(),
        acc == joined(ts, f, i),
        forall|j: int| 0 <= j < ts.len() ==> met(node_pre(#[trigger] ts[j]), f),
        forall|j: int| 0 <= j < ts.len() ==> #[trigger] decompose_node(ts[j], f).0.len() > 0,
    ensures
        sequence_from(ts, i, f, acc, last) == (
            joined(ts, f, ts.len() as int),
            decompose_node(ts.last(), f).1,
        ),
    decreases ts.len() - i,
{
    let (c, b) = decompose_node(ts[i], f);
    assert(met(node_pre(ts[i]), f));
    assert(c.len() > 0);
    assert(joined(ts, f, i + 1) == joined(ts, f, i) + c);
    assert(ts.last() == ts[ts.len() - 1]);
    if i + 1 < ts.len() {
        lemma_sequence_from_joins(ts, i + 1, f, acc + c, b);
    }
}

impl Task {
    /// Whether the task's preconditions hold.
    pub fn is_met(&self, facts: &FactBoard) -> (r: bool)
        ensures
            r == met(pairs_view(self.preconditions@), facts@),
    {
        is_met(&self.preconditions, facts)
    }

    /// Plans the task: its operator, with its effects set on a copy of the
    /// facts.
    pub fn decompose(&self, facts: &FactBoard) -> (r: (Vec<String>, FactBoard))
        ensures
            (strings_view(r.0@), r.1@) == decompose_node(self@, facts@),
    {
        let mut board = facts.duplicate();
        let mut i: usize = 0;
        while i < self.effects.len()
            invariant
                i <= self.effects@.len(),
                board@ == with_effects(pairs_view(self.effects@).take(i as int), facts@),
            decreases self.effects@.len() - i,
        {
            board.set(self.effects[i].0.clone(), self.effects[i].1);
            proof {
                let e = pairs_view(self.effects@);
                assert(e.take(i + 1).drop_last() =~= e.take(i as int));
            }
            i += 1;
        }
        proof {
            let e = pairs_view(self.effects@);
            assert(e.take(e.len() as int) =~= e);
        }
        let ops = vec![self.operator.clone()];
        proof {
            assert(strings_view(ops@) =~= seq![self.operator@]);
        }
        (ops, board)
    }
}

impl Node {
    /// The node's preconditions.
    pub fn preconditions(&self) -> (r: &Vec<(String, bool)>)
        ensures
            pairs_view(r@) == node_pre(self@),
    {
        match self {
            Node::Task(t) => &t.preconditions,
            Node::Selector(s) => &s.preconditions,
        }
    }

    /// Whether the node's preconditions hold.
    pub fn is_met(&self, facts: &FactBoard) -> (r: bool)
        ensures
            r == met(node_pre(self@), facts@),
    {
        is_met(self.preconditions(), facts)
    }

    /// Plans the node.
    pub fn decompose(&self, facts: &FactBoard) -> (r: (Vec<String>, FactBoard))
        ensures
            (strings_view(r.0@), r.1@) == decompose_node(self@, facts@),
        decreases self, 2int,
    {
        match self {
            Node::Task(t) => t.decompose(facts),
            Node::Selector(s) => s.decompose(facts),
        }
    }
}

impl Selector {
    /// Whether the selector's preconditions hold.
    pub fn is_met(&self, facts: &FactBoard) -> (r: bool)
        ensures
            r == met(pairs_view(self.preconditions@), facts@),
    {
        is_met(&self.preconditions, facts)
    }

    /// Plans the first sequence, if its preconditions hold and it plans
    /// something; otherwise nothing, on the facts as they were.
    pub fn decompose(&self, facts: &FactBoard) -> (r: (Vec<String>, FactBoard))
        ensures
            (strings_view(r.0@), r.1@) == decompose_node(self@, facts@),
        decreases self, 1int,
    {
        proof {
            lemma_sequences_view(self.sequences@);
        }
        if self.sequences.len() == 0 {
            return (Vec::new(), facts.duplicate());
        }
        let first = &self.sequences[0];
        if !first.is_met(facts) {
            return (Vec::new(), facts.duplicate());
        }
        let (ops, board) = first.decompose(facts);
        if ops.len() == 0 {
            proof {
                assert(strings_view(ops@).len() == 0);
            }
            (Vec::new(), facts.duplicate())
        } else {
            (ops, board)
        }
    }
}

impl Sequence {
    /// Whether the sequence's preconditions hold.
    pub fn is_met(&self, facts: &FactBoard) -> (r: bool)
        ensures
            r == met(self@.pre, facts@),
    {
        is_met(&self.preconditions, facts)
    }

    /// Plans the tasks in turn, each on the facts the sequence started with.
    pub fn decompose(&self, facts: &FactBoard) -> (r: (Vec<String>, FactBoard))
        ensures
            (strings_view(r.0@), r.1@) == decompose_sequence(self@, facts@),
        decreases self, 0int,
    {
        proof {
            lemma_nodes_view(self.tasks@);
        }
        let ghost ts = nodes_view(self.tasks@);
        let mut ops: Vec<String> = Vec::new();
        let mut last = facts.duplicate();
        let mut i: usize = 0;
        while i < self.tasks.len()
            invariant
                i <= self.tasks@.len(),
                ts == nodes_view(self.tasks@),
                ts.len() == self.tasks@.len(),
                forall|j: int| 0 <= j < self.tasks@.len() ==> #[trigger] ts[j] == node_view(self.tasks@[j]),
                sequence_from(ts, i as int, facts@, strings_view(ops@), last@) == decompose_sequence(
                    self@,
                    facts@,
                ),
            decreases self.tasks@.len() - i,
        {
            let task = &self.tasks[i];
            if !task.is_met(facts) {
                return (ops, facts.duplicate());
            }
            let (c, b) = task.decompose(facts);
            if c.len() == 0 {
                proof {
                    assert(strings_view(c@).len() == 0);
                }
                return (Vec::new(), facts.duplicate());
            }
            append_strings(&mut ops, c);
            last = b;
            i += 1;
        }
        (ops, last)
    }
}

/// Keeps the latest plan of a selector: a plan that comes out empty does not
/// replace the one kept.
pub struct HtnPlanner {
    operators: Vec<String>,
}

impl HtnPlanner {
    /// A planner that keeps no plan yet.
    pub fn new() -> (p: Self)
        ensures
            strings_view(p.kept()@) == Seq::<Seq<char>>::empty(),
    {
        let p = HtnPlanner { operators: Vec::new() };
        proof {
            assert(strings_view(p.operators@) =~= Seq::<Seq<char>>::empty());
        }
        p
    }

    pub closed spec fn kept(&self) -> Vec<String> {
        self.operators
    }

    /// The plan kept.
    pub fn operators(&self) -> (r: &Vec<String>)
        ensures
            r == self.kept(),
    {
        &self.operators
    }

    /// Plans the selector on the facts and keeps the plan, unless it is empty.
    pub fn plan(&mut self, selector: &Selector, facts: &FactBoard)
        ensures
            strings_view(final(self).kept()@) == (if decompose_node(selector@, facts@).0.len() > 0 {
                decompose_node(selector@, facts@).0
            } else {
                strings_view(old(self).kept()@)
            }),
    {
        let (operators, _facts) = selector.decompose(facts);
        if operators.len() > 0 {
            self.operators = operators;
        }
    }
}

} // verus!
