use vstd::prelude::*;

use crate::blackboard::{Blackboard, BoardView};
use crate::text::{lex_order, Order};
use crate::value::{
    models, total, value_eq, value_order, ArithmeticOp, ComparisonOp, FloatOps, FloatSem, VValue,
    Value,
};

verus! {

broadcast use vstd::string::group_string_axioms;

/// A test on the blackboard.
#[derive(Debug, PartialEq)]
pub enum Condition {
    Compare { blackboard_key: String, op: ComparisonOp, value: Value },
    All(Vec<Condition>),
    Any(Vec<Condition>),
    Not(Box<Condition>),
}

/// The model of a `Condition`.
pub enum VCondition {
    Compare { key: Seq<char>, op: ComparisonOp, value: VValue },
    All(Seq<VCondition>),
    Any(Seq<VCondition>),
    Not(Box<VCondition>),
}

pub open spec fn conds_view(s: Seq<Condition>) -> Seq<VCondition>
    decreases s, 1int,
{
    if s.len() == 0 {
        Seq::empty()
    } else {
        conds_view(s.drop_last()).push(cond_view(s.last()))
    }
}

pub open spec fn cond_view(c: Condition) -> VCondition
    decreases c, 0int,
{
    match c {
        Condition::Compare { blackboard_key, op, value } => VCondition::Compare {
            key: blackboard_key@,
            op,
            value: value@,
        },
        Condition::All(v) => VCondition::All(conds_view(v@)),
        Condition::Any(v) => VCondition::Any(conds_view(v@)),
        Condition::Not(b) => VCondition::Not(Box::new(cond_view(*b))),
    }
}

impl View for Condition {
    type V = VCondition;

    open spec fn view(&self) -> VCondition {
        cond_view(*self)
    }
}

/// The view of a sequence of conditions has the same length, and holds the view
/// of each.
pub proof fn lemma_conds_view(s: Seq<Condition>)
    ensures
        conds_view(s).len() == s.len(),
        forall|i: int| 0 <= i < s.len() ==> #[trigger] conds_view(s)[i] == cond_view(s[i]),
    decreases s.len(),
{
    if s.len() > 0 {
        lemma_conds_view(s.drop_last());
        assert forall|i: int| 0 <= i < s.len() implies #[trigger] conds_view(s)[i] == cond_view(
            s[i],
        ) by {
            if i < s.len() - 1 {
                assert(conds_view(s.drop_last())[i] == cond_view(s.drop_last()[i]));
            }
        }
    }
}

/// Whether `op` holds between the blackboard's value `left` and the
/// condition's value `right`.
pub open spec fn comparison_holds(op: ComparisonOp, left: VValue, right: VValue, sem: FloatSem) -> bool {
    match op {
        ComparisonOp::E => value_eq(left, right, sem),
        ComparisonOp::NE => !value_eq(left, right, sem),
        ComparisonOp::LT => value_order(left, right, sem) == Some(Order::Less),
        ComparisonOp::GT => value_order(left, right, sem) == Some(Order::Greater),
        ComparisonOp::GTE => value_order(left, right, sem) == Some(Order::Greater)
            || value_order(left, right, sem) == Some(Order::Equal),
        ComparisonOp::LTE => value_order(left, right, sem) == Some(Order::Less)
            || value_order(left, right, sem) == Some(Order::Equal),
    }
}

/// Whether a condition holds on a blackboard. A comparison on a key that holds
/// nothing is false, except an `==` comparison, which is true: a fact that the
/// blackboard does not know does not hold back an action that asks for it to
/// equal something, while every other comparison needs a value to compare.
/// `All` of nothing is true and `Any` of nothing is false.
pub open spec fn holds(c: VCondition, data: BoardView, sem: FloatSem) -> bool
    decreases c, 0int,
{
    match c {
        VCondition::Compare { key, op, value } => if !data.contains_key(key) {
            op == ComparisonOp::E
        } else {
            comparison_holds(op, data[key], value, sem)
        },
        VCondition::All(cs) => all_hold(cs, data, sem),
        VCondition::Any(cs) => any_holds(cs, data, sem),
        VCondition::Not(b) => !holds(*b, data, sem),
    }
}

/// Every condition of `cs` holds.
pub open spec fn all_hold(cs: Seq<VCondition>, data: BoardView, sem: FloatSem) -> bool
    decreases cs, 1int,
{
    if cs.len() == 0 {
        true
    } else {
        all_hold(cs.drop_last(), data, sem) && holds(cs.last(), data, sem)
    }
}

/// Some condition of `cs` holds.
pub open spec fn any_holds(cs: Seq<VCondition>, data: BoardView, sem: FloatSem) -> bool
    decreases cs, 1int,
{
    if cs.len() == 0 {
        false
    } else {
        any_holds(cs.drop_last(), data, sem) || holds(cs.last(), data, sem)
    }
}

/// `all_hold` is that every element holds.
pub proof fn lemma_all_hold(cs: Seq<VCondition>, data: BoardView, sem: FloatSem)
    ensures
        all_hold(cs, data, sem) == forall|i: int| 0 <= i < cs.len() ==> #[trigger] holds(cs[i], data, sem),
    decreases cs.len(),
{
    if cs.len() > 0 {
        lemma_all_hold(cs.drop_last(), data, sem);
        if all_hold(cs, data, sem) {
            assert forall|i: int| 0 <= i < cs.len() implies #[trigger] holds(cs[i], data, sem) by {
                if i < cs.len() - 1 {
                    assert(cs.drop_last()[i] == cs[i]);
                }
            }
        }
        if forall|i: int| 0 <= i < cs.len() ==> #[trigger] holds(cs[i], data, sem) {
            assert forall|i: int| 0 <= i < cs.drop_last().len() implies #[trigger] holds(
                cs.drop_last()[i],
                data,
                sem,
            ) by {
                assert(cs.drop_last()[i] == cs[i]);
            }
            assert(holds(cs[cs.len() - 1], data, sem));
        }
    }
}

/// `any_holds` is that some element holds.
pub proof fn lemma_any_holds(cs: Seq<VCondition>, data: BoardView, sem: FloatSem)
    ensures
        any_holds(cs, data, sem) == exists|i: int| 0 <= i < cs.len() && #[trigger] holds(cs[i], data, sem),
    decreases cs.len(),
{
    if cs.len() > 0 {
        lemma_any_holds(cs.drop_last(), data, sem);
        if any_holds(cs, data, sem) {
            if any_holds(cs.drop_last(), data, sem) {
                let i = choose|i: int| 0 <= i < cs.drop_last().len() && #[trigger] holds(cs.drop_last()[i], data, sem);
                assert(cs.drop_last()[i] == cs[i]);
            } else {
                assert(holds(cs[cs.len() - 1], data, sem));
            }
        }
        if exists|i: int| 0 <= i < cs.len() && #[trigger] holds(cs[i], data, sem) {
            let i = choose|i: int| 0 <= i < cs.len() && #[trigger] holds(cs[i], data, sem);
            if i < cs.len() - 1 {
                assert(cs.drop_last()[i] == cs[i]);
            }
        }
    }
}

/// On a key that the blackboard does not hold, an `==` comparison is true and
/// every other comparison false, whatever the value; negation turns each
/// around.
pub proof fn law_unknown_key(
    key: Seq<char>,
    op: ComparisonOp,
    value: VValue,
    data: BoardView,
    sem: FloatSem,
)
    requires
        !data.contains_key(key),
    ensures
        holds(VCondition::Compare { key, op, value }, data, sem) == (op == ComparisonOp::E),
        holds(VCondition::Not(Box::new(VCondition::Compare { key, op, value })), data, sem) == (op
            != ComparisonOp::E),
{
    let c = VCondition::Compare { key, op, value };
    assert(holds(c, data, sem) == (op == ComparisonOp::E));
    assert(holds(VCondition::Not(Box::new(c)), data, sem) == !holds(c, data, sem));
}

/// `>=` is `>` or equal in the order, and `<=` is `<` or equal in the order,
/// on every pair of values.
pub proof fn law_non_strict_orders(left: VValue, right: VValue, sem: FloatSem)
    ensures
        comparison_holds(ComparisonOp::GTE, left, right, sem) == (comparison_holds(
            ComparisonOp::GT,
            left,
            right,
            sem,
        ) || value_order(left, right, sem) == Some(Order::Equal)),
        comparison_holds(ComparisonOp::LTE, left, right, sem) == (comparison_holds(
            ComparisonOp::LT,
            left,
            right,
            sem,
        ) || value_order(left, right, sem) == Some(Order::Equal)),
        comparison_holds(ComparisonOp::GT, left, right, sem) == (value_order(left, right, sem)
            == Some(Order::Greater)),
        comparison_holds(ComparisonOp::LT, left, right, sem) == (value_order(left, right, sem)
            == Some(Order::Less)),
{
}

/// An int, a bool or a string compares equal to itself, so `>=`, `<=` and
/// `==` hold between it and itself and `>`, `<` and `!=` do not.
pub proof fn law_reflexive_comparisons(v: VValue, sem: FloatSem)
    requires
        v is Int || v is Bool || v is Str,
    ensures
        value_order(v, v, sem) == Some(Order::Equal),
        comparison_holds(ComparisonOp::GTE, v, v, sem),
        comparison_holds(ComparisonOp::LTE, v, v, sem),
        comparison_holds(ComparisonOp::E, v, v, sem),
        !comparison_holds(ComparisonOp::GT, v, v, sem),
        !comparison_holds(ComparisonOp::LT, v, v, sem),
        !comparison_holds(ComparisonOp::NE, v, v, sem),
{
    match v {
        VValue::Str(x) => lemma_lex_order_same(x),
        _ => {},
    }
}

proof fn lemma_lex_order_same(a: Seq<char>)
    ensures
        lex_order(a, a) == Order::Equal,
    decreases a.len(),
{
    if a.len() > 0 {
        lemma_lex_order_same(a.drop_first());
    }
}

/// A `>=` precondition on a key that holds a value equal to the condition's
/// value is met.
pub proof fn law_at_least_equal_value_holds(key: Seq<char>, v: VValue, data: BoardView, sem: FloatSem)
    requires
        data.contains_key(key),
        data[key] == v,
        v is Int || v is Bool || v is Str,
    ensures
        holds(VCondition::Compare { key, op: ComparisonOp::GTE, value: v }, data, sem),
        holds(VCondition::Compare { key, op: ComparisonOp::LTE, value: v }, data, sem),
{
    law_reflexive_comparisons(v, sem);
}

/// Negating twice gives the condition back.
pub proof fn law_double_negation(c: VCondition, data: BoardView, sem: FloatSem)
    ensures
        holds(VCondition::Not(Box::new(VCondition::Not(Box::new(c)))), data, sem) == holds(c, data, sem),
{
    let n = VCondition::Not(Box::new(c));
    assert(holds(n, data, sem) == !holds(c, data, sem));
    assert(holds(VCondition::Not(Box::new(n)), data, sem) == !holds(n, data, sem));
}

/// `All` of no condition holds, and `Any` of no condition does not.
pub proof fn law_empty_groups(data: BoardView, sem: FloatSem)
    ensures
        holds(VCondition::All(Seq::empty()), data, sem),
        !holds(VCondition::Any(Seq::empty()), data, sem),
{
    let e = Seq::<VCondition>::empty();
    assert(all_hold(e, data, sem));
    assert(!any_holds(e, data, sem));
    assert(holds(VCondition::All(e), data, sem) == all_hold(e, data, sem));
    assert(holds(VCondition::Any(e), data, sem) == any_holds(e, data, sem));
}

/// Not all conditions hold exactly when some negated condition holds.
pub proof fn law_de_morgan(cs: Seq<VCondition>, data: BoardView, sem: FloatSem)
    ensures
        holds(VCondition::Not(Box::new(VCondition::All(cs))), data, sem) == holds(
            VCondition::Any(cs.map_values(|c: VCondition| VCondition::Not(Box::new(c)))),
            data,
            sem,
        ),
{
    let ns = cs.map_values(|c: VCondition| VCondition::Not(Box::new(c)));
    lemma_all_hold(cs, data, sem);
    lemma_any_holds(ns, data, sem);
    assert(holds(VCondition::All(cs), data, sem) == all_hold(cs, data, sem));
    assert(holds(VCondition::Not(Box::new(VCondition::All(cs))), data, sem) == !holds(
        VCondition::All(cs),
        data,
        sem,
    ));
    assert(holds(VCondition::Any(ns), data, sem) == any_holds(ns, data, sem));
    assert forall|i: int| 0 <= i < cs.len() implies #[trigger] holds(ns[i], data, sem) == !holds(
        cs[i],
        data,
        sem,
    ) by {
        assert(ns[i] == VCondition::Not(Box::new(cs[i])));
    }
    if !all_hold(cs, data, sem) {
        let i = choose|i: int| 0 <= i < cs.len() && !#[trigger] holds(cs[i], data, sem);
        assert(holds(ns[i], data, sem));
    }
    if any_holds(ns, data, sem) {
        let i = choose|i: int| 0 <= i < ns.len() && #[trigger] holds(ns[i], data, sem);
        assert(!holds(cs[i], data, sem));
    }
}

impl Condition {
    /// A comparison of what `key` holds with `value`.
    pub fn compare(key: &str, op: ComparisonOp, value: Value) -> (r: Condition)
        ensures
            r@ == (VCondition::Compare { key: key@, op, value: value@ }),
    {
        let k = key.to_string();
        Condition::Compare { blackboard_key: k, op, value }
    }
}

/// Whether `op` holds between `left` and `right`.
fn comparison_ok<C, A>(op: ComparisonOp, left: &Value, right: &Value, ops: &FloatOps<C, A>) -> (r: bool) where
    C: Fn(&Value, &Value) -> Option<Order>,
    A: Fn(ArithmeticOp, &Value, &Value) -> String,

    requires
        total(*ops),
    ensures
        forall|sem: FloatSem| #[trigger] models(*ops, sem) ==> r == comparison_holds(op, left@, right@, sem),
{
    match op {
        ComparisonOp::E => left.equals(right, ops),
        ComparisonOp::NE => !left.equals(right, ops),
        ComparisonOp::LT => match left.compare(right, ops) {
            Some(Order::Less) => true,
            _ => false,
        },
        ComparisonOp::GT => match left.compare(right, ops) {
            Some(Order::Greater) => true,
            _ => false,
        },
        ComparisonOp::GTE => match left.compare(right, ops) {
            Some(Order::Greater) | Some(Order::Equal) => true,
            _ => false,
        },
        ComparisonOp::LTE => match left.compare(right, ops) {
            Some(Order::Less) | Some(Order::Equal) => true,
            _ => false,
        },
    }
}

/// Whether `cond` holds on `data`, with floats handled by `ops`.
pub fn eval<C, A>(cond: &Condition, data: &Blackboard, ops: &FloatOps<C, A>) -> (r: bool) where
    C: Fn(&Value, &Value) -> Option<Order>,
    A: Fn(ArithmeticOp, &Value, &Value) -> String,

    requires
        total(*ops),
        data.wf(),
    ensures
        forall|sem: FloatSem| #[trigger] models(*ops, sem) ==> r == holds(cond@, data@, sem),
    decreases cond,
{
    match cond {
        Condition::Compare { blackboard_key, op, value } => {
            match data.get(blackboard_key) {
                None => match op {
                    ComparisonOp::E => true,
                    _ => false,
                },
                Some(left) => comparison_ok(*op, left, value, ops),
            }
        },
        Condition::All(cs) => {
            proof {
                lemma_conds_view(cs@);
            }
            let mut i: usize = 0;
            while i < cs.len()
                invariant
                    total(*ops),
                    data.wf(),
                    cond@ == VCondition::All(conds_view(cs@)),
                    *cond == Condition::All(*cs),
                    i <= cs@.len(),
                    conds_view(cs@).len() == cs@.len(),
                    forall|j: int| 0 <= j < cs@.len() ==> #[trigger] conds_view(cs@)[j] == cond_view(cs@[j]),
                    forall|sem: FloatSem| #[trigger]
                        models(*ops, sem) ==> all_hold(conds_view(cs@).take(i as int), data@, sem),
                decreases cs@.len() - i,
            {
                proof {
                    assert(decreases_to!(*cond => *cs));
                    assert(decreases_to!(*cs => cs@));
                    assert(decreases_to!(cs@ => cs@[i as int]));
                }
                let ok = eval(&cs[i], data, ops);
                if !ok {
                    proof {
                        assert forall|sem: FloatSem| #[trigger] models(*ops, sem) implies !all_hold(
                            conds_view(cs@),
                            data@,
                            sem,
                        ) by {
                            lemma_all_hold(conds_view(cs@), data@, sem);
                            assert(conds_view(cs@)[i as int] == cs@[i as int]@);
                        }
                    }
                    return false;
                }
                proof {
                    assert forall|sem: FloatSem| #[trigger] models(*ops, sem) implies all_hold(
                        conds_view(cs@).take(i + 1),
                        data@,
                        sem,
                    ) by {
                        assert(conds_view(cs@).take(i + 1).drop_last() =~= conds_view(cs@).take(
                            i as int,
                        ));
                        assert(conds_view(cs@)[i as int] == cs@[i as int]@);
                    }
                }
                i = i + 1;
            }
            assert(conds_view(cs@).take(i as int) =~= conds_view(cs@));
            true
        },
        Condition::Any(cs) => {
            proof {
                lemma_conds_view(cs@);
            }
            let mut i: usize = 0;
            while i < cs.len()
                invariant
                    total(*ops),
                    data.wf(),
                    cond@ == VCondition::Any(conds_view(cs@)),
                    *cond == Condition::Any(*cs),
                    i <= cs@.len(),
                    conds_view(cs@).len() == cs@.len(),
                    forall|j: int| 0 <= j < cs@.len() ==> #[trigger] conds_view(cs@)[j] == cond_view(cs@[j]),
                    forall|sem: FloatSem| #[trigger]
                        models(*ops, sem) ==> !any_holds(conds_view(cs@).take(i as int), data@, sem),
                decreases cs@.len() - i,
            {
                proof {
                    assert(decreases_to!(*cond => *cs));
                    assert(decreases_to!(*cs => cs@));
                    assert(decreases_to!(cs@ => cs@[i as int]));
                }
                let ok = eval(&cs[i], data, ops);
                if ok {
                    proof {
                        assert forall|sem: FloatSem| #[trigger] models(*ops, sem) implies any_holds(
                            conds_view(cs@),
                            data@,
                            sem,
                        ) by {
                            lemma_any_holds(conds_view(cs@), data@, sem);
                            assert(conds_view(cs@)[i as int] == cs@[i as int]@);
                        }
                    }
                    return true;
                }
                proof {
                    assert forall|sem: FloatSem| #[trigger] models(*ops, sem) implies !any_holds(
                        conds_view(cs@).take(i + 1),
                        data@,
                        sem,
                    ) by {
                        assert(conds_view(cs@).take(i + 1).drop_last() =~= conds_view(cs@).take(
                            i as int,
                        ));
                        assert(conds_view(cs@)[i as int] == cs@[i as int]@);
                    }
                }
                i = i + 1;
            }
            assert(conds_view(cs@).take(i as int) =~= conds_view(cs@));
            false
        },
        Condition::Not(c) => !eval(c, data, ops),
    }
}

/// Whether every precondition holds on `data`.
pub fn is_met<C, A>(preconditions: &Vec<Condition>, data: &Blackboard, ops: &FloatOps<C, A>) -> (r: bool) where
    C: Fn(&Value, &Value) -> Option<Order>,
    A: Fn(ArithmeticOp, &Value, &Value) -> String,

    requires
        total(*ops),
        data.wf(),
    ensures
        forall|sem: FloatSem| #[trigger] models(*ops, sem) ==> r == all_hold(
            conds_view(preconditions@),
            data@,
            sem,
        ),
{
    proof {
        lemma_conds_view(preconditions@);
    }
    let mut i: usize = 0;
    while i < preconditions.len()
        invariant
            total(*ops),
            data.wf(),
            i <= preconditions@.len(),
            conds_view(preconditions@).len() == preconditions@.len(),
            forall|j: int| 0 <= j < preconditions@.len() ==> #[trigger] conds_view(preconditions@)[j] == cond_view(preconditions@[j]),
            forall|sem: FloatSem| #[trigger]
                models(*ops, sem) ==> all_hold(conds_view(preconditions@).take(i as int), data@, sem),
        decreases preconditions@.len() - i,
    {
        let ok = eval(&preconditions[i], data, ops);
        if !ok {
            proof {
                assert forall|sem: FloatSem| #[trigger] models(*ops, sem) implies !all_hold(
                    conds_view(preconditions@),
                    data@,
                    sem,
                ) by {
                    lemma_all_hold(conds_view(preconditions@), data@, sem);
                    assert(conds_view(preconditions@)[i as int] == preconditions@[i as int]@);
                }
            }
            return false;
        }
        proof {
            assert forall|sem: FloatSem| #[trigger] models(*ops, sem) implies all_hold(
                conds_view(preconditions@).take(i + 1),
                data@,
                sem,
            ) by {
                assert(conds_view(preconditions@).take(i + 1).drop_last() =~= conds_view(preconditions@).take(i as int));
                assert(conds_view(preconditions@)[i as int] == preconditions@[i as int]@);
            }
        }
        i = i + 1;
    }
    assert(conds_view(preconditions@).take(i as int) =~= conds_view(preconditions@));
    true
}

} // verus!
