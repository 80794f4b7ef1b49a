use vstd::prelude::*;

use crate::blackboard::{Blackboard, BoardView};
use crate::text::Order;
use crate::value::{arith_result, models, total, ArithmeticOp, FloatOps, FloatSem, VValue, Value};

verus! {

broadcast use vstd::string::group_string_axioms;

/// A change that an action makes to the blackboard: `key op= value`.
#[derive(Debug, Clone, PartialEq)]
pub struct Effect {
    blackboard_key: String,
    op: ArithmeticOp,
    value: Value,
}

/// The model of an `Effect`.
pub struct VEffect {
    pub key: Seq<char>,
    pub op: ArithmeticOp,
    pub value: VValue,
}

impl View for Effect {
    type V = VEffect;

    closed spec fn view(&self) -> VEffect {
        VEffect { key: self.blackboard_key@, op: self.op, value: self.value@ }
    }
}

/// The blackboard after one effect, or `None` where applying it panics.
/// `Eq` stores the value; the other operators combine what the key holds with
/// the value, and change nothing where the key holds nothing.
pub open spec fn effect_result(e: VEffect, data: BoardView, sem: FloatSem) -> Option<BoardView> {
    if e.op == ArithmeticOp::Eq {
        Some(data.insert(e.key, e.value))
    } else if !data.contains_key(e.key) {
        Some(data)
    } else {
        match arith_result(e.op, data[e.key], e.value, sem) {
            Some(v) => Some(data.insert(e.key, v)),
            None => None,
        }
    }
}

/// The blackboard after the effects, applied in order, or `None` where one
/// of them panics.
pub open spec fn effects_result(es: Seq<VEffect>, data: BoardView, sem: FloatSem) -> Option<BoardView>
    decreases es.len(),
{
    if es.len() == 0 {
        Some(data)
    } else {
        match effects_result(es.drop_last(), data, sem) {
            Some(d) => effect_result(es.last(), d, sem),
            None => None,
        }
    }
}

pub open spec fn effects_view(es: Seq<Effect>) -> Seq<VEffect> {
    es.map_values(|e: Effect| e@)
}

/// An `=` effect stores its value under its key, whatever the key held.
pub proof fn law_assignment_stores(key: Seq<char>, value: VValue, data: BoardView, sem: FloatSem)
    ensures
        effect_result(VEffect { key, op: ArithmeticOp::Eq, value }, data, sem) == Some(
            data.insert(key, value),
        ),
{
}

/// An arithmetic effect on a key that holds nothing changes nothing.
pub proof fn law_missing_key_unchanged(e: VEffect, data: BoardView, sem: FloatSem)
    requires
        e.op != ArithmeticOp::Eq,
        !data.contains_key(e.key),
    ensures
        effect_result(e, data, sem) == Some(data),
{
}

/// An arithmetic effect with a float value on a key that holds an int stores
/// the float that the float semantics computes from the two.
pub proof fn law_int_with_float_effect(e: VEffect, data: BoardView, sem: FloatSem, x: i32)
    requires
        e.op != ArithmeticOp::Eq,
        e.value is Float,
        data.contains_key(e.key),
        data[e.key] == VValue::Int(x),
    ensures
        effect_result(e, data, sem) == Some(
            data.insert(e.key, VValue::Float((sem.arith)(e.op, VValue::Int(x), e.value))),
        ),
{
    crate::value::law_mixed_arithmetic_is_float(e.op, x, e.value->Float_0, sem);
}

impl Effect {
    /// The effect `key op= value`.
    pub fn new(key: &str, op: ArithmeticOp, value: Value) -> (r: Effect)
        ensures
            r@ == (VEffect { key: key@, op, value: value@ }),
    {
        Effect { blackboard_key: key.to_string(), op, value }
    }

    /// Applies the effect; `false` where its int arithmetic overflows or divides
    /// by zero, and then `data` is left as it was.
    pub fn try_apply<C, A>(&self, data: &mut Blackboard, ops: &FloatOps<C, A>) -> (ok: bool) where
        C: Fn(&Value, &Value) -> Option<Order>,
        A: Fn(ArithmeticOp, &Value, &Value) -> String,

        requires
            total(*ops),
            old(data).wf(),
        ensures
            final(data).wf(),
            forall|sem: FloatSem| #[trigger]
                models(*ops, sem) ==> match effect_result(self@, old(data)@, sem) {
                    Some(d) => ok && final(data)@ == d,
                    None => !ok && final(data)@ == old(data)@,
                },
    {
        match self.op {
            ArithmeticOp::Eq => {
                data.insert(self.blackboard_key.clone(), self.value.duplicate());
                true
            },
            op => {
                let next = match data.get(&self.blackboard_key) {
                    None => {
                        return true;
                    },
                    Some(current) => current.checked_arith(op, &self.value, ops),
                };
                match next {
                    Some(v) => {
                        data.insert(self.blackboard_key.clone(), v);
                        true
                    },
                    None => false,
                }
            },
        }
    }

    /// Applies the effect to `data`.
    pub fn apply<C, A>(&self, data: &mut Blackboard, ops: &FloatOps<C, A>) where
        C: Fn(&Value, &Value) -> Option<Order>,
        A: Fn(ArithmeticOp, &Value, &Value) -> String,

        requires
            total(*ops),
            old(data).wf(),
            forall|sem: FloatSem| #[trigger] models(*ops, sem) ==> effect_result(self@, old(data)@, sem) is Some,
        ensures
            final(data).wf(),
            forall|sem: FloatSem| #[trigger]
                models(*ops, sem) ==> Some(final(data)@) == effect_result(self@, old(data)@, sem),
    {
        let _ = self.try_apply(data, ops);
    }
}

/// Applies the effects in order; `false` where the int arithmetic of one of
/// them overflows or divides by zero, and then `data` holds what the effects
/// before it made.
pub fn try_apply_effects<C, A>(effects: &[Effect], data: &mut Blackboard, ops: &FloatOps<C, A>) -> (ok: bool) where
    C: Fn(&Value, &Value) -> Option<Order>,
    A: Fn(ArithmeticOp, &Value, &Value) -> String,

    requires
        total(*ops),
        old(data).wf(),
    ensures
        final(data).wf(),
        forall|sem: FloatSem| #[trigger]
            models(*ops, sem) ==> (ok <==> effects_result(effects_view(effects@), old(data)@, sem) is Some)
                && (ok ==> Some(final(data)@) == effects_result(effects_view(effects@), old(data)@, sem)),
{
    let ghost start = data@;
    let ghost es = effects_view(effects@);
    let mut i: usize = 0;
    while i < effects.len()
        invariant
            total(*ops),
            data.wf(),
            i <= effects@.len(),
            es == effects_view(effects@),
            es.len() == effects@.len(),
            start == old(data)@,
            forall|sem: FloatSem| #[trigger]
                models(*ops, sem) ==> Some(data@) == effects_result(es.take(i as int), start, sem),
        decreases effects@.len() - i,
    {
        let ghost before = data@;
        let ok = effects[i].try_apply(data, ops);
        proof {
            assert(es.take(i + 1).drop_last() =~= es.take(i as int));
            assert(es.take(i + 1).last() == effects@[i as int]@);
        }
        if !ok {
            proof {
                assert forall|sem: FloatSem| #[trigger] models(*ops, sem) implies effects_result(
                    es,
                    start,
                    sem,
                ) is None by {
                    lemma_effects_prefix_fault(es, i as int + 1, start, sem);
                }
            }
            return false;
        }
        i = i + 1;
    }
    assert(es.take(i as int) =~= es);
    true
}

/// Once a prefix of the effects panics, so do all of them.
proof fn lemma_effects_prefix_fault(es: Seq<VEffect>, n: int, data: BoardView, sem: FloatSem)
    requires
        0 <= n <= es.len(),
        effects_result(es.take(n), data, sem) is None,
    ensures
        effects_result(es, data, sem) is None,
    decreases es.len() - n,
{
    if n < es.len() {
        assert(es.take(n + 1).drop_last() =~= es.take(n));
        lemma_effects_prefix_fault(es, n + 1, data, sem);
    } else {
        assert(es.take(n) =~= es);
    }
}

/// Applies the effects to `data`, in order.
pub fn apply_effects<C, A>(effects: &[Effect], data: &mut Blackboard, ops: &FloatOps<C, A>) where
    C: Fn(&Value, &Value) -> Option<Order>,
    A: Fn(ArithmeticOp, &Value, &Value) -> String,

    requires
        total(*ops),
        old(data).wf(),
        forall|sem: FloatSem| #[trigger]
            models(*ops, sem) ==> effects_result(effects_view(effects@), old(data)@, sem) is Some,
    ensures
        final(data).wf(),
        forall|sem: FloatSem| #[trigger]
            models(*ops, sem) ==> Some(final(data)@) == effects_result(effects_view(effects@), old(data)@, sem),
{
    let _ = try_apply_effects(effects, data, ops);
}

} // verus!
