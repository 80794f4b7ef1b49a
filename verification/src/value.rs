use vstd::prelude::*;

use crate::text::{lex_order, string_order, Order};

verus! {

/// A blackboard value.
///
/// A float is held as the decimal text of the `f32` it stands for (such as
/// `3.5`, `-0.25` or `inf`): the library itself never computes with floats, it
/// hands every float comparison and float arithmetic to a `FloatOps`. A vector
/// is held as the texts of its `f32` coordinates, in the same way. Vectors are
/// stored and read back; they equal nothing, are ordered with nothing, and an
/// arithmetic effect on one leaves it as it was.
#[derive(Debug, Clone, PartialEq)]
pub enum Value {
    Int(i32),
    Float(String),
    Bool(bool),
    String(String),
    Vector3(String, String, String),
    Vector2(String, String),
}

/// The mathematical model of a `Value`.
pub enum VValue {
    Int(i32),
    Float(Seq<char>),
    Bool(bool),
    Str(Seq<char>),
    Vector3(Seq<char>, Seq<char>, Seq<char>),
    Vector2(Seq<char>, Seq<char>),
}

impl View for Value {
    type V = VValue;

    open spec fn view(&self) -> VValue {
        match self {
            Value::Int(i) => VValue::Int(*i),
            Value::Float(s) => VValue::Float(s@),
            Value::Bool(b) => VValue::Bool(*b),
            Value::String(s) => VValue::Str(s@),
            Value::Vector3(x, y, z) => VValue::Vector3(x@, y@, z@),
            Value::Vector2(x, y) => VValue::Vector2(x@, y@),
        }
    }
}

impl From<i32> for Value {
    fn from(v: i32) -> (r: Value) {
        Value::Int(v)
    }
}

impl vstd::std_specs::convert::FromSpecImpl<i32> for Value {
    open spec fn obeys_from_spec() -> bool {
        true
    }

    open spec fn from_spec(v: i32) -> Value {
        Value::Int(v)
    }
}

impl From<bool> for Value {
    fn from(v: bool) -> (r: Value) {
        Value::Bool(v)
    }
}

impl vstd::std_specs::convert::FromSpecImpl<bool> for Value {
    open spec fn obeys_from_spec() -> bool {
        true
    }

    open spec fn from_spec(v: bool) -> Value {
        Value::Bool(v)
    }
}

impl From<String> for Value {
    fn from(v: String) -> (r: Value) {
        Value::String(v)
    }
}

impl vstd::std_specs::convert::FromSpecImpl<String> for Value {
    open spec fn obeys_from_spec() -> bool {
        true
    }

    open spec fn from_spec(v: String) -> Value {
        Value::String(v)
    }
}

/// How an effect changes a blackboard entry.
#[derive(Debug, Clone, Copy, PartialEq, Eq)]
pub enum ArithmeticOp {
    Eq,
    Add,
    Sub,
    Mult,
    Div,
}

/// The comparison of a condition.
#[derive(Debug, Clone, Copy, PartialEq, Eq)]
pub enum ComparisonOp {
    E,
    NE,
    LT,
    GT,
    GTE,
    LTE,
}

/// The float semantics that the library leaves to its caller: `compare` orders
/// two numbers of which at least one is a float (`f32::partial_cmp`, an int
/// first converted with `as f32`), and `arith` computes `op` on two such numbers
/// and gives the decimal text of the `f32` result.
pub struct FloatOps<C, A> {
    pub compare: C,
    pub arith: A,
}

/// A mathematical stand-in for a `FloatOps`: the functions of the operands'
/// values that its two closures compute.
pub struct FloatSem {
    pub order: spec_fn(VValue, VValue) -> Option<Order>,
    pub arith: spec_fn(ArithmeticOp, VValue, VValue) -> Seq<char>,
}

/// `ops` computes `sem`: whatever its closures return is what `sem` gives for
/// the values of their arguments.
pub open spec fn models<C, A>(ops: FloatOps<C, A>, sem: FloatSem) -> bool where
    C: Fn(&Value, &Value) -> Option<Order>,
    A: Fn(ArithmeticOp, &Value, &Value) -> String,
 {
    &&& forall|x: &Value, y: &Value, o: Option<Order>| #[trigger]
        call_ensures(ops.compare, (x, y), o) ==> o == (sem.order)(x@, y@)
    &&& forall|op: ArithmeticOp, x: &Value, y: &Value, o: String| #[trigger]
        call_ensures(ops.arith, (op, x, y), o) ==> o@ == (sem.arith)(op, x@, y@)
}

/// The closures of `ops` accept every argument.
pub open spec fn total<C, A>(ops: FloatOps<C, A>) -> bool where
    C: Fn(&Value, &Value) -> Option<Order>,
    A: Fn(ArithmeticOp, &Value, &Value) -> String,
 {
    &&& forall|x: &Value, y: &Value| #[trigger] call_requires(ops.compare, (x, y))
    &&& forall|op: ArithmeticOp, x: &Value, y: &Value| #[trigger]
        call_requires(ops.arith, (op, x, y))
}

pub open spec fn is_number(v: VValue) -> bool {
    v is Int || v is Float
}

/// Both are numbers and at least one is a float: the float semantics decides.
pub open spec fn float_pair(a: VValue, b: VValue) -> bool {
    is_number(a) && is_number(b) && (a is Float || b is Float)
}

pub open spec fn int_order(a: int, b: int) -> Order {
    if a < b {
        Order::Less
    } else if a == b {
        Order::Equal
    } else {
        Order::Greater
    }
}

pub open spec fn bool_order(a: bool, b: bool) -> Order {
    if a == b {
        Order::Equal
    } else if !a {
        Order::Less
    } else {
        Order::Greater
    }
}

/// `==` on values: equal variants with equal contents; two floats are
/// equal when `f32`'s `==` says so, which is when they compare `Equal`.
pub open spec fn value_eq(a: VValue, b: VValue, sem: FloatSem) -> bool {
    match (a, b) {
        (VValue::Int(x), VValue::Int(y)) => x == y,
        (VValue::Float(_), VValue::Float(_)) => (sem.order)(a, b) == Some(Order::Equal),
        (VValue::Bool(x), VValue::Bool(y)) => x == y,
        (VValue::Str(x), VValue::Str(y)) => x == y,
        _ => false,
    }
}

/// `partial_cmp` on values: bools (`false < true`), ints and strings
/// (lexicographic by character) among themselves; numbers with a float through
/// the float semantics; any other pair is unordered.
pub open spec fn value_order(a: VValue, b: VValue, sem: FloatSem) -> Option<Order> {
    match (a, b) {
        (VValue::Bool(x), VValue::Bool(y)) => Some(bool_order(x, y)),
        (VValue::Int(x), VValue::Int(y)) => Some(int_order(x as int, y as int)),
        (VValue::Str(x), VValue::Str(y)) => Some(lex_order(x, y)),
        _ => if float_pair(a, b) {
            (sem.order)(a, b)
        } else {
            None
        },
    }
}

/// `a / b` on `i32`, rounding toward zero.
pub open spec fn trunc_div(a: int, b: int) -> int {
    let q: int = vstd::math::abs(a) as int / vstd::math::abs(b) as int;
    if (a >= 0) == (b > 0) || a == 0 {
        q
    } else {
        -q
    }
}

/// The exact result of `op` on two ints, before it is checked against `i32`.
pub open spec fn int_result(op: ArithmeticOp, a: int, b: int) -> int {
    match op {
        ArithmeticOp::Add => a + b,
        ArithmeticOp::Sub => a - b,
        ArithmeticOp::Mult => a * b,
        _ => trunc_div(a, b),
    }
}

pub open spec fn fits_i32(x: int) -> bool {
    i32::MIN <= x <= i32::MAX
}

/// What `a op b` gives for the arithmetic operators (`+ - * /` on `&Value`),
/// or `None` where it panics: int overflow and int division by zero.
/// Numbers with a float give a float through the float semantics; any other
/// pair gives the left operand unchanged.
pub open spec fn arith_result(op: ArithmeticOp, a: VValue, b: VValue, sem: FloatSem) -> Option<VValue> {
    match (a, b) {
        (VValue::Int(x), VValue::Int(y)) => {
            if op == ArithmeticOp::Div && y == 0 {
                None
            } else if fits_i32(int_result(op, x as int, y as int)) {
                Some(VValue::Int(int_result(op, x as int, y as int) as i32))
            } else {
                None
            }
        },
        _ => if float_pair(a, b) {
            Some(VValue::Float((sem.arith)(op, a, b)))
        } else {
            Some(a)
        },
    }
}

/// Arithmetic on two numbers of which at least one is a float gives a float,
/// the one the float semantics computes, whichever side the float is on; it
/// never panics.
pub proof fn law_mixed_arithmetic_is_float(op: ArithmeticOp, x: i32, y: Seq<char>, sem: FloatSem)
    ensures
        arith_result(op, VValue::Int(x), VValue::Float(y), sem) == Some(
            VValue::Float((sem.arith)(op, VValue::Int(x), VValue::Float(y))),
        ),
        arith_result(op, VValue::Float(y), VValue::Int(x), sem) == Some(
            VValue::Float((sem.arith)(op, VValue::Float(y), VValue::Int(x))),
        ),
        forall|z: Seq<char>|
            #[trigger] arith_result(op, VValue::Float(y), VValue::Float(z), sem) == Some(
                VValue::Float((sem.arith)(op, VValue::Float(y), VValue::Float(z))),
            ),
{
}

impl Value {
    /// A copy of this value.
    pub fn duplicate(&self) -> (r: Value)
        ensures
            r@ == self@,
    {
        match self {
            Value::Int(i) => Value::Int(*i),
            Value::Float(s) => Value::Float(s.clone()),
            Value::Bool(b) => Value::Bool(*b),
            Value::String(s) => Value::String(s.clone()),
            Value::Vector3(x, y, z) => Value::Vector3(x.clone(), y.clone(), z.clone()),
            Value::Vector2(x, y) => Value::Vector2(x.clone(), y.clone()),
        }
    }

    /// `self == other`, with floats compared by `ops`.
    pub fn equals<C, A>(&self, other: &Value, ops: &FloatOps<C, A>) -> (r: bool) where
        C: Fn(&Value, &Value) -> Option<Order>,
        A: Fn(ArithmeticOp, &Value, &Value) -> String,

        requires
            total(*ops),
        ensures
            forall|sem: FloatSem| #[trigger] models(*ops, sem) ==> r == value_eq(self@, other@, sem),
    {
        match (self, other) {
            (Value::Int(x), Value::Int(y)) => *x == *y,
            (Value::Float(_), Value::Float(_)) => {
                let o = (ops.compare)(self, other);
                match o {
                    Some(Order::Equal) => true,
                    _ => false,
                }
            },
            (Value::Bool(x), Value::Bool(y)) => *x == *y,
            (Value::String(x), Value::String(y)) => *x == *y,
            _ => false,
        }
    }

    /// `self.partial_cmp(other)`, with floats ordered by `ops`.
    pub fn compare<C, A>(&self, other: &Value, ops: &FloatOps<C, A>) -> (r: Option<Order>) where
        C: Fn(&Value, &Value) -> Option<Order>,
        A: Fn(ArithmeticOp, &Value, &Value) -> String,

        requires
            total(*ops),
        ensures
            forall|sem: FloatSem| #[trigger] models(*ops, sem) ==> r == value_order(self@, other@, sem),
    {
        match (self, other) {
            (Value::Bool(x), Value::Bool(y)) => {
                if *x == *y {
                    Some(Order::Equal)
                } else if !*x {
                    Some(Order::Less)
                } else {
                    Some(Order::Greater)
                }
            },
            (Value::Int(x), Value::Int(y)) => {
                if *x < *y {
                    Some(Order::Less)
                } else if *x == *y {
                    Some(Order::Equal)
                } else {
                    Some(Order::Greater)
                }
            },
            (Value::String(x), Value::String(y)) => Some(string_order(x, y)),
            (Value::Int(_), Value::Float(_)) | (Value::Float(_), Value::Int(_)) | (
                Value::Float(_),
                Value::Float(_),
            ) => (ops.compare)(self, other),
            _ => None,
        }
    }

    /// `self op rhs` for `Add`, `Sub`, `Mult` and `Div`, with floats computed by
    /// `ops`; `None` where the operator panics on ints (overflow, division by
    /// zero). `Eq` is not an arithmetic operator and is not to be passed.
    pub fn checked_arith<C, A>(&self, op: ArithmeticOp, rhs: &Value, ops: &FloatOps<C, A>) -> (r: Option<Value>) where
        C: Fn(&Value, &Value) -> Option<Order>,
        A: Fn(ArithmeticOp, &Value, &Value) -> String,

        requires
            total(*ops),
            op != ArithmeticOp::Eq,
        ensures
            forall|sem: FloatSem| #[trigger] models(*ops, sem) ==> match r {
                Some(v) => arith_result(op, self@, rhs@, sem) == Some(v@),
                None => arith_result(op, self@, rhs@, sem) is None,
            },
    {
        match (self, rhs) {
            (Value::Int(x), Value::Int(y)) => {
                let x = *x;
                let y = *y;
                match op {
                    ArithmeticOp::Add => match x.checked_add(y) {
                        Some(z) => Some(Value::Int(z)),
                        None => None,
                    },
                    ArithmeticOp::Sub => match x.checked_sub(y) {
                        Some(z) => Some(Value::Int(z)),
                        None => None,
                    },
                    ArithmeticOp::Mult => match x.checked_mul(y) {
                        Some(z) => Some(Value::Int(z)),
                        None => None,
                    },
                    _ => {
                        if y == 0 {
                            None
                        } else if x == i32::MIN && y == -1 {
                            assert(vstd::math::abs(x as int) == 0x8000_0000);
                            assert(vstd::math::abs(y as int) == 1);
                            assert(0x8000_0000int / 1int == 0x8000_0000);
                            None
                        } else {
                            Some(Value::Int(i32_div(x, y)))
                        }
                    },
                }
            },
            (Value::Int(_), Value::Float(_)) | (Value::Float(_), Value::Int(_)) | (
                Value::Float(_),
                Value::Float(_),
            ) => {
                let s = (ops.arith)(op, self, rhs);
                Some(Value::Float(s))
            },
            _ => Some(self.duplicate()),
        }
    }
}

/// `x / y` on `i32`: the quotient rounded toward zero.
fn i32_div(x: i32, y: i32) -> (q: i32)
    requires
        y != 0,
        !(x == i32::MIN && y == -1),
    ensures
        q as int == trunc_div(x as int, y as int),
{
    let xa: i64 = if x < 0 {
        -(x as i64)
    } else {
        x as i64
    };
    let ya: i64 = if y < 0 {
        -(y as i64)
    } else {
        y as i64
    };
    let m: i64 = xa / ya;
    assert(m <= xa) by (nonlinear_arith)
        requires
            ya >= 1,
            xa >= 0,
            m == xa / ya,
    ;
    if (x >= 0) == (y > 0) || x == 0 {
        assert(m <= i32::MAX) by (nonlinear_arith)
            requires
                ya >= 1,
                xa >= 0,
                m == xa / ya,
                xa <= 0x8000_0000,
                ya == 1 ==> xa <= 0x7fff_ffff,
        ;
        m as i32
    } else {
        -m as i32
    }
}

} // verus!
