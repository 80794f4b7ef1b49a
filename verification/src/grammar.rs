use vstd::prelude::*;

use crate::condition::VCondition;
use crate::effect::VEffect;
use crate::htn::VTask;
use crate::value::{fits_i32, ArithmeticOp, ComparisonOp, VValue};

verus! {

// The `.htn` task-network language, as a parsing-expression grammar over the
// characters of the source:
//
//   task         := selector | sequence | action             (first that parses)
//   selector     := "selector" precondition* "{" task* "}"
//   sequence     := "sequence" precondition* "{" task* "}"
//   action       := "action" STRING precondition* effects?
//   precondition := "(" condition ")"
//   condition    := and ("or" and)*
//   and          := not ("and" not)*
//   not          := "not"* atom
//   atom         := IDENT cmp_op value | "(" condition ")"
//   cmp_op       := "==" | "!=" | "<=" | ">=" | "<" | ">"
//   effects      := "[" (effect ("," effect)* ","?)? "]"
//   effect       := IDENT eff_op value
//   eff_op       := "+=" | "-=" | "*=" | "/=" | "="
//   value        := "true" | "false" | number | STRING
//
// Whitespace may stand around every token. Repetitions take as many items as
// parse and never give one back; keywords are identifiers that must not run on
// into more identifier characters. An integer literal that does not fit in
// `i32` panics as soon as it is read.

/// What a rule gives at a position: a result and the position after it; no
/// match; or the panic of an integer literal out of range.
pub enum Step<T> {
    Matched(T, int),
    Fail,
    Panic,
}

/// Unicode white space, as `char::is_whitespace` knows it.
pub open spec fn is_ws(c: char) -> bool {
    ||| c == '\t'
    ||| c == '\n'
    ||| c == '\u{0B}'
    ||| c == '\u{0C}'
    ||| c == '\r'
    ||| c == ' '
    ||| c == '\u{85}'
    ||| c == '\u{A0}'
    ||| c == '\u{1680}'
    ||| ('\u{2000}' <= c && c <= '\u{200A}')
    ||| c == '\u{2028}'
    ||| c == '\u{2029}'
    ||| c == '\u{202F}'
    ||| c == '\u{205F}'
    ||| c == '\u{3000}'
}

pub open spec fn is_digit(c: char) -> bool {
    '0' <= c && c <= '9'
}

pub open spec fn is_ident_start(c: char) -> bool {
    ('a' <= c && c <= 'z') || ('A' <= c && c <= 'Z') || c == '_'
}

pub open spec fn is_ident_char(c: char) -> bool {
    is_ident_start(c) || is_digit(c)
}

/// The first position at or after `i` that is not white space.
pub open spec fn ws_end(s: Seq<char>, i: int) -> int
    decreases s.len() - i,
{
    if 0 <= i < s.len() && is_ws(s[i]) {
        ws_end(s, i + 1)
    } else {
        i
    }
}

/// The first position at or after `i` that is not an identifier character.
pub open spec fn ident_rest(s: Seq<char>, i: int) -> int
    decreases s.len() - i,
{
    if 0 <= i < s.len() && is_ident_char(s[i]) {
        ident_rest(s, i + 1)
    } else {
        i
    }
}

/// The first position at or after `i` that is not a digit.
pub open spec fn digits_rest(s: Seq<char>, i: int) -> int
    decreases s.len() - i,
{
    if 0 <= i < s.len() && is_digit(s[i]) {
        digits_rest(s, i + 1)
    } else {
        i
    }
}

/// The first position at or after `i` that holds a double quote, or the end.
pub open spec fn quote_end(s: Seq<char>, i: int) -> int
    decreases s.len() - i,
{
    if 0 <= i < s.len() && s[i] != '"' {
        quote_end(s, i + 1)
    } else {
        i
    }
}

pub proof fn lemma_scans(s: Seq<char>, i: int)
    requires
        0 <= i <= s.len(),
    ensures
        i <= ws_end(s, i) <= s.len(),
        i <= ident_rest(s, i) <= s.len(),
        i <= digits_rest(s, i) <= s.len(),
        i <= quote_end(s, i) <= s.len(),
    decreases s.len() - i,
{
    if i < s.len() {
        lemma_scans(s, i + 1);
    }
}

/// The end of the identifier at `i`: `[a-zA-Z_][a-zA-Z0-9_]*`.
pub open spec fn ident_end(s: Seq<char>, i: int) -> Option<int> {
    if 0 <= i < s.len() && is_ident_start(s[i]) {
        Some(ident_rest(s, i + 1))
    } else {
        None
    }
}

/// The end of the keyword `kw` at `i`: an identifier that is exactly `kw`.
pub open spec fn keyword_end(s: Seq<char>, i: int, kw: Seq<char>) -> Option<int> {
    match ident_end(s, i) {
        Some(j) => if s.subrange(i, j) == kw {
            Some(j)
        } else {
            None
        },
        None => None,
    }
}

/// `lit` stands at `i`.
pub open spec fn lit_at(s: Seq<char>, i: int, lit: Seq<char>) -> bool {
    0 <= i && i + lit.len() <= s.len() && s.subrange(i, i + lit.len()) == lit
}

/// The end of the keyword `kw` with the white space around it.
pub open spec fn padded_keyword(s: Seq<char>, i: int, kw: Seq<char>) -> Option<int> {
    match keyword_end(s, ws_end(s, i), kw) {
        Some(j) => Some(ws_end(s, j)),
        None => None,
    }
}

/// The end of the character `c` with the white space around it.
pub open spec fn padded_char(s: Seq<char>, i: int, c: char) -> Option<int> {
    let a = ws_end(s, i);
    if 0 <= a < s.len() && s[a] == c {
        Some(ws_end(s, a + 1))
    } else {
        None
    }
}

pub open spec fn kw_true() -> Seq<char> {
    seq!['t', 'r', 'u', 'e']
}

pub open spec fn kw_false() -> Seq<char> {
    seq!['f', 'a', 'l', 's', 'e']
}

pub open spec fn kw_not() -> Seq<char> {
    seq!['n', 'o', 't']
}

pub open spec fn kw_and() -> Seq<char> {
    seq!['a', 'n', 'd']
}

pub open spec fn kw_or() -> Seq<char> {
    seq!['o', 'r']
}

pub open spec fn kw_action() -> Seq<char> {
    seq!['a', 'c', 't', 'i', 'o', 'n']
}

pub open spec fn kw_selector() -> Seq<char> {
    seq!['s', 'e', 'l', 'e', 'c', 't', 'o', 'r']
}

pub open spec fn kw_sequence() -> Seq<char> {
    seq!['s', 'e', 'q', 'u', 'e', 'n', 'c', 'e']
}

/// The number that a sequence of decimal digits writes.
pub open spec fn digits_value(ds: Seq<char>) -> int
    decreases ds.len(),
{
    if ds.len() == 0 {
        0
    } else {
        digits_value(ds.drop_last()) * 10 + (ds.last() as int - '0' as int)
    }
}

/// A number literal: `-`? then `0` or a digit string not starting with `0`,
/// then optionally `.` and at least one digit. With a fraction it is a float,
/// held as its text; without, an int, which panics if it does not fit `i32`.
pub open spec fn number_value(s: Seq<char>, i: int) -> Step<VValue> {
    let neg = 0 <= i < s.len() && s[i] == '-';
    let k = if neg {
        i + 1
    } else {
        i
    };
    if !(0 <= k < s.len() && is_digit(s[k])) {
        Step::Fail
    } else {
        let e = if s[k] == '0' {
            k + 1
        } else {
            digits_rest(s, k + 1)
        };
        if e + 1 < s.len() && s[e] == '.' && is_digit(s[e + 1]) {
            let f = digits_rest(s, e + 2);
            Step::Matched(VValue::Float(s.subrange(i, f)), f)
        } else {
            let mag = digits_value(s.subrange(k, e));
            let v = if neg {
                -mag
            } else {
                mag
            };
            if fits_i32(v) {
                Step::Matched(VValue::Int(v as i32), e)
            } else {
                Step::Panic
            }
        }
    }
}

/// A string literal: the characters between two double quotes.
pub open spec fn string_value(s: Seq<char>, i: int) -> Option<(Seq<char>, int)> {
    if 0 <= i < s.len() && s[i] == '"' {
        let q = quote_end(s, i + 1);
        if q < s.len() {
            Some((s.subrange(i + 1, q), q + 1))
        } else {
            None
        }
    } else {
        None
    }
}

/// A value: `true`, `false`, a number or a string, tried in that order.
pub open spec fn value_rule(s: Seq<char>, i: int) -> Step<VValue> {
    match keyword_end(s, i, kw_true()) {
        Some(j) => Step::Matched(VValue::Bool(true), j),
        None => match keyword_end(s, i, kw_false()) {
            Some(j) => Step::Matched(VValue::Bool(false), j),
            None => match number_value(s, i) {
                Step::Fail => match string_value(s, i) {
                    Some((t, j)) => Step::Matched(VValue::Str(t), j),
                    None => Step::Fail,
                },
                other => other,
            },
        },
    }
}

/// A comparison operator at `i` (no white space).
pub open spec fn comparison_op(s: Seq<char>, i: int) -> Option<(ComparisonOp, int)> {
    if lit_at(s, i, seq!['=', '=']) {
        Some((ComparisonOp::E, i + 2))
    } else if lit_at(s, i, seq!['!', '=']) {
        Some((ComparisonOp::NE, i + 2))
    } else if lit_at(s, i, seq!['<', '=']) {
        Some((ComparisonOp::LTE, i + 2))
    } else if lit_at(s, i, seq!['>', '=']) {
        Some((ComparisonOp::GTE, i + 2))
    } else if lit_at(s, i, seq!['<']) {
        Some((ComparisonOp::LT, i + 1))
    } else if lit_at(s, i, seq!['>']) {
        Some((ComparisonOp::GT, i + 1))
    } else {
        None
    }
}

/// An effect operator at `i` (no white space).
pub open spec fn effect_op(s: Seq<char>, i: int) -> Option<(ArithmeticOp, int)> {
    if lit_at(s, i, seq!['+', '=']) {
        Some((ArithmeticOp::Add, i + 2))
    } else if lit_at(s, i, seq!['-', '=']) {
        Some((ArithmeticOp::Sub, i + 2))
    } else if lit_at(s, i, seq!['*', '=']) {
        Some((ArithmeticOp::Mult, i + 2))
    } else if lit_at(s, i, seq!['/', '=']) {
        Some((ArithmeticOp::Div, i + 2))
    } else if lit_at(s, i, seq!['=']) {
        Some((ArithmeticOp::Eq, i + 1))
    } else {
        None
    }
}

/// `IDENT cmp_op value`, with white space around each part.
pub open spec fn comparison_rule(s: Seq<char>, i: int) -> Step<VCondition> {
    let a = ws_end(s, i);
    match ident_end(s, a) {
        None => Step::Fail,
        Some(b) => match comparison_op(s, ws_end(s, b)) {
            None => Step::Fail,
            Some((op, d)) => match value_rule(s, ws_end(s, d)) {
                Step::Matched(v, f) => Step::Matched(
                    VCondition::Compare { key: s.subrange(a, b), op, value: v },
                    ws_end(s, f),
                ),
                Step::Fail => Step::Fail,
                Step::Panic => Step::Panic,
            },
        },
    }
}

/// `and ("or" and)*`: one operand stands for itself, more make an `Any`.
pub open spec fn or_rule(s: Seq<char>, i: int) -> Step<VCondition>
    decreases s.len() - i, 4int,
{
    if i < 0 || i > s.len() {
        Step::Fail
    } else {
        match and_rule(s, i) {
            Step::Matched(c, j) => if i < j <= s.len() {
                match or_tail(s, j, seq![c]) {
                    Step::Matched(cs, k) => Step::Matched(
                        if cs.len() == 1 {
                            cs[0]
                        } else {
                            VCondition::Any(cs)
                        },
                        k,
                    ),
                    Step::Fail => Step::Fail,
                    Step::Panic => Step::Panic,
                }
            } else {
                Step::Fail
            },
            Step::Fail => Step::Fail,
            Step::Panic => Step::Panic,
        }
    }
}

/// More `"or" and` after the operands `acc`, up to `i`.
pub open spec fn or_tail(s: Seq<char>, i: int, acc: Seq<VCondition>) -> Step<Seq<VCondition>>
    decreases s.len() - i, 5int,
{
    if i < 0 || i > s.len() {
        Step::Fail
    } else {
        match padded_keyword(s, i, kw_or()) {
            None => Step::Matched(acc, i),
            Some(c) => if i < c <= s.len() {
                match and_rule(s, c) {
                    Step::Matched(x, k) => if c < k <= s.len() {
                        or_tail(s, k, acc.push(x))
                    } else {
                        Step::Fail
                    },
                    Step::Fail => Step::Matched(acc, i),
                    Step::Panic => Step::Panic,
                }
            } else {
                Step::Fail
            },
        }
    }
}

/// `not ("and" not)*`: one operand stands for itself, more make an `All`.
pub open spec fn and_rule(s: Seq<char>, i: int) -> Step<VCondition>
    decreases s.len() - i, 3int,
{
    if i < 0 || i > s.len() {
        Step::Fail
    } else {
        match not_rule(s, i) {
            Step::Matched(c, j) => if i < j <= s.len() {
                match and_tail(s, j, seq![c]) {
                    Step::Matched(cs, k) => Step::Matched(
                        if cs.len() == 1 {
                            cs[0]
                        } else {
                            VCondition::All(cs)
                        },
                        k,
                    ),
                    Step::Fail => Step::Fail,
                    Step::Panic => Step::Panic,
                }
            } else {
                Step::Fail
            },
            Step::Fail => Step::Fail,
            Step::Panic => Step::Panic,
        }
    }
}

/// More `"and" not` after the operands `acc`, up to `i`.
pub open spec fn and_tail(s: Seq<char>, i: int, acc: Seq<VCondition>) -> Step<Seq<VCondition>>
    decreases s.len() - i, 4int,
{
    if i < 0 || i > s.len() {
        Step::Fail
    } else {
        match padded_keyword(s, i, kw_and()) {
            None => Step::Matched(acc, i),
            Some(c) => if i < c <= s.len() {
                match not_rule(s, c) {
                    Step::Matched(x, k) => if c < k <= s.len() {
                        and_tail(s, k, acc.push(x))
                    } else {
                        Step::Fail
                    },
                    Step::Fail => Step::Matched(acc, i),
                    Step::Panic => Step::Panic,
                }
            } else {
                Step::Fail
            },
        }
    }
}

/// `"not"* atom`: each `not` wraps what follows.
pub open spec fn not_rule(s: Seq<char>, i: int) -> Step<VCondition>
    decreases s.len() - i, 2int,
{
    if i < 0 || i > s.len() {
        Step::Fail
    } else {
        match padded_keyword(s, i, kw_not()) {
            Some(c) => if i < c <= s.len() {
                match not_rule(s, c) {
                    Step::Matched(x, k) => Step::Matched(VCondition::Not(Box::new(x)), k),
                    other => other,
                }
            } else {
                Step::Fail
            },
            None => atom_rule(s, i),
        }
    }
}

/// A comparison, or a condition in parentheses.
pub open spec fn atom_rule(s: Seq<char>, i: int) -> Step<VCondition>
    decreases s.len() - i, 1int,
{
    if i < 0 || i > s.len() {
        Step::Fail
    } else {
        match comparison_rule(s, i) {
            Step::Fail => {
                let a = ws_end(s, i);
                if i <= a < s.len() && s[a] == '(' {
                    match or_rule(s, a + 1) {
                        Step::Matched(c, k) => if 0 <= k < s.len() && s[k] == ')' {
                            Step::Matched(c, ws_end(s, k + 1))
                        } else {
                            Step::Fail
                        },
                        Step::Fail => Step::Fail,
                        Step::Panic => Step::Panic,
                    }
                } else {
                    Step::Fail
                }
            },
            other => other,
        }
    }
}

/// `"(" condition ")"` with the white space around it.
pub open spec fn precondition_rule(s: Seq<char>, i: int) -> Step<VCondition> {
    let a = ws_end(s, i);
    if 0 <= i <= a < s.len() && s[a] == '(' {
        match or_rule(s, a + 1) {
            Step::Matched(c, k) => if 0 <= k < s.len() && s[k] == ')' {
                Step::Matched(c, ws_end(s, k + 1))
            } else {
                Step::Fail
            },
            Step::Fail => Step::Fail,
            Step::Panic => Step::Panic,
        }
    } else {
        Step::Fail
    }
}

/// `precondition*`, after the preconditions `acc`, from `i`.
pub open spec fn preconditions_rule(s: Seq<char>, i: int, acc: Seq<VCondition>) -> Step<Seq<VCondition>>
    decreases s.len() - i,
{
    if i < 0 || i > s.len() {
        Step::Fail
    } else {
        match precondition_rule(s, i) {
            Step::Matched(c, j) => if i < j <= s.len() {
                preconditions_rule(s, j, acc.push(c))
            } else {
                Step::Fail
            },
            Step::Fail => Step::Matched(acc, i),
            Step::Panic => Step::Panic,
        }
    }
}

/// `IDENT eff_op value`, with white space around each part.
pub open spec fn effect_rule(s: Seq<char>, i: int) -> Step<VEffect> {
    let a = ws_end(s, i);
    match ident_end(s, a) {
        None => Step::Fail,
        Some(b) => match effect_op(s, ws_end(s, b)) {
            None => Step::Fail,
            Some((op, d)) => match value_rule(s, ws_end(s, d)) {
                Step::Matched(v, f) => Step::Matched(
                    VEffect { key: s.subrange(a, b), op, value: v },
                    ws_end(s, f),
                ),
                Step::Fail => Step::Fail,
                Step::Panic => Step::Panic,
            },
        },
    }
}

/// `("," effect)* ","?` after the effects `acc`, from `i`.
pub open spec fn effect_tail(s: Seq<char>, i: int, acc: Seq<VEffect>) -> Step<Seq<VEffect>>
    decreases s.len() - i,
{
    if i < 0 || i >= s.len() || s[i] != ',' {
        Step::Matched(acc, i)
    } else {
        match effect_rule(s, i + 1) {
            Step::Matched(e, k) => if i < k <= s.len() {
                effect_tail(s, k, acc.push(e))
            } else {
                Step::Fail
            },
            Step::Fail => Step::Matched(acc, i + 1),
            Step::Panic => Step::Panic,
        }
    }
}

/// `"[" (effect ("," effect)* ","?)? "]"` with the white space around it.
pub open spec fn effects_rule(s: Seq<char>, i: int) -> Step<Seq<VEffect>> {
    match padded_char(s, i, '[') {
        None => Step::Fail,
        Some(b) => {
            let listed = match effect_rule(s, b) {
                Step::Matched(e, c) => effect_tail(s, c, seq![e]),
                Step::Fail => Step::Matched(Seq::empty(), b),
                Step::Panic => Step::Panic,
            };
            match listed {
                Step::Matched(es, c) => match padded_char(s, c, ']') {
                    Some(d) => Step::Matched(es, d),
                    None => Step::Fail,
                },
                Step::Fail => Step::Fail,
                Step::Panic => Step::Panic,
            }
        },
    }
}

/// `STRING` with the white space around it.
pub open spec fn name_rule(s: Seq<char>, i: int) -> Option<(Seq<char>, int)> {
    match string_value(s, ws_end(s, i)) {
        Some((t, j)) => Some((t, ws_end(s, j))),
        None => None,
    }
}

/// `"action" STRING precondition* effects?`
pub open spec fn action_rule(s: Seq<char>, i: int) -> Step<VTask> {
    match padded_keyword(s, i, kw_action()) {
        None => Step::Fail,
        Some(c) => match name_rule(s, c) {
            None => Step::Fail,
            Some((name, d)) => match preconditions_rule(s, d, Seq::empty()) {
                Step::Matched(pre, e) => match effects_rule(s, e) {
                    Step::Matched(es, f) => Step::Matched(
                        VTask::Action { pre, action: name, effects: es },
                        f,
                    ),
                    Step::Fail => Step::Matched(
                        VTask::Action { pre, action: name, effects: Seq::empty() },
                        e,
                    ),
                    Step::Panic => Step::Panic,
                },
                Step::Fail => Step::Fail,
                Step::Panic => Step::Panic,
            },
        },
    }
}

/// `kw precondition* "{" task* "}"`: the preconditions and the tasks.
pub open spec fn compound_rule(s: Seq<char>, i: int, kw: Seq<char>) -> Step<(Seq<VCondition>, Seq<VTask>)>
    decreases s.len() - i, 2int,
{
    if i < 0 || i > s.len() {
        Step::Fail
    } else {
        match padded_keyword(s, i, kw) {
            None => Step::Fail,
            Some(c) => if i < c <= s.len() {
                match preconditions_rule(s, c, Seq::empty()) {
                    Step::Matched(pre, d) => match padded_char(s, d, '{') {
                        None => Step::Fail,
                        Some(b) => if c < b <= s.len() {
                            match tasks_rule(s, b, Seq::empty()) {
                                Step::Matched(ts, e) => match padded_char(s, e, '}') {
                                    Some(f) => Step::Matched((pre, ts), f),
                                    None => Step::Fail,
                                },
                                Step::Fail => Step::Fail,
                                Step::Panic => Step::Panic,
                            }
                        } else {
                            Step::Fail
                        },
                    },
                    Step::Fail => Step::Fail,
                    Step::Panic => Step::Panic,
                }
            } else {
                Step::Fail
            },
        }
    }
}

/// `selector | sequence | action`, the first that parses, with the white space
/// around it.
pub open spec fn task_rule(s: Seq<char>, i: int) -> Step<VTask>
    decreases s.len() - i, 3int,
{
    if i < 0 || i > s.len() {
        Step::Fail
    } else {
        let a = ws_end(s, i);
        if a < i || a > s.len() {
            Step::Fail
        } else {
            match compound_rule(s, a, kw_selector()) {
                Step::Matched((pre, ts), j) => Step::Matched(VTask::Selector { pre, tasks: ts }, ws_end(s, j)),
                Step::Panic => Step::Panic,
                Step::Fail => match compound_rule(s, a, kw_sequence()) {
                    Step::Matched((pre, ts), j) => Step::Matched(
                        VTask::Sequence { pre, tasks: ts },
                        ws_end(s, j),
                    ),
                    Step::Panic => Step::Panic,
                    Step::Fail => match action_rule(s, a) {
                        Step::Matched(t, j) => Step::Matched(t, ws_end(s, j)),
                        other => other,
                    },
                },
            }
        }
    }
}

/// `task*` after the tasks `acc`, from `i`.
pub open spec fn tasks_rule(s: Seq<char>, i: int, acc: Seq<VTask>) -> Step<Seq<VTask>>
    decreases s.len() - i, 4int,
{
    if i < 0 || i > s.len() {
        Step::Fail
    } else {
        match task_rule(s, i) {
            Step::Matched(t, j) => if i < j <= s.len() {
                tasks_rule(s, j, acc.push(t))
            } else {
                Step::Fail
            },
            Step::Fail => Step::Matched(acc, i),
            Step::Panic => Step::Panic,
        }
    }
}

pub proof fn lemma_digits_value_grows(ds: Seq<char>, c: char)
    requires
        forall|m: int| 0 <= m < ds.len() ==> is_digit(#[trigger] ds[m]),
        is_digit(c),
    ensures
        digits_value(ds.push(c)) == digits_value(ds) * 10 + (c as int - '0' as int),
        digits_value(ds) >= 0,
    decreases ds.len(),
{
    assert(ds.push(c).drop_last() =~= ds);
    if ds.len() > 0 {
        lemma_digits_value_grows(ds.drop_last(), ds.last());
        assert(ds.drop_last().push(ds.last()) =~= ds);
    }
}

pub proof fn lemma_digit_run(s: Seq<char>, i: int)
    requires
        0 <= i <= s.len(),
    ensures
        forall|m: int| i <= m < digits_rest(s, i) ==> is_digit(#[trigger] s[m]),
    decreases s.len() - i,
{
    if i < s.len() && is_digit(s[i]) {
        lemma_digit_run(s, i + 1);
    }
}

/// A float literal stands for exactly the characters it spans, its sign
/// included.
pub proof fn law_float_literal_is_its_text(s: Seq<char>, i: int)
    ensures
        number_value(s, i) matches Step::Matched(VValue::Float(t), j) ==> t == s.subrange(i, j),
{
}

/// A literal with a leading minus sign stands for the negation of the literal
/// after the sign: a float gets the sign in front of its text, an int is
/// negated; both end where the unsigned literal ends.
pub proof fn law_minus_negates_literal(s: Seq<char>, i: int)
    requires
        0 <= i,
        i + 1 < s.len(),
        s[i] == '-',
        is_digit(s[i + 1]),
    ensures
        number_value(s, i + 1) matches Step::Matched(VValue::Float(t), j) ==> number_value(s, i)
            == Step::Matched(VValue::Float(seq!['-'] + t), j),
        number_value(s, i + 1) matches Step::Matched(VValue::Int(x), j) ==> number_value(s, i)
            == Step::Matched(VValue::Int((-x) as i32), j),
{
    let k = i + 1;
    lemma_scans(s, k + 1);
    let e = if s[k] == '0' {
        k + 1
    } else {
        digits_rest(s, k + 1)
    };
    if e + 1 < s.len() && s[e] == '.' && is_digit(s[e + 1]) {
        let f = digits_rest(s, e + 2);
        lemma_scans(s, e + 2);
        assert(s.subrange(i, f) =~= seq!['-'] + s.subrange(i + 1, f));
    } else {
        let mag = digits_value(s.subrange(k, e));
        lemma_digit_run(s, k + 1);
        assert forall|m: int| 0 <= m < s.subrange(k, e).len() implies is_digit(
            #[trigger] s.subrange(k, e)[m],
        ) by {
            assert(s.subrange(k, e)[m] == s[k + m]);
        }
        lemma_digits_value_grows(s.subrange(k, e), '0');
        assert(number_value(s, i + 1) == if fits_i32(mag) {
            Step::Matched(VValue::Int(mag as i32), e)
        } else {
            Step::<VValue>::Panic
        });
        assert(number_value(s, i) == if fits_i32(-mag) {
            Step::Matched(VValue::Int((-mag) as i32), e)
        } else {
            Step::<VValue>::Panic
        });
    }
}

/// What parsing a whole source gives: a task that spans all of it, a
/// rejection, or the panic of an integer literal out of range.
pub enum Parse {
    Parsed(VTask),
    Rejected,
    Panicked,
}

/// Where a rejected source stops, counted in characters: after a task that
/// does not span the source, where the text that it leaves begins; with no
/// task, where one was to begin.
pub open spec fn rejection_at(s: Seq<char>) -> int {
    match task_rule(s, 0) {
        Step::Matched(_, j) => j,
        _ => ws_end(s, 0),
    }
}

pub open spec fn parse_spec(s: Seq<char>) -> Parse {
    match task_rule(s, 0) {
        Step::Matched(t, j) => if j == s.len() {
            Parse::Parsed(t)
        } else {
            Parse::Rejected
        },
        Step::Fail => Parse::Rejected,
        Step::Panic => Parse::Panicked,
    }
}

} // verus!
