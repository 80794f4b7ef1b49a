use vstd::prelude::*;

use crate::condition::{cond_view, conds_view, lemma_conds_view, Condition, VCondition};
use crate::effect::{effects_view, Effect, VEffect};
use crate::grammar::{
    Parse, Step, action_rule, and_rule, and_tail, atom_rule, comparison_op, comparison_rule, compound_rule, digits_rest, digits_value, effect_op, effect_rule, effect_tail, effects_rule, ident_end, ident_rest, is_digit, is_ident_char, is_ident_start, is_ws, keyword_end, kw_action, kw_and, kw_false, kw_not, kw_or, kw_selector, kw_sequence, kw_true, lemma_scans, lit_at, name_rule, not_rule, number_value, or_rule, or_tail, padded_char, padded_keyword, parse_spec, precondition_rule, preconditions_rule, quote_end, rejection_at,
    lemma_digit_run, lemma_digits_value_grows, string_value, task_rule, tasks_rule, value_rule, ws_end,
};
use crate::htn::{lemma_tasks_view, task_view, tasks_view, Task, VTask};
use crate::text::{chars_of, string_from_chars};
use crate::value::{fits_i32, ArithmeticOp, ComparisonOp, VValue, Value};

verus! {

broadcast use vstd::string::group_string_axioms;

/// Why a rule did not give a result.
pub enum Stop {
    /// The rule does not match here.
    Fail,
    /// An integer literal out of the range of `i32` was read.
    Panic,
}

/// `r` is what `sp` says, with results compared through `view`.
pub open spec fn agrees<A, B>(r: Result<(A, usize), Stop>, view: spec_fn(A) -> B, sp: Step<B>) -> bool {
    match r {
        Ok((a, j)) => sp == Step::Matched(view(a), j as int),
        Err(Stop::Fail) => sp is Fail,
        Err(Stop::Panic) => sp is Panic,
    }
}

/// A successful rule ends after `i`, within the source.
pub open spec fn advances<A>(r: Result<(A, usize), Stop>, i: int, n: int) -> bool {
    r matches Ok((_, j)) ==> i < j <= n
}

pub open spec fn value_v() -> spec_fn(Value) -> VValue {
    |v: Value| v@
}

pub open spec fn cond_v() -> spec_fn(Condition) -> VCondition {
    |c: Condition| cond_view(c)
}

pub open spec fn conds_v() -> spec_fn(Vec<Condition>) -> Seq<VCondition> {
    |v: Vec<Condition>| conds_view(v@)
}

pub open spec fn effect_v() -> spec_fn(Effect) -> VEffect {
    |e: Effect| e@
}

pub open spec fn effects_v() -> spec_fn(Vec<Effect>) -> Seq<VEffect> {
    |v: Vec<Effect>| effects_view(v@)
}

pub open spec fn task_v() -> spec_fn(Task) -> VTask {
    |t: Task| task_view(t)
}

pub open spec fn compound_v() -> spec_fn((Vec<Condition>, Vec<Task>)) -> (Seq<VCondition>, Seq<VTask>) {
    |p: (Vec<Condition>, Vec<Task>)| (conds_view(p.0@), tasks_view(p.1@))
}

fn is_ws_char(c: char) -> (r: bool)
    ensures
        r == is_ws(c),
{
    c == '\t' || c == '\n' || c == '\u{0B}' || c == '\u{0C}' || c == '\r' || c == ' ' || c
        == '\u{85}' || c == '\u{A0}' || c == '\u{1680}' || ('\u{2000}' <= c && c <= '\u{200A}')
        || c == '\u{2028}' || c == '\u{2029}' || c == '\u{202F}' || c == '\u{205F}' || c
        == '\u{3000}'
}

fn is_digit_char(c: char) -> (r: bool)
    ensures
        r == is_digit(c),
{
    '0' <= c && c <= '9'
}

fn is_ident_start_char(c: char) -> (r: bool)
    ensures
        r == is_ident_start(c),
{
    ('a' <= c && c <= 'z') || ('A' <= c && c <= 'Z') || c == '_'
}

fn is_ident_char_char(c: char) -> (r: bool)
    ensures
        r == is_ident_char(c),
{
    is_ident_start_char(c) || is_digit_char(c)
}

fn skip_ws(s: &Vec<char>, i: usize) -> (r: usize)
    requires
        i <= s@.len(),
    ensures
        r == ws_end(s@, i as int),
        i <= r <= s@.len(),
{
    let mut j = i;
    while j < s.len() && is_ws_char(s[j])
        invariant
            i <= j <= s@.len(),
            ws_end(s@, i as int) == ws_end(s@, j as int),
        decreases s@.len() - j,
    {
        j = j + 1;
    }
    j
}

fn skip_ident_chars(s: &Vec<char>, i: usize) -> (r: usize)
    requires
        i <= s@.len(),
    ensures
        r == ident_rest(s@, i as int),
        i <= r <= s@.len(),
{
    let mut j = i;
    while j < s.len() && is_ident_char_char(s[j])
        invariant
            i <= j <= s@.len(),
            ident_rest(s@, i as int) == ident_rest(s@, j as int),
        decreases s@.len() - j,
    {
        j = j + 1;
    }
    j
}

fn skip_digits(s: &Vec<char>, i: usize) -> (r: usize)
    requires
        i <= s@.len(),
    ensures
        r == digits_rest(s@, i as int),
        i <= r <= s@.len(),
{
    let mut j = i;
    while j < s.len() && is_digit_char(s[j])
        invariant
            i <= j <= s@.len(),
            digits_rest(s@, i as int) == digits_rest(s@, j as int),
        decreases s@.len() - j,
    {
        j = j + 1;
    }
    j
}

fn skip_to_quote(s: &Vec<char>, i: usize) -> (r: usize)
    requires
        i <= s@.len(),
    ensures
        r == quote_end(s@, i as int),
        i <= r <= s@.len(),
{
    let mut j = i;
    while j < s.len() && s[j] != '"'
        invariant
            i <= j <= s@.len(),
            quote_end(s@, i as int) == quote_end(s@, j as int),
        decreases s@.len() - j,
    {
        j = j + 1;
    }
    j
}

fn scan_ident(s: &Vec<char>, i: usize) -> (r: Option<usize>)
    requires
        i <= s@.len(),
    ensures
        match r {
            Some(j) => ident_end(s@, i as int) == Some(j as int) && i < j <= s@.len(),
            None => ident_end(s@, i as int) is None,
        },
{
    if i < s.len() && is_ident_start_char(s[i]) {
        Some(skip_ident_chars(s, i + 1))
    } else {
        None
    }
}

/// `s[i..j]` is `kw`.
fn same_chars(s: &Vec<char>, i: usize, j: usize, kw: &Vec<char>) -> (r: bool)
    requires
        i <= j <= s@.len(),
    ensures
        r == (s@.subrange(i as int, j as int) == kw@),
{
    if j - i != kw.len() {
        return false;
    }
    let mut k: usize = 0;
    while k < kw.len()
        invariant
            j - i == kw@.len(),
            i <= j <= s@.len(),
            k <= kw@.len(),
            forall|m: int| 0 <= m < k ==> s@[i + m] == kw@[m],
        decreases kw@.len() - k,
    {
        if s[i + k] != kw[k] {
            assert(s@.subrange(i as int, j as int)[k as int] != kw@[k as int]);
            return false;
        }
        k = k + 1;
    }
    assert(s@.subrange(i as int, j as int) =~= kw@);
    true
}

fn scan_keyword(s: &Vec<char>, i: usize, kw: &Vec<char>) -> (r: Option<usize>)
    requires
        i <= s@.len(),
    ensures
        match r {
            Some(j) => keyword_end(s@, i as int, kw@) == Some(j as int) && i < j <= s@.len(),
            None => keyword_end(s@, i as int, kw@) is None,
        },
{
    match scan_ident(s, i) {
        Some(j) => if same_chars(s, i, j, kw) {
            Some(j)
        } else {
            None
        },
        None => None,
    }
}

fn scan_padded_keyword(s: &Vec<char>, i: usize, kw: &Vec<char>) -> (r: Option<usize>)
    requires
        i <= s@.len(),
    ensures
        match r {
            Some(j) => padded_keyword(s@, i as int, kw@) == Some(j as int) && i < j <= s@.len(),
            None => padded_keyword(s@, i as int, kw@) is None,
        },
{
    let a = skip_ws(s, i);
    match scan_keyword(s, a, kw) {
        Some(j) => Some(skip_ws(s, j)),
        None => None,
    }
}

fn scan_padded_char(s: &Vec<char>, i: usize, c: char) -> (r: Option<usize>)
    requires
        i <= s@.len(),
    ensures
        match r {
            Some(j) => padded_char(s@, i as int, c) == Some(j as int) && i < j <= s@.len(),
            None => padded_char(s@, i as int, c) is None,
        },
{
    let a = skip_ws(s, i);
    if a < s.len() && s[a] == c {
        Some(skip_ws(s, a + 1))
    } else {
        None
    }
}

fn kw(cs: &[char]) -> (r: Vec<char>)
    ensures
        r@ == cs@,
{
    let mut v: Vec<char> = Vec::new();
    let mut k: usize = 0;
    while k < cs.len()
        invariant
            k <= cs@.len(),
            v@ == cs@.take(k as int),
        decreases cs@.len() - k,
    {
        v.push(cs[k]);
        assert(cs@.take(k + 1) =~= cs@.take(k as int).push(cs@[k as int]));
        k = k + 1;
    }
    assert(cs@.take(k as int) =~= cs@);
    v
}

fn kw_vec(which: u8) -> (r: Vec<char>)
    ensures
        which == 0 ==> r@ == kw_true(),
        which == 1 ==> r@ == kw_false(),
        which == 2 ==> r@ == kw_not(),
        which == 3 ==> r@ == kw_and(),
        which == 4 ==> r@ == kw_or(),
        which == 5 ==> r@ == kw_action(),
        which == 6 ==> r@ == kw_selector(),
        which == 7 ==> r@ == kw_sequence(),
{
    let r = if which == 0 {
        kw(&['t', 'r', 'u', 'e'])
    } else if which == 1 {
        kw(&['f', 'a', 'l', 's', 'e'])
    } else if which == 2 {
        kw(&['n', 'o', 't'])
    } else if which == 3 {
        kw(&['a', 'n', 'd'])
    } else if which == 4 {
        kw(&['o', 'r'])
    } else if which == 5 {
        kw(&['a', 'c', 't', 'i', 'o', 'n'])
    } else if which == 6 {
        kw(&['s', 'e', 'l', 'e', 'c', 't', 'o', 'r'])
    } else {
        kw(&['s', 'e', 'q', 'u', 'e', 'n', 'c', 'e'])
    };
    assert(r@ =~= if which == 0 {
        kw_true()
    } else if which == 1 {
        kw_false()
    } else if which == 2 {
        kw_not()
    } else if which == 3 {
        kw_and()
    } else if which == 4 {
        kw_or()
    } else if which == 5 {
        kw_action()
    } else if which == 6 {
        kw_selector()
    } else {
        kw_sequence()
    });
    r
}

/// The characters `s[lo..hi]` as a string.
fn text_of(s: &Vec<char>, lo: usize, hi: usize) -> (r: String)
    requires
        lo <= hi <= s@.len(),
    ensures
        r@ == s@.subrange(lo as int, hi as int),
{
    let mut v: Vec<char> = Vec::new();
    let mut k = lo;
    while k < hi
        invariant
            lo <= k <= hi <= s@.len(),
            v@ == s@.subrange(lo as int, k as int),
        decreases hi - k,
    {
        v.push(s[k]);
        assert(s@.subrange(lo as int, k + 1) =~= s@.subrange(lo as int, k as int).push(s@[k as int]));
        k = k + 1;
    }
    string_from_chars(v.as_slice())
}

/// A number literal at `i`.
fn number_at(s: &Vec<char>, i: usize) -> (r: Result<(Value, usize), Stop>)
    requires
        i <= s@.len(),
    ensures
        agrees(r, value_v(), number_value(s@, i as int)),
        advances(r, i as int, s@.len() as int),
{
    let neg = i < s.len() && s[i] == '-';
    let k = if neg {
        i + 1
    } else {
        i
    };
    if !(k < s.len() && is_digit_char(s[k])) {
        return Err(Stop::Fail);
    }
    let e = if s[k] == '0' {
        k + 1
    } else {
        skip_digits(s, k + 1)
    };
    if e < s.len() && e + 1 < s.len() && s[e] == '.' && is_digit_char(s[e + 1]) {
        let f = skip_digits(s, e + 2);
        let t = text_of(s, i, f);
        return Ok((Value::Float(t), f));
    }
    proof {
        lemma_digit_run(s@, k + 1);
    }
    // The magnitude, or `big` once it exceeds 2^31.
    let mut mag: i64 = 0;
    let mut big = false;
    let mut p = k;
    assert(s@.subrange(k as int, k as int) =~= Seq::<char>::empty());
    while p < e
        invariant
            k <= p <= e <= s@.len(),
            e == if s@[k as int] == '0' {
                k + 1
            } else {
                digits_rest(s@, k + 1)
            },
            forall|m: int| k <= m < e ==> is_digit(#[trigger] s@[m]),
            big ==> digits_value(s@.subrange(k as int, p as int)) > 0x8000_0000,
            !big ==> mag == digits_value(s@.subrange(k as int, p as int)) && 0 <= mag <= 0x8000_0000,
        decreases e - p,
    {
        let d = s[p];
        proof {
            assert(s@.subrange(k as int, p + 1) =~= s@.subrange(k as int, p as int).push(d));
            lemma_digits_value_grows(s@.subrange(k as int, p as int), d);
        }
        if !big {
            let next: i64 = mag * 10 + ((d as u32) as i64 - ('0' as u32) as i64);
            if next > 0x8000_0000 {
                big = true;
            } else {
                mag = next;
            }
        }
        p = p + 1;
    }
    if big {
        return Err(Stop::Panic);
    }
    if neg {
        Ok((Value::Int((-mag) as i32), e))
    } else if mag <= 0x7fff_ffff {
        Ok((Value::Int(mag as i32), e))
    } else {
        Err(Stop::Panic)
    }
}

fn string_at(s: &Vec<char>, i: usize) -> (r: Option<(String, usize)>)
    requires
        i <= s@.len(),
    ensures
        match r {
            Some((t, j)) => string_value(s@, i as int) == Some((t@, j as int)) && i < j <= s@.len(),
            None => string_value(s@, i as int) is None,
        },
{
    if i < s.len() && s[i] == '"' {
        let q = skip_to_quote(s, i + 1);
        if q < s.len() {
            Some((text_of(s, i + 1, q), q + 1))
        } else {
            None
        }
    } else {
        None
    }
}

/// A value at `i`.
fn value_at(s: &Vec<char>, i: usize) -> (r: Result<(Value, usize), Stop>)
    requires
        i <= s@.len(),
    ensures
        agrees(r, value_v(), value_rule(s@, i as int)),
        advances(r, i as int, s@.len() as int),
{
    if let Some(j) = scan_keyword(s, i, &kw_vec(0)) {
        return Ok((Value::Bool(true), j));
    }
    if let Some(j) = scan_keyword(s, i, &kw_vec(1)) {
        return Ok((Value::Bool(false), j));
    }
    match number_at(s, i) {
        Err(Stop::Fail) => match string_at(s, i) {
            Some((t, j)) => Ok((Value::String(t), j)),
            None => Err(Stop::Fail),
        },
        other => other,
    }
}

fn lit2(s: &Vec<char>, i: usize, a: char, b: char) -> (r: bool)
    requires
        i <= s@.len(),
    ensures
        r == lit_at(s@, i as int, seq![a, b]),
{
    if i < s.len() && i + 1 < s.len() && s[i] == a && s[i + 1] == b {
        assert(s@.subrange(i as int, i + 2) =~= seq![a, b]);
        true
    } else {
        proof {
            if lit_at(s@, i as int, seq![a, b]) {
                assert(s@.subrange(i as int, i + 2)[0] == a);
                assert(s@.subrange(i as int, i + 2)[1] == b);
            }
        }
        false
    }
}

fn lit1(s: &Vec<char>, i: usize, a: char) -> (r: bool)
    requires
        i <= s@.len(),
    ensures
        r == lit_at(s@, i as int, seq![a]),
{
    if i < s.len() && s[i] == a {
        assert(s@.subrange(i as int, i + 1) =~= seq![a]);
        true
    } else {
        proof {
            if lit_at(s@, i as int, seq![a]) {
                assert(s@.subrange(i as int, i + 1)[0] == a);
            }
        }
        false
    }
}

fn comparison_op_at(s: &Vec<char>, i: usize) -> (r: Option<(ComparisonOp, usize)>)
    requires
        i <= s@.len(),
    ensures
        match r {
            Some((op, j)) => comparison_op(s@, i as int) == Some((op, j as int)) && i < j <= s@.len(),
            None => comparison_op(s@, i as int) is None,
        },
{
    proof {
        assert(s.len() == s@.len());
    }
    if lit2(s, i, '=', '=') {
        Some((ComparisonOp::E, i + 2))
    } else if lit2(s, i, '!', '=') {
        Some((ComparisonOp::NE, i + 2))
    } else if lit2(s, i, '<', '=') {
        Some((ComparisonOp::LTE, i + 2))
    } else if lit2(s, i, '>', '=') {
        Some((ComparisonOp::GTE, i + 2))
    } else if lit1(s, i, '<') {
        Some((ComparisonOp::LT, i + 1))
    } else if lit1(s, i, '>') {
        Some((ComparisonOp::GT, i + 1))
    } else {
        None
    }
}

fn effect_op_at(s: &Vec<char>, i: usize) -> (r: Option<(ArithmeticOp, usize)>)
    requires
        i <= s@.len(),
    ensures
        match r {
            Some((op, j)) => effect_op(s@, i as int) == Some((op, j as int)) && i < j <= s@.len(),
            None => effect_op(s@, i as int) is None,
        },
{
    proof {
        assert(s.len() == s@.len());
    }
    if lit2(s, i, '+', '=') {
        Some((ArithmeticOp::Add, i + 2))
    } else if lit2(s, i, '-', '=') {
        Some((ArithmeticOp::Sub, i + 2))
    } else if lit2(s, i, '*', '=') {
        Some((ArithmeticOp::Mult, i + 2))
    } else if lit2(s, i, '/', '=') {
        Some((ArithmeticOp::Div, i + 2))
    } else if lit1(s, i, '=') {
        Some((ArithmeticOp::Eq, i + 1))
    } else {
        None
    }
}


/// `IDENT cmp_op value` at `i`, with the white space around each part.
fn comparison_at(s: &Vec<char>, i: usize) -> (r: Result<(Condition, usize), Stop>)
    requires
        i <= s@.len(),
    ensures
        agrees(r, cond_v(), comparison_rule(s@, i as int)),
        advances(r, i as int, s@.len() as int),
{
    let a = skip_ws(s, i);
    let b = match scan_ident(s, a) {
        Some(b) => b,
        None => {
            return Err(Stop::Fail);
        },
    };
    let c = skip_ws(s, b);
    let (op, d) = match comparison_op_at(s, c) {
        Some(x) => x,
        None => {
            return Err(Stop::Fail);
        },
    };
    let e = skip_ws(s, d);
    match value_at(s, e) {
        Ok((v, f)) => {
            let g = skip_ws(s, f);
            let key = text_of(s, a, b);
            Ok((Condition::Compare { blackboard_key: key, op, value: v }, g))
        },
        Err(stop) => Err(stop),
    }
}

/// `and ("or" and)*` at `i`.
fn or_at(s: &Vec<char>, i: usize) -> (r: Result<(Condition, usize), Stop>)
    requires
        i <= s@.len(),
    ensures
        agrees(r, cond_v(), or_rule(s@, i as int)),
        advances(r, i as int, s@.len() as int),
    decreases s@.len() - i, 4int,
{
    let (first, j) = match and_at(s, i) {
        Ok(x) => x,
        Err(stop) => {
            return Err(stop);
        },
    };
    let ghost start = seq![cond_view(first)];
    let mut items: Vec<Condition> = Vec::new();
    items.push(first);
    proof {
        lemma_conds_view(items@);
        assert(conds_view(items@) =~= start);
    }
    let mut cur = j;
    let or_kw = kw_vec(4);
    loop
        invariant
            i < j <= cur <= s@.len(),
            or_kw@ == kw_or(),
            items@.len() >= 1,
            or_tail(s@, j as int, start) == or_tail(s@, cur as int, conds_view(items@)),
            and_rule(s@, i as int) == Step::Matched(start[0], j as int),
            start == seq![start[0]],
        ensures
            i < j <= cur <= s@.len(),
            items@.len() >= 1,
            or_tail(s@, j as int, start) == Step::Matched(conds_view(items@), cur as int),
        decreases s@.len() - cur,
    {
        let c = match scan_padded_keyword(s, cur, &or_kw) {
            Some(c) => c,
            None => {
                break ;
            },
        };
        match and_at(s, c) {
            Ok((x, k)) => {
                let ghost before = items@;
                items.push(x);
                proof {
                    lemma_conds_view(before);
                    lemma_conds_view(items@);
                    assert(conds_view(items@) =~= conds_view(before).push(cond_view(x)));
                }
                cur = k;
            },
            Err(Stop::Fail) => {
                break ;
            },
            Err(Stop::Panic) => {
                assert(or_tail(s@, cur as int, conds_view(items@)) is Panic);
                return Err(Stop::Panic);
            },
        }
    }
    proof {
        lemma_conds_view(items@);
    }
    if items.len() == 1 {
        let only = items.pop().unwrap();
        Ok((only, cur))
    } else {
        Ok((Condition::Any(items), cur))
    }
}

/// `not ("and" not)*` at `i`.
fn and_at(s: &Vec<char>, i: usize) -> (r: Result<(Condition, usize), Stop>)
    requires
        i <= s@.len(),
    ensures
        agrees(r, cond_v(), and_rule(s@, i as int)),
        advances(r, i as int, s@.len() as int),
    decreases s@.len() - i, 3int,
{
    let (first, j) = match not_at(s, i) {
        Ok(x) => x,
        Err(stop) => {
            return Err(stop);
        },
    };
    let ghost start = seq![cond_view(first)];
    let mut items: Vec<Condition> = Vec::new();
    items.push(first);
    proof {
        lemma_conds_view(items@);
        assert(conds_view(items@) =~= start);
    }
    let mut cur = j;
    let and_kw = kw_vec(3);
    loop
        invariant
            i < j <= cur <= s@.len(),
            and_kw@ == kw_and(),
            items@.len() >= 1,
            and_tail(s@, j as int, start) == and_tail(s@, cur as int, conds_view(items@)),
            not_rule(s@, i as int) == Step::Matched(start[0], j as int),
            start == seq![start[0]],
        ensures
            i < j <= cur <= s@.len(),
            items@.len() >= 1,
            and_tail(s@, j as int, start) == Step::Matched(conds_view(items@), cur as int),
        decreases s@.len() - cur,
    {
        let c = match scan_padded_keyword(s, cur, &and_kw) {
            Some(c) => c,
            None => {
                break ;
            },
        };
        match not_at(s, c) {
            Ok((x, k)) => {
                let ghost before = items@;
                items.push(x);
                proof {
                    lemma_conds_view(before);
                    lemma_conds_view(items@);
                    assert(conds_view(items@) =~= conds_view(before).push(cond_view(x)));
                }
                cur = k;
            },
            Err(Stop::Fail) => {
                break ;
            },
            Err(Stop::Panic) => {
                assert(and_tail(s@, cur as int, conds_view(items@)) is Panic);
                return Err(Stop::Panic);
            },
        }
    }
    proof {
        lemma_conds_view(items@);
    }
    if items.len() == 1 {
        let only = items.pop().unwrap();
        Ok((only, cur))
    } else {
        Ok((Condition::All(items), cur))
    }
}

/// `"not"* atom` at `i`.
fn not_at(s: &Vec<char>, i: usize) -> (r: Result<(Condition, usize), Stop>)
    requires
        i <= s@.len(),
    ensures
        agrees(r, cond_v(), not_rule(s@, i as int)),
        advances(r, i as int, s@.len() as int),
    decreases s@.len() - i, 2int,
{
    match scan_padded_keyword(s, i, &kw_vec(2)) {
        Some(c) => match not_at(s, c) {
            Ok((x, k)) => Ok((Condition::Not(Box::new(x)), k)),
            Err(stop) => Err(stop),
        },
        None => atom_at(s, i),
    }
}

/// A comparison, or a condition in parentheses, at `i`.
fn atom_at(s: &Vec<char>, i: usize) -> (r: Result<(Condition, usize), Stop>)
    requires
        i <= s@.len(),
    ensures
        agrees(r, cond_v(), atom_rule(s@, i as int)),
        advances(r, i as int, s@.len() as int),
    decreases s@.len() - i, 1int,
{
    match comparison_at(s, i) {
        Err(Stop::Fail) => {
            let a = skip_ws(s, i);
            if a < s.len() && s[a] == '(' {
                match or_at(s, a + 1) {
                    Ok((c, k)) => if k < s.len() && s[k] == ')' {
                        Ok((c, skip_ws(s, k + 1)))
                    } else {
                        Err(Stop::Fail)
                    },
                    Err(stop) => Err(stop),
                }
            } else {
                Err(Stop::Fail)
            }
        },
        other => other,
    }
}

/// `"(" condition ")"` at `i`, with the white space around it.
fn precondition_at(s: &Vec<char>, i: usize) -> (r: Result<(Condition, usize), Stop>)
    requires
        i <= s@.len(),
    ensures
        agrees(r, cond_v(), precondition_rule(s@, i as int)),
        advances(r, i as int, s@.len() as int),
{
    let a = skip_ws(s, i);
    if a < s.len() && s[a] == '(' {
        match or_at(s, a + 1) {
            Ok((c, k)) => if k < s.len() && s[k] == ')' {
                Ok((c, skip_ws(s, k + 1)))
            } else {
                Err(Stop::Fail)
            },
            Err(stop) => Err(stop),
        }
    } else {
        Err(Stop::Fail)
    }
}

/// `precondition*` at `i`.
fn preconditions_at(s: &Vec<char>, i: usize) -> (r: Result<(Vec<Condition>, usize), Stop>)
    requires
        i <= s@.len(),
    ensures
        agrees(r, conds_v(), preconditions_rule(s@, i as int, Seq::empty())),
        r matches Ok((_, j)) ==> i <= j <= s@.len(),
{
    let mut items: Vec<Condition> = Vec::new();
    let mut cur = i;
    proof {
        lemma_conds_view(items@);
        assert(conds_view(items@) =~= Seq::<VCondition>::empty());
    }
    loop
        invariant
            i <= cur <= s@.len(),
            preconditions_rule(s@, i as int, Seq::empty()) == preconditions_rule(
                s@,
                cur as int,
                conds_view(items@),
            ),
        ensures
            i <= cur <= s@.len(),
            preconditions_rule(s@, i as int, Seq::empty()) == Step::Matched(
                conds_view(items@),
                cur as int,
            ),
        decreases s@.len() - cur,
    {
        match precondition_at(s, cur) {
            Ok((c, k)) => {
                let ghost before = items@;
                items.push(c);
                proof {
                    lemma_conds_view(before);
                    lemma_conds_view(items@);
                    assert(conds_view(items@) =~= conds_view(before).push(cond_view(c)));
                }
                cur = k;
            },
            Err(Stop::Fail) => {
                break ;
            },
            Err(Stop::Panic) => {
                return Err(Stop::Panic);
            },
        }
    }
    Ok((items, cur))
}

/// `IDENT eff_op value` at `i`, with the white space around each part.
fn effect_at(s: &Vec<char>, i: usize) -> (r: Result<(Effect, usize), Stop>)
    requires
        i <= s@.len(),
    ensures
        agrees(r, effect_v(), effect_rule(s@, i as int)),
        advances(r, i as int, s@.len() as int),
{
    let a = skip_ws(s, i);
    let b = match scan_ident(s, a) {
        Some(b) => b,
        None => {
            return Err(Stop::Fail);
        },
    };
    let c = skip_ws(s, b);
    let (op, d) = match effect_op_at(s, c) {
        Some(x) => x,
        None => {
            return Err(Stop::Fail);
        },
    };
    let e = skip_ws(s, d);
    match value_at(s, e) {
        Ok((v, f)) => {
            let g = skip_ws(s, f);
            let key = text_of(s, a, b);
            let eff = Effect::new(key.as_str(), op, v);
            Ok((eff, g))
        },
        Err(stop) => Err(stop),
    }
}

/// `"[" (effect ("," effect)* ","?)? "]"` at `i`, with the white space around it.
fn effects_at(s: &Vec<char>, i: usize) -> (r: Result<(Vec<Effect>, usize), Stop>)
    requires
        i <= s@.len(),
    ensures
        agrees(r, effects_v(), effects_rule(s@, i as int)),
        advances(r, i as int, s@.len() as int),
{
    let b = match scan_padded_char(s, i, '[') {
        Some(b) => b,
        None => {
            return Err(Stop::Fail);
        },
    };
    let mut items: Vec<Effect> = Vec::new();
    let mut cur = b;
    match effect_at(s, b) {
        Ok((e, c)) => {
            items.push(e);
            assert(effects_view(items@) =~= seq![e@]);
            cur = c;
            let ghost first = seq![e@];
            loop
                invariant_except_break
                    effect_tail(s@, c as int, first) == effect_tail(
                        s@,
                        cur as int,
                        effects_view(items@),
                    ),
                invariant
                    b < c <= cur <= s@.len(),
                    padded_char(s@, i as int, '[') == Some(b as int),
                    effect_rule(s@, b as int) == Step::Matched(first[0], c as int),
                    first == seq![first[0]],
                ensures
                    b < cur <= s@.len(),
                    effect_tail(s@, c as int, first) == Step::Matched(
                        effects_view(items@),
                        cur as int,
                    ),
                decreases s@.len() - cur,
            {
                if !(cur < s.len() && s[cur] == ',') {
                    break ;
                }
                match effect_at(s, cur + 1) {
                    Ok((e2, k)) => {
                        let ghost before = items@;
                        items.push(e2);
                        assert(effects_view(items@) =~= effects_view(before).push(e2@));
                        cur = k;
                    },
                    Err(Stop::Fail) => {
                        cur = cur + 1;
                        break ;
                    },
                    Err(Stop::Panic) => {
                        assert(effect_tail(s@, cur as int, effects_view(items@)) is Panic);
                        return Err(Stop::Panic);
                    },
                }
            }
        },
        Err(Stop::Fail) => {
            assert(effects_view(items@) =~= Seq::<VEffect>::empty());
        },
        Err(Stop::Panic) => {
            return Err(Stop::Panic);
        },
    }
    match scan_padded_char(s, cur, ']') {
        Some(d) => Ok((items, d)),
        None => Err(Stop::Fail),
    }
}

/// `"action" STRING precondition* effects?` at `i`.
fn action_at(s: &Vec<char>, i: usize) -> (r: Result<(Task, usize), Stop>)
    requires
        i <= s@.len(),
    ensures
        agrees(r, task_v(), action_rule(s@, i as int)),
        advances(r, i as int, s@.len() as int),
{
    let c = match scan_padded_keyword(s, i, &kw_vec(5)) {
        Some(c) => c,
        None => {
            return Err(Stop::Fail);
        },
    };
    let a = skip_ws(s, c);
    let (name, j) = match string_at(s, a) {
        Some(x) => x,
        None => {
            return Err(Stop::Fail);
        },
    };
    let d = skip_ws(s, j);
    let (pre, e) = match preconditions_at(s, d) {
        Ok(x) => x,
        Err(stop) => {
            return Err(stop);
        },
    };
    match effects_at(s, e) {
        Ok((es, f)) => Ok((Task::Action { preconditions: pre, action: name, effects: es }, f)),
        Err(Stop::Fail) => {
            let es: Vec<Effect> = Vec::new();
            assert(effects_view(es@) =~= Seq::<VEffect>::empty());
            Ok((Task::Action { preconditions: pre, action: name, effects: es }, e))
        },
        Err(Stop::Panic) => Err(Stop::Panic),
    }
}

/// `kw precondition* "{" task* "}"` at `i`.
fn compound_at(s: &Vec<char>, i: usize, which: u8) -> (r: Result<((Vec<Condition>, Vec<Task>), usize), Stop>)
    requires
        i <= s@.len(),
        which == 6 || which == 7,
    ensures
        agrees(
            r,
            compound_v(),
            compound_rule(
                s@,
                i as int,
                if which == 6 {
                    kw_selector()
                } else {
                    kw_sequence()
                },
            ),
        ),
        advances(r, i as int, s@.len() as int),
    decreases s@.len() - i, 2int,
{
    let c = match scan_padded_keyword(s, i, &kw_vec(which)) {
        Some(c) => c,
        None => {
            return Err(Stop::Fail);
        },
    };
    let (pre, d) = match preconditions_at(s, c) {
        Ok(x) => x,
        Err(stop) => {
            return Err(stop);
        },
    };
    let b = match scan_padded_char(s, d, '{') {
        Some(b) => b,
        None => {
            return Err(Stop::Fail);
        },
    };
    let mut tasks: Vec<Task> = Vec::new();
    let mut cur = b;
    proof {
        lemma_tasks_view(tasks@);
        assert(tasks_view(tasks@) =~= Seq::<VTask>::empty());
    }
    loop
        invariant
            i < c <= d < b <= cur <= s@.len(),
            padded_keyword(
                s@,
                i as int,
                if which == 6 {
                    kw_selector()
                } else {
                    kw_sequence()
                },
            ) == Some(c as int),
            preconditions_rule(s@, c as int, Seq::empty()) == Step::Matched(conds_view(pre@), d as int),
            padded_char(s@, d as int, '{') == Some(b as int),
            tasks_rule(s@, b as int, Seq::empty()) == tasks_rule(
                s@,
                cur as int,
                tasks_view(tasks@),
            ),
        ensures
            i < c <= b <= cur <= s@.len(),
            tasks_rule(s@, b as int, Seq::empty()) == Step::Matched(tasks_view(tasks@), cur as int),
        decreases s@.len() - cur,
    {
        match task_at(s, cur) {
            Ok((t, k)) => {
                let ghost before = tasks@;
                tasks.push(t);
                proof {
                    lemma_tasks_view(before);
                    lemma_tasks_view(tasks@);
                    assert(tasks_view(tasks@) =~= tasks_view(before).push(task_view(t)));
                }
                cur = k;
            },
            Err(Stop::Fail) => {
                break ;
            },
            Err(Stop::Panic) => {
                assert(tasks_rule(s@, cur as int, tasks_view(tasks@)) is Panic);
                return Err(Stop::Panic);
            },
        }
    }
    match scan_padded_char(s, cur, '}') {
        Some(f) => Ok(((pre, tasks), f)),
        None => Err(Stop::Fail),
    }
}

/// `selector | sequence | action` at `i`, the first that parses, with the white
/// space around it.
fn task_at(s: &Vec<char>, i: usize) -> (r: Result<(Task, usize), Stop>)
    requires
        i <= s@.len(),
    ensures
        agrees(r, task_v(), task_rule(s@, i as int)),
        advances(r, i as int, s@.len() as int),
    decreases s@.len() - i, 3int,
{
    let a = skip_ws(s, i);
    match compound_at(s, a, 6) {
        Ok(((pre, ts), j)) => {
            return Ok((Task::Selector { preconditions: pre, tasks: ts }, skip_ws(s, j)));
        },
        Err(Stop::Panic) => {
            return Err(Stop::Panic);
        },
        Err(Stop::Fail) => {},
    }
    match compound_at(s, a, 7) {
        Ok(((pre, ts), j)) => {
            return Ok((Task::Sequence { preconditions: pre, tasks: ts }, skip_ws(s, j)));
        },
        Err(Stop::Panic) => {
            return Err(Stop::Panic);
        },
        Err(Stop::Fail) => {},
    }
    match action_at(s, a) {
        Ok((t, j)) => Ok((t, skip_ws(s, j))),
        Err(stop) => Err(stop),
    }
}

/// A source that the grammar does not derive, with the position (in
/// characters) where parsing stopped.
#[derive(Debug, Clone, Copy, PartialEq, Eq)]
pub struct ParseError {
    pub position: usize,
}

/// What parsing a source gives.
#[derive(Debug, PartialEq)]
pub enum ParseOutcome {
    /// The task that the whole source writes.
    Parsed(Task),
    /// The source is not a task of the language.
    Rejected(ParseError),
    /// An integer literal that does not fit in `i32` was read; reading it
    /// as an `i32` cannot succeed.
    IntLiteralOutOfRange,
}

/// Parses a whole `.htn` source, telling apart the sources that hold an
/// integer literal out of the range of `i32`.
pub fn parse_outcome(src: &str) -> (r: ParseOutcome)
    ensures
        match r {
            ParseOutcome::Parsed(t) => parse_spec(src@) == Parse::Parsed(t@),
            ParseOutcome::Rejected(e) => parse_spec(src@) is Rejected && e.position == rejection_at(
                src@,
            ),
            ParseOutcome::IntLiteralOutOfRange => parse_spec(src@) is Panicked,
        },
{
    let s = chars_of(src);
    match task_at(&s, 0) {
        Ok((t, j)) => if j == s.len() {
            ParseOutcome::Parsed(t)
        } else {
            ParseOutcome::Rejected(ParseError { position: j })
        },
        Err(Stop::Fail) => ParseOutcome::Rejected(ParseError { position: skip_ws(&s, 0) }),
        Err(Stop::Panic) => ParseOutcome::IntLiteralOutOfRange,
    }
}

/// Parses a complete `.htn` source into its root task.
pub fn parse(src: &str) -> (r: Result<Task, ParseError>)
    requires
        !(parse_spec(src@) is Panicked),
    ensures
        match r {
            Ok(t) => parse_spec(src@) == Parse::Parsed(t@),
            Err(e) => parse_spec(src@) is Rejected && e.position == rejection_at(src@),
        },
{
    match parse_outcome(src) {
        ParseOutcome::Parsed(t) => Ok(t),
        ParseOutcome::Rejected(e) => Err(e),
        ParseOutcome::IntLiteralOutOfRange => Err(ParseError { position: 0 }),
    }
}
} // verus!
