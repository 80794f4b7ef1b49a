use vstd::prelude::*;

verus! {

/// The outcome of comparing two values that are ordered.
#[derive(Debug, Clone, Copy, PartialEq, Eq)]
pub enum Order {
    Less,
    Equal,
    Greater,
}

/// Lexicographic order of two character sequences, by code point.
pub open spec fn lex_order(a: Seq<char>, b: Seq<char>) -> Order
    decreases a.len(),
{
    if a.len() == 0 {
        if b.len() == 0 {
            Order::Equal
        } else {
            Order::Less
        }
    } else if b.len() == 0 {
        Order::Greater
    } else if a[0] < b[0] {
        Order::Less
    } else if b[0] < a[0] {
        Order::Greater
    } else {
        lex_order(a.drop_first(), b.drop_first())
    }
}

/// Orders two strings as `str`'s `Ord` does.
///
/// Trusted: calls `<str as Ord>::cmp`. Its documentation orders strings
/// lexicographically by their UTF-8 bytes; UTF-8 keeps the order of code points,
/// so this is the lexicographic order of the characters that the contract states.
#[verifier::external_body]
pub fn string_order(a: &String, b: &String) -> (r: Order)
    ensures
        r == lex_order(a@, b@),
{
    match a.as_str().cmp(b.as_str()) {
        std::cmp::Ordering::Less => Order::Less,
        std::cmp::Ordering::Equal => Order::Equal,
        std::cmp::Ordering::Greater => Order::Greater,
    }
}

/// The characters of a string, in order.
///
/// Trusted: calls `str::chars` and collects what it yields; `chars` yields the
/// string's characters in order, which is the string's view.
#[verifier::external_body]
pub fn chars_of(s: &str) -> (r: Vec<char>)
    ensures
        r@ == s@,
{
    s.chars().collect()
}

/// A string holding the given characters.
///
/// Trusted: calls `String::from_iter` over the characters, which appends them
/// in order.
#[verifier::external_body]
pub fn string_from_chars(cs: &[char]) -> (r: String)
    ensures
        r@ == cs@,
{
    String::from_iter(cs.iter())
}

} // verus!
