//! The mathematical model of JSON values and of parse failures.

use vstd::prelude::*;
use crate::bindings::{distinct_keys, has_key, key_index};
use crate::json::chars::is_digit;

verus! {

/// A JSON number: a decimal literal, or one of the three values that have no
/// literal.
pub enum Num {
    Decimal(Seq<char>),
    NaN,
    Infinity,
    NegInfinity,
}

/// A JSON value. The members of an object are kept in the order in which their
/// keys first appeared.
pub enum Json {
    Null,
    Bool(bool),
    Number(Num),
    String(Seq<char>),
    Array(Seq<Json>),
    Object(Seq<(Seq<char>, Json)>),
}

/// Why a text is not a JSON document.
pub enum SyntaxError {
    UnexpectedEndOfInput,
    UnexpectedToken(char),
    UnterminatedString,
    InvalidEscapeSequence(char),
    InvalidNumber,
    InvalidLiteral(Seq<char>),
    TrailingCharacters,
}

/// How many decimal digits `s` starts with.
pub open spec fn digit_run(s: Seq<char>) -> nat
    decreases s.len(),
{
    if s.len() > 0 && is_digit(s[0]) {
        1 + digit_run(s.skip(1))
    } else {
        0
    }
}

/// Whether `c` is a sign.
pub open spec fn is_sign(c: char) -> bool {
    c == '+' || c == '-'
}

/// Whether `s` is a decimal literal: an optional sign, digits with at most one
/// point among them and at least one digit, then optionally `e` or `E`, an
/// optional sign and at least one digit.
pub open spec fn is_decimal_literal(s: Seq<char>) -> bool {
    let a: int = if s.len() > 0 && is_sign(s[0]) { 1 } else { 0 };
    let whole = digit_run(s.skip(a));
    let p: int = a + whole;
    let has_point = p < s.len() && s[p] == '.';
    let fraction = if has_point { digit_run(s.skip(p + 1)) } else { 0 };
    let q: int = if has_point { p + 1 + fraction } else { p };
    &&& whole + fraction >= 1
    &&& q == s.len() || {
        let b: int = if q + 1 < s.len() && is_sign(s[q + 1]) { q + 2 } else { q + 1 };
        &&& s[q] == 'e' || s[q] == 'E'
        &&& digit_run(s.skip(b)) >= 1
        &&& b + digit_run(s.skip(b)) == s.len()
    }
}

/// Whether `s` is a number as JSON text may hold it: a decimal literal that
/// starts with a digit or a minus sign.
pub open spec fn is_number_literal(s: Seq<char>) -> bool {
    &&& is_decimal_literal(s)
    &&& s.len() > 0
    &&& (is_digit(s[0]) || s[0] == '-')
}

impl Num {
    /// Whether two numbers are equal. Decimals are equal where their literals
    /// are the same text, an infinity equals itself, and NaN equals nothing,
    /// not even NaN.
    pub open spec fn same_as(self, other: Num) -> bool {
        match (self, other) {
            (Num::Decimal(a), Num::Decimal(b)) => a == b,
            (Num::Infinity, Num::Infinity) => true,
            (Num::NegInfinity, Num::NegInfinity) => true,
            _ => false,
        }
    }
}

impl Json {
    /// Structural equality: arrays are equal element by element, objects
    /// where they bind the same keys to equal values, in whatever order.
    pub open spec fn same_as(self, other: Json) -> bool
        decreases self,
    {
        match (self, other) {
            (Json::Null, Json::Null) => true,
            (Json::Bool(a), Json::Bool(b)) => a == b,
            (Json::Number(a), Json::Number(b)) => a.same_as(b),
            (Json::String(a), Json::String(b)) => a == b,
            (Json::Array(a), Json::Array(b)) => {
                &&& a.len() == b.len()
                &&& forall|i: int| 0 <= i < a.len() ==> (#[trigger] a[i]).same_as(b[i])
            },
            (Json::Object(a), Json::Object(b)) => {
                &&& a.len() == b.len()
                &&& forall|i: int|
                    0 <= i < a.len() ==> has_key(b, (#[trigger] a[i]).0) && a[i].1.same_as(
                        b[key_index(b, a[i].0)].1,
                    )
            },
            _ => false,
        }
    }

    /// Every decimal in the value is a number literal and no object in it has
    /// two members with one key.
    pub open spec fn well_formed(self) -> bool
        decreases self,
    {
        match self {
            Json::Number(Num::Decimal(text)) => is_number_literal(text),
            Json::Array(items) => forall|i: int|
                0 <= i < items.len() ==> (#[trigger] items[i]).well_formed(),
            Json::Object(members) => {
                &&& distinct_keys(members)
                &&& forall|i: int|
                    0 <= i < members.len() ==> (#[trigger] members[i]).1.well_formed()
            },
            _ => true,
        }
    }

    /// No number in the value is NaN or an infinity.
    pub open spec fn finite(self) -> bool
        decreases self,
    {
        match self {
            Json::Number(n) => n is Decimal,
            Json::Array(items) => forall|i: int|
                0 <= i < items.len() ==> (#[trigger] items[i]).finite(),
            Json::Object(members) => forall|i: int|
                0 <= i < members.len() ==> (#[trigger] members[i]).1.finite(),
            _ => true,
        }
    }
}

} // verus!
