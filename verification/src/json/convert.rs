//! JSON values from the values of the host language.
//!
//! No conversion can fail. An integer becomes the number that its decimal
//! text writes, whatever its width.

use vstd::prelude::*;
use vstd::std_specs::convert::FromSpecImpl;
use crate::json::model::{digit_run, is_number_literal, Json, Num};
use crate::json::number::Number;
use crate::json::value::Value;
use crate::text::decimal::{
    all_digits,
    int_text,
    is_decimal_digit,
    nat_text,
    push_int,
    push_nat,
};

verus! {

/// The digits of a number are digits.
pub proof fn lemma_nat_text_digits(n: nat)
    ensures
        nat_text(n).len() >= 1,
        all_digits(nat_text(n)),
    decreases n,
{
    if n >= 10 {
        lemma_nat_text_digits(n / 10);
        let s = nat_text(n);
        assert forall|i: int| 0 <= i < s.len() implies is_decimal_digit(#[trigger] s[i]) by {
            if i < s.len() - 1 {
                assert(s[i] == nat_text(n / 10)[i]);
            }
        }
    }
}

/// A text of digits is one run of digits.
pub proof fn lemma_digit_run_all(s: Seq<char>)
    requires
        all_digits(s),
    ensures
        digit_run(s) == s.len(),
    decreases s.len(),
{
    if s.len() > 0 {
        assert(is_decimal_digit(s[0]));
        assert forall|i: int| 0 <= i < s.skip(1).len() implies is_decimal_digit(
            #[trigger] s.skip(1)[i],
        ) by {
            assert(s.skip(1)[i] == s[i + 1]);
        }
        lemma_digit_run_all(s.skip(1));
    }
}

/// The decimal text of an integer is a number literal.
pub proof fn lemma_int_text_is_number(i: int)
    ensures
        is_number_literal(int_text(i)),
{
    let s = int_text(i);
    if i < 0 {
        let digits = nat_text((-i) as nat);
        lemma_nat_text_digits((-i) as nat);
        lemma_digit_run_all(digits);
        assert(s[0] == '-');
        assert(s.skip(1) =~= digits);
        assert(s.skip(s.len() as int) =~= Seq::<char>::empty());
    } else {
        lemma_nat_text_digits(i as nat);
        lemma_digit_run_all(s);
        assert(is_decimal_digit(s[0]));
        assert(s.skip(0) =~= s);
        assert(s.skip(s.len() as int) =~= Seq::<char>::empty());
    }
}

impl Number {
    /// The number that the signed integer `i` is.
    pub fn from_i64(i: i64) -> (n: Number)
        ensures
            n@ == Num::Decimal(int_text(i as int)),
    {
        let mut out: Vec<char> = Vec::new();
        push_int(&mut out, i);
        assert(out@ =~= int_text(i as int));
        proof {
            lemma_int_text_is_number(i as int);
        }
        Number::from_chars(out.as_slice()).unwrap()
    }

    /// The number that the unsigned integer `i` is.
    pub fn from_u64(i: u64) -> (n: Number)
        ensures
            n@ == Num::Decimal(int_text(i as int)),
    {
        let mut out: Vec<char> = Vec::new();
        push_nat(&mut out, i);
        assert(out@ =~= int_text(i as int));
        proof {
            lemma_int_text_is_number(i as int);
        }
        Number::from_chars(out.as_slice()).unwrap()
    }
}

impl From<bool> for Value {
    /// `true` or `false`.
    fn from(b: bool) -> (v: Value)
        ensures
            v@ == Json::Bool(b),
    {
        Value::Bool(b)
    }
}

impl FromSpecImpl<bool> for Value {
    open spec fn obeys_from_spec() -> bool {
        true
    }

    open spec fn from_spec(b: bool) -> Value {
        Value::Bool(b)
    }
}

impl From<String> for Value {
    /// The string itself.
    fn from(s: String) -> (v: Value)
        ensures
            v@ == Json::String(s@),
    {
        Value::String(s)
    }
}

impl FromSpecImpl<String> for Value {
    open spec fn obeys_from_spec() -> bool {
        true
    }

    open spec fn from_spec(s: String) -> Value {
        Value::String(s)
    }
}

impl From<&str> for Value {
    /// A string with the characters of `s`.
    fn from(s: &str) -> (v: Value)
        ensures
            v@ == Json::String(s@),
    {
        Value::String(s.to_owned())
    }
}

impl FromSpecImpl<&str> for Value {
    open spec fn obeys_from_spec() -> bool {
        false
    }

    open spec fn from_spec(s: &str) -> Value {
        Value::Null
    }
}

impl From<Vec<Value>> for Value {
    /// The array of the items, in their order.
    fn from(items: Vec<Value>) -> (v: Value)
        ensures
            v == Value::Array(items),
    {
        Value::Array(items)
    }
}

impl FromSpecImpl<Vec<Value>> for Value {
    open spec fn obeys_from_spec() -> bool {
        true
    }

    open spec fn from_spec(items: Vec<Value>) -> Value {
        Value::Array(items)
    }
}

impl From<Number> for Value {
    /// The number itself.
    fn from(n: Number) -> (v: Value)
        ensures
            v == Value::Number(n),
    {
        Value::Number(n)
    }
}

impl FromSpecImpl<Number> for Value {
    open spec fn obeys_from_spec() -> bool {
        true
    }

    open spec fn from_spec(n: Number) -> Value {
        Value::Number(n)
    }
}

impl From<i8> for Value {
    /// The number that the decimal text of `n` writes.
    fn from(n: i8) -> (v: Value)
        ensures
            v@ == Json::Number(Num::Decimal(int_text(n as int))),
    {
        Value::Number(Number::from_i64(n as i64))
    }
}

impl FromSpecImpl<i8> for Value {
    open spec fn obeys_from_spec() -> bool {
        false
    }

    open spec fn from_spec(n: i8) -> Value {
        Value::Null
    }
}

impl From<i16> for Value {
    /// The number that the decimal text of `n` writes.
    fn from(n: i16) -> (v: Value)
        ensures
            v@ == Json::Number(Num::Decimal(int_text(n as int))),
    {
        Value::Number(Number::from_i64(n as i64))
    }
}

impl FromSpecImpl<i16> for Value {
    open spec fn obeys_from_spec() -> bool {
        false
    }

    open spec fn from_spec(n: i16) -> Value {
        Value::Null
    }
}

impl From<i32> for Value {
    /// The number that the decimal text of `n` writes.
    fn from(n: i32) -> (v: Value)
        ensures
            v@ == Json::Number(Num::Decimal(int_text(n as int))),
    {
        Value::Number(Number::from_i64(n as i64))
    }
}

impl FromSpecImpl<i32> for Value {
    open spec fn obeys_from_spec() -> bool {
        false
    }

    open spec fn from_spec(n: i32) -> Value {
        Value::Null
    }
}

impl From<i64> for Value {
    /// The number that the decimal text of `n` writes.
    fn from(n: i64) -> (v: Value)
        ensures
            v@ == Json::Number(Num::Decimal(int_text(n as int))),
    {
        Value::Number(Number::from_i64(n as i64))
    }
}

impl FromSpecImpl<i64> for Value {
    open spec fn obeys_from_spec() -> bool {
        false
    }

    open spec fn from_spec(n: i64) -> Value {
        Value::Null
    }
}

impl From<isize> for Value {
    /// The number that the decimal text of `n` writes.
    fn from(n: isize) -> (v: Value)
        ensures
            v@ == Json::Number(Num::Decimal(int_text(n as int))),
    {
        Value::Number(Number::from_i64(n as i64))
    }
}

impl FromSpecImpl<isize> for Value {
    open spec fn obeys_from_spec() -> bool {
        false
    }

    open spec fn from_spec(n: isize) -> Value {
        Value::Null
    }
}

impl From<u8> for Value {
    /// The number that the decimal text of `n` writes.
    fn from(n: u8) -> (v: Value)
        ensures
            v@ == Json::Number(Num::Decimal(int_text(n as int))),
    {
        Value::Number(Number::from_u64(n as u64))
    }
}

impl FromSpecImpl<u8> for Value {
    open spec fn obeys_from_spec() -> bool {
        false
    }

    open spec fn from_spec(n: u8) -> Value {
        Value::Null
    }
}

impl From<u16> for Value {
    /// The number that the decimal text of `n` writes.
    fn from(n: u16) -> (v: Value)
        ensures
            v@ == Json::Number(Num::Decimal(int_text(n as int))),
    {
        Value::Number(Number::from_u64(n as u64))
    }
}

impl FromSpecImpl<u16> for Value {
    open spec fn obeys_from_spec() -> bool {
        false
    }

    open spec fn from_spec(n: u16) -> Value {
        Value::Null
    }
}

impl From<u32> for Value {
    /// The number that the decimal text of `n` writes.
    fn from(n: u32) -> (v: Value)
        ensures
            v@ == Json::Number(Num::Decimal(int_text(n as int))),
    {
        Value::Number(Number::from_u64(n as u64))
    }
}

impl FromSpecImpl<u32> for Value {
    open spec fn obeys_from_spec() -> bool {
        false
    }

    open spec fn from_spec(n: u32) -> Value {
        Value::Null
    }
}

impl From<u64> for Value {
    /// The number that the decimal text of `n` writes.
    fn from(n: u64) -> (v: Value)
        ensures
            v@ == Json::Number(Num::Decimal(int_text(n as int))),
    {
        Value::Number(Number::from_u64(n as u64))
    }
}

impl FromSpecImpl<u64> for Value {
    open spec fn obeys_from_spec() -> bool {
        false
    }

    open spec fn from_spec(n: u64) -> Value {
        Value::Null
    }
}

impl From<usize> for Value {
    /// The number that the decimal text of `n` writes.
    fn from(n: usize) -> (v: Value)
        ensures
            v@ == Json::Number(Num::Decimal(int_text(n as int))),
    {
        Value::Number(Number::from_u64(n as u64))
    }
}

impl FromSpecImpl<usize> for Value {
    open spec fn obeys_from_spec() -> bool {
        false
    }

    open spec fn from_spec(n: usize) -> Value {
        Value::Null
    }
}

} // verus!
