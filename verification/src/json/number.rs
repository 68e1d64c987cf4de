//! JSON numbers, kept as the decimal literal that writes them.

use vstd::prelude::*;
use vstd::std_specs::cmp::PartialEqSpecImpl;
use crate::json::chars::char_is_digit;
use crate::json::model::{digit_run, is_decimal_literal, is_number_literal, Num};
use crate::text::{chars_of, same_text, string_of};

verus! {

/// How many decimal digits `s` holds from index `from` on without a break.
pub fn count_digits(s: &[char], from: usize) -> (n: usize)
    requires
        from <= s@.len(),
    ensures
        n == digit_run(s@.skip(from as int)),
        from + n <= s@.len(),
{
    let mut i: usize = from;
    while i < s.len() && char_is_digit(s[i])
        invariant
            from <= i <= s@.len(),
            digit_run(s@.skip(from as int)) == (i - from) + digit_run(s@.skip(i as int)),
        decreases s@.len() - i,
    {
        assert(s@.skip(i as int).skip(1) =~= s@.skip(i + 1));
        i += 1;
    }
    i - from
}

/// Whether `s` is a decimal literal.
pub fn is_decimal(s: &[char]) -> (r: bool)
    ensures
        r == is_decimal_literal(s@),
{
    let len = s.len();
    let a: usize = if len > 0 && (s[0] == '+' || s[0] == '-') {
        1
    } else {
        0
    };
    let whole = count_digits(s, a);
    let p = a + whole;
    let has_point = p < len && s[p] == '.';
    let fraction = if has_point {
        count_digits(s, p + 1)
    } else {
        0
    };
    let q = if has_point {
        p + 1 + fraction
    } else {
        p
    };
    if whole == 0 && fraction == 0 {
        return false;
    }
    if q == len {
        return true;
    }
    if s[q] != 'e' && s[q] != 'E' {
        return false;
    }
    let b = if q + 1 < len && (s[q + 1] == '+' || s[q + 1] == '-') {
        q + 2
    } else {
        q + 1
    };
    let exponent = count_digits(s, b);
    exponent >= 1 && b + exponent == len
}

/// Whether `s` is a number literal.
pub fn is_number(s: &[char]) -> (r: bool)
    ensures
        r == is_number_literal(s@),
{
    s.len() > 0 && (char_is_digit(s[0]) || s[0] == '-') && is_decimal(s)
}

#[derive(Debug)]
enum Repr {
    Decimal(String),
    NaN,
    Infinity,
    NegInfinity,
}

/// A JSON number. A finite number is held as its decimal literal, digit for
/// digit, so nothing is rounded; NaN and the two infinities can be held too,
/// though JSON has no text for them. Two finite numbers are equal where their
/// literals are the same text: `1` and `1.0` are told apart.
#[derive(Debug)]
pub struct Number {
    repr: Repr,
}

impl Clone for Number {
    /// A copy that writes the same number.
    fn clone(&self) -> (r: Number)
        ensures
            r@ == self@,
    {
        proof {
            use_type_invariant(self);
        }
        match &self.repr {
            Repr::Decimal(text) => Number { repr: Repr::Decimal(text.clone()) },
            Repr::NaN => Number { repr: Repr::NaN },
            Repr::Infinity => Number { repr: Repr::Infinity },
            Repr::NegInfinity => Number { repr: Repr::NegInfinity },
        }
    }
}

impl PartialEq for Number {
    fn eq(&self, other: &Number) -> (r: bool) {
        self.equals(other)
    }
}

impl PartialEqSpecImpl for Number {
    open spec fn obeys_eq_spec() -> bool {
        true
    }

    open spec fn eq_spec(&self, other: &Number) -> bool {
        self@.same_as(other@)
    }
}

impl View for Number {
    type V = Num;

    closed spec fn view(&self) -> Num {
        match self.repr {
            Repr::Decimal(text) => Num::Decimal(text@),
            Repr::NaN => Num::NaN,
            Repr::Infinity => Num::Infinity,
            Repr::NegInfinity => Num::NegInfinity,
        }
    }
}

impl Number {
    #[verifier::type_invariant]
    spec fn valid(self) -> bool {
        match self.repr {
            Repr::Decimal(text) => is_number_literal(text@),
            _ => true,
        }
    }

    /// The number that `text` writes, if `text` is a number literal.
    pub fn parse(text: &str) -> (r: Option<Number>)
        ensures
            r is Some <==> is_number_literal(text@),
            r matches Some(n) ==> n@ == Num::Decimal(text@),
    {
        let chars = chars_of(text);
        Number::from_chars(chars.as_slice())
    }

    /// The number that the characters write, if they form a number literal.
    pub fn from_chars(chars: &[char]) -> (r: Option<Number>)
        ensures
            r is Some <==> is_number_literal(chars@),
            r matches Some(n) ==> n@ == Num::Decimal(chars@),
    {
        if is_number(chars) {
            let text = string_of(chars);
            Some(Number { repr: Repr::Decimal(text) })
        } else {
            None
        }
    }

    /// Not a number.
    pub fn nan() -> (n: Number)
        ensures
            n@ == Num::NaN,
    {
        Number { repr: Repr::NaN }
    }

    /// Positive infinity.
    pub fn infinity() -> (n: Number)
        ensures
            n@ == Num::Infinity,
    {
        Number { repr: Repr::Infinity }
    }

    /// Negative infinity.
    pub fn neg_infinity() -> (n: Number)
        ensures
            n@ == Num::NegInfinity,
    {
        Number { repr: Repr::NegInfinity }
    }

    /// The literal of a finite number, `None` for NaN and the infinities.
    pub fn literal(&self) -> (r: Option<&str>)
        ensures
            match self@ {
                Num::Decimal(text) => r matches Some(s) && s@ == text && is_number_literal(text),
                _ => r is None,
            },
    {
        proof {
            use_type_invariant(self);
        }
        match &self.repr {
            Repr::Decimal(text) => Some(text.as_str()),
            _ => None,
        }
    }

    /// Whether two numbers are equal: see `Num::same_as`.
    pub fn equals(&self, other: &Number) -> (r: bool)
        ensures
            r == self@.same_as(other@),
    {
        match (&self.repr, &other.repr) {
            (Repr::Decimal(a), Repr::Decimal(b)) => same_text(a.as_str(), b.as_str()),
            (Repr::Infinity, Repr::Infinity) => true,
            (Repr::NegInfinity, Repr::NegInfinity) => true,
            _ => false,
        }
    }

    /// Whether the number is neither NaN nor an infinity.
    pub fn is_finite(&self) -> (r: bool)
        ensures
            r == (self@ is Decimal),
    {
        match &self.repr {
            Repr::Decimal(_) => true,
            _ => false,
        }
    }
}

} // verus!
