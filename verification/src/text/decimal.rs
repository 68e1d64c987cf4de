//! Integers as decimal text, written and read.

use vstd::prelude::*;
use vstd::slice::slice_subrange;

verus! {

/// The character for a digit below ten.
pub open spec fn digit_char(d: nat) -> char {
    (d + '0' as u32) as char
}

/// The decimal digits of `n`, most significant first, without leading zeros.
pub open spec fn nat_text(n: nat) -> Seq<char>
    decreases n,
{
    if n < 10 {
        seq![digit_char(n)]
    } else {
        nat_text(n / 10).push(digit_char(n % 10))
    }
}

/// The decimal text of an integer: a minus sign for a negative one, then the
/// digits.
pub open spec fn int_text(i: int) -> Seq<char> {
    if i < 0 {
        seq!['-'] + nat_text((-i) as nat)
    } else {
        nat_text(i as nat)
    }
}

/// `n` zeros.
pub open spec fn zeros(n: nat) -> Seq<char> {
    Seq::new(n, |i: int| '0')
}

/// The decimal text of an integer, filled with zeros behind the sign up to
/// `width` characters; a text that is as wide or wider stays as it is.
pub open spec fn padded(i: int, width: nat) -> Seq<char> {
    let sign = if i < 0 {
        seq!['-']
    } else {
        Seq::<char>::empty()
    };
    let digits = nat_text(if i < 0 {
        (-i) as nat
    } else {
        i as nat
    });
    let used = sign.len() + digits.len();
    let fill = if used < width {
        (width - used) as nat
    } else {
        0
    };
    sign + zeros(fill) + digits
}

/// Whether `c` is one of the ten decimal digits.
pub open spec fn is_decimal_digit(c: char) -> bool {
    '0' <= c <= '9'
}

/// Whether `s` holds decimal digits only.
pub open spec fn all_digits(s: Seq<char>) -> bool {
    forall|i: int| 0 <= i < s.len() ==> is_decimal_digit(#[trigger] s[i])
}

/// The number that a text of decimal digits writes.
pub open spec fn digits_value(s: Seq<char>) -> nat
    decreases s.len(),
{
    if s.len() == 0 {
        0
    } else {
        (digits_value(s.drop_last()) * 10 + (s.last() as u32 - '0' as u32)) as nat
    }
}

/// The number that `s` writes as an unsigned integer up to `max`: an optional
/// plus sign and at least one digit. `None` for any other text and for a
/// number above `max`.
pub open spec fn parse_unsigned(s: Seq<char>, max: nat) -> Option<nat> {
    let body = if s.len() > 0 && s[0] == '+' {
        s.skip(1)
    } else {
        s
    };
    if body.len() > 0 && all_digits(body) && digits_value(body) <= max {
        Some(digits_value(body))
    } else {
        None
    }
}

/// The number that `s` writes as a signed integer from `min` to `max`: an
/// optional sign and at least one digit. `None` for any other text and for a
/// number out of range.
pub open spec fn parse_signed(s: Seq<char>, min: int, max: int) -> Option<int> {
    let negative = s.len() > 0 && s[0] == '-';
    let body = if s.len() > 0 && (s[0] == '+' || s[0] == '-') {
        s.skip(1)
    } else {
        s
    };
    let value = if negative {
        -(digits_value(body) as int)
    } else {
        digits_value(body) as int
    };
    if body.len() > 0 && all_digits(body) && min <= value <= max {
        Some(value)
    } else {
        None
    }
}

/// A text of digits writes no less than any of its beginnings.
pub proof fn lemma_digits_value_grows(s: Seq<char>, k: int)
    requires
        0 <= k <= s.len(),
        all_digits(s),
    ensures
        digits_value(s.take(k)) <= digits_value(s),
    decreases s.len() - k,
{
    if k < s.len() {
        lemma_digits_value_grows(s, k + 1);
        let longer = s.take(k + 1);
        assert(longer.drop_last() =~= s.take(k));
        assert(is_decimal_digit(s[k]));
        assert(longer.last() == s[k]);
    } else {
        assert(s.take(k) =~= s);
    }
}

/// Appends the digits of `n` to `out`.
pub fn push_nat(out: &mut Vec<char>, n: u64)
    ensures
        final(out)@ == old(out)@ + nat_text(n as nat),
    decreases n,
{
    if n >= 10 {
        push_nat(out, n / 10);
    }
    let d: u8 = (n % 10) as u8;
    out.push((d + 48u8) as char);
    assert(final(out)@ =~= old(out)@ + nat_text(n as nat));
}

/// How many digits `n` has.
pub fn count_nat_digits(n: u64) -> (k: usize)
    ensures
        k == nat_text(n as nat).len(),
        1 <= k <= 20,
    decreases n,
{
    if n >= 10 {
        let k = count_nat_digits(n / 10);
        proof {
            lemma_nat_text_len(n as nat);
        }
        k + 1
    } else {
        1
    }
}

/// A number below a power of ten has no more digits than that power has
/// zeros.
pub proof fn lemma_nat_text_len(n: nat)
    ensures
        nat_text(n).len() >= 1,
        n < 10 ==> nat_text(n).len() == 1,
        n < 100 ==> nat_text(n).len() <= 2,
        n < 10000 ==> nat_text(n).len() <= 4,
        n < 0x1_0000_0000_0000_0000 ==> nat_text(n).len() <= 20,
    decreases n,
{
    reveal_with_fuel(nat_text, 21);
}

/// The size of `i` without its sign.
pub open spec fn magnitude(i: int) -> nat {
    if i < 0 {
        (-i) as nat
    } else {
        i as nat
    }
}

/// The size of `i` without its sign.
pub fn magnitude_of(i: i64) -> (m: u64)
    ensures
        m == magnitude(i as int),
{
    if i < 0 {
        ((-(i + 1)) as u64) + 1
    } else {
        i as u64
    }
}

/// Appends the decimal text of `i` to `out`.
pub fn push_int(out: &mut Vec<char>, i: i64)
    ensures
        final(out)@ == old(out)@ + int_text(i as int),
{
    if i < 0 {
        out.push('-');
    }
    push_nat(out, magnitude_of(i));
    assert(final(out)@ =~= old(out)@ + int_text(i as int));
}

/// Appends the decimal text of `i`, filled with zeros up to `width`
/// characters, to `out`.
pub fn push_padded(out: &mut Vec<char>, i: i64, width: usize)
    ensures
        final(out)@ == old(out)@ + padded(i as int, width as nat),
{
    let ghost before = out@;
    let m = magnitude_of(i);
    let digits = count_nat_digits(m);
    let used: usize = if i < 0 {
        digits + 1
    } else {
        digits
    };
    if i < 0 {
        out.push('-');
    }
    let ghost signed = out@;
    let mut k: usize = used;
    while k < width
        invariant
            used <= k,
            k <= width || k == used,
            out@ == signed + zeros((k - used) as nat),
        decreases width - k,
    {
        out.push('0');
        assert(out@ =~= signed + zeros((k + 1 - used) as nat));
        k += 1;
    }
    push_nat(out, m);
    assert(out@ =~= before + padded(i as int, width as nat));
}

/// Reads a text of digits as a number up to `max`.
pub fn read_digits(s: &[char], max: u64) -> (r: Option<u64>)
    ensures
        r is Some <==> s@.len() > 0 && all_digits(s@) && digits_value(s@) <= max,
        r matches Some(v) ==> v == digits_value(s@),
{
    if s.len() == 0 {
        return None;
    }
    let mut acc: u128 = 0;
    let mut i: usize = 0;
    assert(s@.take(0) =~= Seq::<char>::empty());
    while i < s.len()
        invariant
            i <= s.len(),
            all_digits(s@.take(i as int)),
            acc == digits_value(s@.take(i as int)),
            acc <= max,
        decreases s.len() - i,
    {
        let c = s[i];
        if !('0' <= c && c <= '9') {
            assert(!is_decimal_digit(s@[i as int]));
            return None;
        }
        let d: u128 = (c as u32 - '0' as u32) as u128;
        let ghost longer = s@.take(i + 1);
        assert(longer.drop_last() =~= s@.take(i as int));
        assert(longer.last() == c);
        assert forall|k: int| 0 <= k < longer.len() implies is_decimal_digit(
            #[trigger] longer[k],
        ) by {
            if k < i {
                assert(longer[k] == s@.take(i as int)[k]);
            }
        }
        let next: u128 = acc * 10 + d;
        if next > max as u128 {
            proof {
                if all_digits(s@) {
                    lemma_digits_value_grows(s@, i + 1);
                }
            }
            return None;
        }
        acc = next;
        i += 1;
    }
    assert(s@.take(s@.len() as int) =~= s@);
    Some(acc as u64)
}

/// Reads `s` as an unsigned integer up to `max`.
pub fn read_unsigned(s: &[char], max: u64) -> (r: Option<u64>)
    ensures
        r is Some <==> parse_unsigned(s@, max as nat) is Some,
        r matches Some(v) ==> parse_unsigned(s@, max as nat) == Some(v as nat),
{
    if s.len() > 0 && s[0] == '+' {
        let body = slice_subrange(s, 1, s.len());
        assert(body@ =~= s@.skip(1));
        read_digits(body, max)
    } else {
        read_digits(s, max)
    }
}

/// Reads `s` as a signed integer of 64 bits.
pub fn read_i64(s: &[char]) -> (r: Option<i64>)
    ensures
        r is Some <==> parse_signed(s@, i64::MIN as int, i64::MAX as int) is Some,
        r matches Some(v) ==> parse_signed(s@, i64::MIN as int, i64::MAX as int) == Some(v as int),
{
    if s.len() > 0 && s[0] == '-' {
        let body = slice_subrange(s, 1, s.len());
        assert(body@ =~= s@.skip(1));
        match read_digits(body, 0x8000_0000_0000_0000) {
            Some(m) => {
                if m == 0x8000_0000_0000_0000 {
                    Some(i64::MIN)
                } else {
                    Some(-(m as i64))
                }
            },
            None => None,
        }
    } else if s.len() > 0 && s[0] == '+' {
        let body = slice_subrange(s, 1, s.len());
        assert(body@ =~= s@.skip(1));
        match read_digits(body, 0x7FFF_FFFF_FFFF_FFFF) {
            Some(m) => Some(m as i64),
            None => None,
        }
    } else {
        match read_digits(s, 0x7FFF_FFFF_FFFF_FFFF) {
            Some(m) => Some(m as i64),
            None => None,
        }
    }
}

} // verus!
