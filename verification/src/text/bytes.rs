//! Where the characters of a text lie once it is encoded as UTF-8.

use vstd::prelude::*;
use vstd::slice::slice_subrange;

verus! {

/// How many bytes UTF-8 takes for `c`.
pub open spec fn utf8_len(c: char) -> nat {
    if (c as u32) < 0x80 {
        1
    } else if (c as u32) < 0x800 {
        2
    } else if (c as u32) < 0x10000 {
        3
    } else {
        4
    }
}

/// How many bytes UTF-8 takes for `s`.
pub open spec fn byte_len(s: Seq<char>) -> nat
    decreases s.len(),
{
    if s.len() == 0 {
        0
    } else {
        utf8_len(s[0]) + byte_len(s.skip(1))
    }
}

/// The index of the character that starts at byte `at`, or the length of `s`
/// where `at` is the end of the text; `None` where `at` lies within a
/// character or beyond the end.
pub open spec fn boundary(s: Seq<char>, at: nat) -> Option<nat>
    decreases s.len(),
{
    if at == 0 {
        Some(0)
    } else if s.len() == 0 || utf8_len(s[0]) > at {
        None
    } else {
        match boundary(s.skip(1), (at - utf8_len(s[0])) as nat) {
            Some(k) => Some(k + 1),
            None => None,
        }
    }
}

/// The characters from byte `from` up to byte `to`, where both are
/// boundaries of characters and in this order.
pub open spec fn byte_slice(s: Seq<char>, from: nat, to: nat) -> Option<Seq<char>> {
    match (boundary(s, from), boundary(s, to)) {
        (Some(i), Some(j)) => if i <= j <= s.len() {
            Some(s.subrange(i as int, j as int))
        } else {
            None
        },
        _ => None,
    }
}

/// How many bytes UTF-8 takes for `c`.
pub fn char_utf8_len(c: char) -> (n: usize)
    ensures
        n == utf8_len(c),
        1 <= n <= 4,
{
    let code = c as u32;
    if code < 0x80 {
        1
    } else if code < 0x800 {
        2
    } else if code < 0x10000 {
        3
    } else {
        4
    }
}

/// How many bytes UTF-8 takes for `s`.
pub fn byte_length(s: &[char]) -> (n: u128)
    ensures
        n == byte_len(s@),
{
    let mut n: u128 = 0;
    let mut i: usize = 0;
    assert(s@.skip(0) =~= s@);
    while i < s.len()
        invariant
            i <= s.len(),
            n <= 4 * i,
            byte_len(s@) == n + byte_len(s@.skip(i as int)),
        decreases s.len() - i,
    {
        assert(s@.skip(i as int).skip(1) =~= s@.skip(i + 1));
        n = n + char_utf8_len(s[i]) as u128;
        i += 1;
    }
    n
}

/// The index of the character that starts at byte `at`.
pub fn boundary_index(s: &[char], at: usize) -> (r: Option<usize>)
    ensures
        r is Some <==> boundary(s@, at as nat) is Some,
        r matches Some(k) ==> boundary(s@, at as nat) == Some(k as nat) && k <= s@.len(),
{
    let mut left: usize = at;
    let mut i: usize = 0;
    assert(s@.skip(0) =~= s@);
    loop
        invariant
            i <= s.len(),
            left <= at,
            boundary(s@, at as nat) == match boundary(s@.skip(i as int), left as nat) {
                Some(k) => Some((k + i) as nat),
                None => None::<nat>,
            },
        decreases s.len() - i,
    {
        if left == 0 {
            return Some(i);
        }
        if i >= s.len() {
            return None;
        }
        let n = char_utf8_len(s[i]);
        if n > left {
            return None;
        }
        assert(s@.skip(i as int).skip(1) =~= s@.skip(i + 1));
        left = left - n;
        i += 1;
    }
}

/// The characters from byte `from` up to byte `to`.
pub fn slice_bytes(s: &[char], from: usize, to: usize) -> (r: Option<&[char]>)
    ensures
        r is Some <==> byte_slice(s@, from as nat, to as nat) is Some,
        r matches Some(part) ==> byte_slice(s@, from as nat, to as nat) == Some(part@),
{
    match boundary_index(s, from) {
        Some(i) => match boundary_index(s, to) {
            Some(j) => {
                if i <= j {
                    Some(slice_subrange(s, i, j))
                } else {
                    None
                }
            },
            None => None,
        },
        None => None,
    }
}

} // verus!
