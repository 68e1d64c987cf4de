//! Pseudo-random picks from a seed. Not for cryptography.
//!
//! Nothing here reads a clock or any other source of chance: the caller
//! brings the seed, and the same seed always gives the same pick.

use vstd::prelude::*;

verus! {

/// `x` with its bits rotated 27 places to the left.
pub open spec fn rotated(x: u64) -> u64 {
    (x << 27) | (x >> 37)
}

/// The hash `h` after `x` has been mixed in.
pub open spec fn mixed(h: u64, x: u64) -> u64 {
    rotated(h ^ x.wrapping_mul(0x9E37_79B9_7F4A_7C15)).wrapping_mul(0x94D0_49BB_1331_11EB)
}

/// The state that follows `state` in the xorshift sequence.
pub open spec fn shifted(state: u64) -> u64 {
    let a = state ^ (state >> 12);
    let b = a ^ (a << 25);
    b ^ (b >> 27)
}

/// The number that the generator gives out in the state `state`.
pub open spec fn output(state: u64) -> u64 {
    state.wrapping_mul(0x2545_F491_4F6C_DD1D)
}

/// The state that the generator starts from for a thread and a time.
pub open spec fn initial_state(thread_id: u64, ts_ns: u128) -> u64 {
    let h = mixed(
        mixed(mixed(0x9E37_79B9_7F4A_7C15, thread_id), (ts_ns >> 64) as u64),
        (ts_ns & 0xFFFF_FFFF_FFFF_FFFF) as u64,
    );
    if h == 0 {
        1
    } else {
        h
    }
}

/// The seed for a thread and a time: the first two numbers of the generator,
/// the first in the upper half.
pub open spec fn seed_of(thread_id: u64, ts_ns: u128) -> u128 {
    let first = shifted(initial_state(thread_id, ts_ns));
    let second = shifted(first);
    ((output(first) as u128) << 64) | (output(second) as u128)
}

/// The pick from `min` to `max` that `seed` gives. Over all 128-bit
/// integers it is the seed itself, read as a signed number; over any other
/// range it is `min` plus the remainder of the seed by the size of the range.
pub open spec fn picked(min: int, max: int, seed: nat) -> int {
    let width = max - min + 1;
    if width >= 0x1_0000_0000_0000_0000_0000_0000_0000_0000 {
        if seed < 0x8000_0000_0000_0000_0000_0000_0000_0000 {
            seed as int
        } else {
            seed - 0x1_0000_0000_0000_0000_0000_0000_0000_0000
        }
    } else {
        min + (seed as int) % width
    }
}

/// Mixes `x` into the hash `h`.
pub fn mixer(h: &mut u64, x: u64)
    ensures
        *final(h) == mixed(*old(h), x),
{
    let a: u64 = *h ^ x.wrapping_mul(0x9E37_79B9_7F4A_7C15);
    let r: u64 = (a << 27) | (a >> 37);
    *h = r.wrapping_mul(0x94D0_49BB_1331_11EB);
}

/// One step of xorshift64*: moves the state on and gives out a number.
pub fn prng(state: &mut u64) -> (r: u64)
    ensures
        *final(state) == shifted(*old(state)),
        r == output(*final(state)),
{
    let mut x: u64 = *state;
    x = x ^ (x >> 12);
    x = x ^ (x << 25);
    x = x ^ (x >> 27);
    *state = x;
    x.wrapping_mul(0x2545_F491_4F6C_DD1D)
}

/// The 128-bit seed for a thread and a time in nanoseconds.
pub fn generator_u128(thread_id: u64, ts_ns: u128) -> (seed: u128)
    ensures
        seed == seed_of(thread_id, ts_ns),
{
    let mut h: u64 = 0x9E37_79B9_7F4A_7C15;
    mixer(&mut h, thread_id);
    mixer(&mut h, (ts_ns >> 64) as u64);
    mixer(&mut h, (ts_ns & 0xFFFF_FFFF_FFFF_FFFF) as u64);
    let mut state: u64 = if h == 0 {
        1
    } else {
        h
    };
    let first = prng(&mut state);
    let second = prng(&mut state);
    ((first as u128) << 64) | (second as u128)
}

/// A 128-bit integer moved up by 2^127, so that the least one becomes 0.
fn biased(x: i128) -> (r: u128)
    ensures
        r == x + 0x8000_0000_0000_0000_0000_0000_0000_0000,
{
    if x < 0 {
        (x + i128::MAX + 1) as u128
    } else {
        x as u128 + 0x8000_0000_0000_0000_0000_0000_0000_0000
    }
}

/// The inverse of `biased`.
fn unbiased(v: u128) -> (r: i128)
    ensures
        r == v - 0x8000_0000_0000_0000_0000_0000_0000_0000,
{
    if v >= 0x8000_0000_0000_0000_0000_0000_0000_0000 {
        (v - 0x8000_0000_0000_0000_0000_0000_0000_0000) as i128
    } else {
        (v as i128) + i128::MIN
    }
}

/// The integer from `min` to `max`, both included, that `seed` picks.
pub fn integer_in(min: i128, max: i128, seed: u128) -> (r: i128)
    requires
        min <= max,
    ensures
        min <= r <= max,
        r == picked(min as int, max as int, seed as nat),
{
    if min == max {
        return min;
    }
    if min == i128::MIN && max == i128::MAX {
        return if seed < 0x8000_0000_0000_0000_0000_0000_0000_0000 {
            seed as i128
        } else {
            unbiased(seed - 0x8000_0000_0000_0000_0000_0000_0000_0000)
        };
    }
    let start = biased(min);
    let end = biased(max);
    let width: u128 = (end - start) + 1;
    let v = start + (seed % width);
    unbiased(v)
}

/// The element of `slice` that `seed` picks, or `None` for an empty slice.
pub fn pick<T>(slice: &[T], seed: u128) -> (r: Option<&T>)
    ensures
        slice@.len() == 0 ==> r is None,
        slice@.len() > 0 ==> r == Some(&slice@[(seed as int) % (slice@.len() as int)]),
{
    if slice.len() == 0 {
        return None;
    }
    let idx = integer_in(0, (slice.len() - 1) as i128, seed) as usize;
    Some(&slice[idx])
}

/// The item of `items` that `seed` picks, or `None` where there are none.
pub fn choose_iter<T>(items: Vec<T>, seed: u128) -> (r: Option<T>)
    ensures
        items@.len() == 0 ==> r is None,
        items@.len() > 0 ==> r == Some(items@[(seed as int) % (items@.len() as int)]),
{
    let mut items = items;
    if items.len() == 0 {
        return None;
    }
    let idx = integer_in(0, (items.len() - 1) as i128, seed) as usize;
    Some(items.remove(idx))
}

} // verus!
