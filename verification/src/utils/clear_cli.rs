//! Clearing an ANSI terminal.

use vstd::prelude::*;
use vstd::string::StringSliceAdditionalSpecFns;

verus! {

/// The ANSI sequence that moves the cursor home (`ESC[H`), clears the screen
/// (`ESC[2J`) and then the scrollback (`ESC[3J`).
pub const CLEAR_SEQ: &'static str = "\x1b[H\x1b[2J\x1b[3J";

/// Appends the bytes of the clear sequence to `w`.
pub fn write_clear(w: &mut Vec<u8>)
    ensures
        final(w)@ == old(w)@ + CLEAR_SEQ.spec_bytes(),
{
    let bytes = CLEAR_SEQ.as_bytes();
    let mut i: usize = 0;
    assert(w@ =~= old(w)@ + bytes@.take(0));
    while i < bytes.len()
        invariant
            i <= bytes.len(),
            w@ == old(w)@ + bytes@.take(i as int),
        decreases bytes.len() - i,
    {
        w.push(bytes[i]);
        assert(bytes@.take(i + 1) =~= bytes@.take(i as int).push(bytes@[i as int]));
        assert(w@ =~= old(w)@ + bytes@.take(i + 1));
        i += 1;
    }
    assert(bytes@.take(bytes@.len() as int) =~= bytes@);
}

} // verus!
