//! The short form of a type's name.

use vstd::prelude::*;
use vstd::slice::slice_subrange;
use crate::text::{chars_of, string_of};

verus! {

/// Whether `s` ends with the path separator `::`.
pub open spec fn ends_with_separator(s: Seq<char>) -> bool {
    s.len() >= 2 && s[s.len() - 2] == ':' && s[s.len() - 1] == ':'
}

/// What follows the last `::` of `s`, found from the right; all of `s` where
/// it holds none.
pub open spec fn last_segment(s: Seq<char>) -> Seq<char>
    decreases s.len(),
{
    if s.len() == 0 || ends_with_separator(s) {
        Seq::empty()
    } else {
        last_segment(s.drop_last()).push(s.last())
    }
}

/// Whether `s` holds the path separator `::` anywhere.
pub open spec fn has_separator(s: Seq<char>) -> bool {
    exists|i: int| 0 <= i && i + 1 < s.len() && #[trigger] s[i] == ':' && s[i + 1] == ':'
}

/// The last segment is an end of the text.
pub proof fn lemma_last_segment_is_suffix(s: Seq<char>)
    ensures
        last_segment(s).len() <= s.len(),
        last_segment(s) == s.skip(s.len() - last_segment(s).len()),
    decreases s.len(),
{
    if s.len() == 0 || ends_with_separator(s) {
        assert(s.skip(s.len() as int) =~= Seq::<char>::empty());
    } else {
        let d = s.drop_last();
        lemma_last_segment_is_suffix(d);
        let n = last_segment(d).len();
        assert(d.skip(d.len() - n).push(s.last()) =~= s.skip(s.len() - (n + 1)));
    }
}

/// The last segment holds no separator.
pub proof fn lemma_last_segment_is_plain(s: Seq<char>)
    ensures
        !has_separator(last_segment(s)),
    decreases s.len(),
{
    if s.len() == 0 || ends_with_separator(s) {
    } else {
        let d = s.drop_last();
        let seg = last_segment(s);
        lemma_last_segment_is_plain(d);
        lemma_last_segment_is_suffix(d);
        lemma_last_segment_is_suffix(s);
        if has_separator(seg) {
            let i = choose|i: int|
                0 <= i && i + 1 < seg.len() && #[trigger] seg[i] == ':' && seg[i + 1] == ':';
            if i + 2 < seg.len() {
                assert(last_segment(d)[i] == seg[i]);
                assert(last_segment(d)[i + 1] == seg[i + 1]);
                assert(has_separator(last_segment(d)));
            } else {
                let off = s.len() - seg.len();
                assert(seg[i] == s[off + i]);
                assert(seg[i + 1] == s[off + i + 1]);
                assert(ends_with_separator(s));
            }
        }
    }
}

/// The name of a type without the path before it: what follows the last
/// `::` of the full name. The result holds no `::`.
pub fn type_of_short(full: &str) -> (r: String)
    ensures
        r@ == last_segment(full@),
        !has_separator(r@),
{
    proof {
        lemma_last_segment_is_plain(full@);
    }
    let chars = chars_of(full);
    let s = chars.as_slice();
    let mut i: usize = s.len();
    assert(s@.take(i as int) =~= s@);
    while i > 0 && !(i >= 2 && s[i - 2] == ':' && s[i - 1] == ':')
        invariant
            i <= s.len(),
            last_segment(s@) == last_segment(s@.take(i as int)) + s@.skip(i as int),
        decreases i,
    {
        let ghost t = s@.take(i as int);
        assert(!ends_with_separator(t));
        assert(t.drop_last() =~= s@.take(i - 1));
        assert(last_segment(t.drop_last()).push(t.last()) + s@.skip(i as int) =~= last_segment(
            t.drop_last(),
        ) + s@.skip(i - 1));
        i -= 1;
    }
    assert(ends_with_separator(s@.take(i as int)) || i == 0);
    assert(last_segment(s@.take(i as int)) =~= Seq::<char>::empty());
    let tail = slice_subrange(s, i, s.len());
    assert(tail@ =~= last_segment(s@));
    string_of(tail)
}

} // verus!
