//! Searching, splitting and replacing in sequences of characters.

use vstd::prelude::*;
use vstd::slice::slice_subrange;

verus! {

/// Whether `s` holds `c`.
pub open spec fn has_char(s: Seq<char>, c: char) -> bool {
    exists|i: int| 0 <= i < s.len() && s[i] == c
}

/// The index of the first `c` in `s`, or the length of `s` if there is none.
pub open spec fn first_index(s: Seq<char>, c: char) -> nat
    decreases s.len(),
{
    if s.len() == 0 || s[0] == c {
        0
    } else {
        1 + first_index(s.skip(1), c)
    }
}

/// The pieces of `s` between every two occurrences of `sep`, the piece before
/// the first and the piece after the last; there is always at least one.
pub open spec fn split(s: Seq<char>, sep: char) -> Seq<Seq<char>>
    decreases s.len(),
{
    let i = first_index(s, sep) as int;
    if i >= s.len() {
        seq![s]
    } else {
        seq![s.take(i)] + split(s.skip(i + 1), sep)
    }
}

/// `s` without every `c` at its end.
pub open spec fn trim_end(s: Seq<char>, c: char) -> Seq<char>
    decreases s.len(),
{
    if s.len() > 0 && s.last() == c {
        trim_end(s.drop_last(), c)
    } else {
        s
    }
}

/// Whether `s` begins with `p`.
pub open spec fn starts_with(s: Seq<char>, p: Seq<char>) -> bool {
    p.len() <= s.len() && s.take(p.len() as int) == p
}

/// `text` with every occurrence of `pat` replaced by `with`, found from left
/// to right and never overlapping. An empty `pat` replaces nothing.
pub open spec fn replaced(text: Seq<char>, pat: Seq<char>, with: Seq<char>) -> Seq<char>
    decreases text.len(),
{
    if pat.len() == 0 || text.len() == 0 {
        text
    } else if starts_with(text, pat) {
        with + replaced(text.skip(pat.len() as int), pat, with)
    } else {
        seq![text[0]] + replaced(text.skip(1), pat, with)
    }
}

/// The first index of a character lies within the text or at its end, holds
/// the character, and has no such character before it.
pub proof fn lemma_first_index(s: Seq<char>, c: char)
    ensures
        first_index(s, c) <= s.len(),
        first_index(s, c) < s.len() ==> s[first_index(s, c) as int] == c,
        forall|i: int| 0 <= i < first_index(s, c) ==> s[i] != c,
        has_char(s, c) <==> first_index(s, c) < s.len(),
    decreases s.len(),
{
    if s.len() == 0 || s[0] == c {
    } else {
        let rest = s.skip(1);
        lemma_first_index(rest, c);
        assert forall|i: int| 0 <= i < first_index(s, c) implies s[i] != c by {
            if i > 0 {
                assert(s[i] == rest[i - 1]);
            }
        }
        if has_char(s, c) {
            let i = choose|i: int| 0 <= i < s.len() && s[i] == c;
            assert(first_index(s, c) <= i);
        }
    }
}

/// The index of the first `c` in `s` from `from` on.
pub fn find_char(s: &[char], from: usize, c: char) -> (i: usize)
    requires
        from <= s@.len(),
    ensures
        i == from + first_index(s@.skip(from as int), c),
        from <= i <= s@.len(),
{
    let mut i: usize = from;
    while i < s.len() && s[i] != c
        invariant
            from <= i <= s.len(),
            first_index(s@.skip(from as int), c) == (i - from) + first_index(
                s@.skip(i as int),
                c,
            ),
        decreases s.len() - i,
    {
        assert(s@.skip(i as int).skip(1) =~= s@.skip(i + 1));
        i += 1;
    }
    i
}

/// Whether `s` holds `c`.
pub fn contains_char(s: &[char], c: char) -> (r: bool)
    ensures
        r == has_char(s@, c),
{
    proof {
        lemma_first_index(s@, c);
        assert(s@.skip(0) =~= s@);
    }
    find_char(s, 0, c) < s.len()
}

/// A copy of the characters of `s`.
pub fn copy_chars(s: &[char]) -> (v: Vec<char>)
    ensures
        v@ == s@,
{
    let mut v: Vec<char> = Vec::new();
    let mut i: usize = 0;
    while i < s.len()
        invariant
            i <= s.len(),
            v@ == s@.take(i as int),
        decreases s.len() - i,
    {
        v.push(s[i]);
        assert(s@.take(i + 1) =~= s@.take(i as int).push(s@[i as int]));
        i += 1;
    }
    assert(s@.take(s@.len() as int) =~= s@);
    v
}

/// The pieces of `s` between the occurrences of `sep`.
pub fn split_chars(s: &[char], sep: char) -> (parts: Vec<Vec<char>>)
    ensures
        parts@.len() == split(s@, sep).len(),
        forall|k: int| 0 <= k < parts@.len() ==> (#[trigger] parts@[k])@ == split(s@, sep)[k],
        parts@.len() >= 1,
{
    let mut parts: Vec<Vec<char>> = Vec::new();
    let mut start: usize = 0;
    let ghost mut done: Seq<Seq<char>> = Seq::empty();
    assert(s@.skip(0) =~= s@);
    loop
        invariant
            start <= s.len(),
            done.len() == parts@.len(),
            forall|k: int| 0 <= k < parts@.len() ==> (#[trigger] parts@[k])@ == done[k],
            split(s@, sep) == done + split(s@.skip(start as int), sep),
        decreases s.len() - start,
    {
        let ghost here = s@.skip(start as int);
        let end = find_char(s, start, sep);
        let piece = copy_chars(slice_subrange(s, start, end));
        assert(piece@ =~= here.take(first_index(here, sep) as int));
        parts.push(piece);
        if end >= s.len() {
            proof {
                assert(here.take(here.len() as int) =~= here);
                done = done.push(here);
                assert(split(s@, sep) =~= done);
            }
            return parts;
        }
        proof {
            done = done.push(piece@);
            assert(here.skip(first_index(here, sep) as int + 1) =~= s@.skip(end + 1));
            assert(split(s@, sep) =~= done + split(s@.skip(end + 1), sep));
        }
        start = end + 1;
    }
}

/// How long `s` is without every `c` at its end.
pub fn trim_end_len(s: &[char], c: char) -> (n: usize)
    ensures
        n <= s@.len(),
        s@.take(n as int) == trim_end(s@, c),
{
    let mut n: usize = s.len();
    assert(s@.take(n as int) =~= s@);
    while n > 0 && s[n - 1] == c
        invariant
            n <= s.len(),
            trim_end(s@, c) == trim_end(s@.take(n as int), c),
        decreases n,
    {
        assert(s@.take(n as int).drop_last() =~= s@.take(n - 1));
        n -= 1;
    }
    n
}

/// Whether `text` has `pat` at index `at`.
pub fn has_at(text: &[char], at: usize, pat: &[char]) -> (r: bool)
    requires
        at <= text@.len(),
    ensures
        r == starts_with(text@.skip(at as int), pat@),
{
    if pat.len() > text.len() - at {
        return false;
    }
    let ghost here = text@.skip(at as int);
    let mut k: usize = 0;
    while k < pat.len()
        invariant
            k <= pat.len(),
            at + pat.len() <= text.len(),
            here == text@.skip(at as int),
            here.take(k as int) == pat@.take(k as int),
        decreases pat.len() - k,
    {
        if text[at + k] != pat[k] {
            assert(here.take(pat@.len() as int)[k as int] != pat@[k as int]);
            return false;
        }
        assert(here.take(k + 1) =~= here.take(k as int).push(here[k as int]));
        assert(pat@.take(k + 1) =~= pat@.take(k as int).push(pat@[k as int]));
        k += 1;
    }
    assert(pat@.take(pat@.len() as int) =~= pat@);
    true
}

/// `text` with every occurrence of `pat` replaced by `with`.
pub fn replace_all(text: &[char], pat: &[char], with: &[char]) -> (out: Vec<char>)
    ensures
        out@ == replaced(text@, pat@, with@),
{
    if pat.len() == 0 {
        return copy_chars(text);
    }
    let mut out: Vec<char> = Vec::new();
    let mut i: usize = 0;
    assert(text@.skip(0) =~= text@);
    while i < text.len()
        invariant
            i <= text.len(),
            pat@.len() > 0,
            out@ + replaced(text@.skip(i as int), pat@, with@) == replaced(text@, pat@, with@),
        decreases text.len() - i,
    {
        let ghost here = text@.skip(i as int);
        let ghost before = out@;
        if has_at(text, i, pat) {
            let mut copy = copy_chars(with);
            out.append(&mut copy);
            assert(here.skip(pat@.len() as int) =~= text@.skip(i + pat@.len()));
            assert(out@ + replaced(text@.skip(i + pat@.len()), pat@, with@) =~= before + replaced(
                here,
                pat@,
                with@,
            ));
            i += pat.len();
        } else {
            out.push(text[i]);
            assert(here.skip(1) =~= text@.skip(i + 1));
            assert(out@ + replaced(text@.skip(i + 1), pat@, with@) =~= before + replaced(
                here,
                pat@,
                with@,
            ));
            i += 1;
        }
    }
    assert(out@ =~= out@ + replaced(text@.skip(i as int), pat@, with@));
    out
}

} // verus!
