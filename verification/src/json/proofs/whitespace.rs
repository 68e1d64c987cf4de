//! What stays the same when text is put before or behind a text.

use vstd::prelude::*;
use crate::bindings::bind;
use crate::json::chars::{is_alphabetic, is_number_char};
use crate::json::grammar::{
    alphabetic_run,
    array,
    elements,
    lemma_alphabetic_run_bound,
    lemma_number_run_bound,
    lemma_whitespace_run_bound,
    number_run,
    object,
    simple_escape,
    skip_whitespace,
    string_body,
    unicode_escape,
    value,
    whitespace_run,
};
use crate::json::model::{Json, SyntaxError};
use crate::text::space::is_whitespace;

verus! {

/// Whether every character of `s` is whitespace.
pub open spec fn all_whitespace(s: Seq<char>) -> bool {
    forall|i: int| 0 <= i < s.len() ==> is_whitespace(#[trigger] s[i])
}

/// Whether `b`, put behind a text, leaves a number or a literal at the end of
/// that text as it was: `b` is empty or starts with a character that is
/// neither a number character nor alphabetic.
pub open spec fn inert(b: Seq<char>) -> bool {
    b.len() == 0 || (!is_number_char(b[0]) && !is_alphabetic(b[0]))
}

/// Whitespace all through `a` is skipped together with what `b` starts with.
pub proof fn lemma_whitespace_run_through(a: Seq<char>, b: Seq<char>)
    requires
        all_whitespace(a),
    ensures
        whitespace_run(a + b) == a.len() + whitespace_run(b),
    decreases a.len(),
{
    if a.len() == 0 {
        assert(a + b =~= b);
    } else {
        assert((a + b)[0] == a[0]);
        assert((a + b).skip(1) =~= a.skip(1) + b);
        assert forall|i: int| 0 <= i < a.skip(1).len() implies is_whitespace(
            #[trigger] a.skip(1)[i],
        ) by {
            assert(a.skip(1)[i] == a[i + 1]);
        }
        lemma_whitespace_run_through(a.skip(1), b);
    }
}

/// A run of whitespace that covers the text holds whitespace only.
pub proof fn lemma_whitespace_run_full(s: Seq<char>)
    requires
        whitespace_run(s) == s.len(),
    ensures
        all_whitespace(s),
    decreases s.len(),
{
    if s.len() > 0 {
        lemma_whitespace_run_bound(s.skip(1));
        lemma_whitespace_run_full(s.skip(1));
        assert forall|i: int| 0 <= i < s.len() implies is_whitespace(#[trigger] s[i]) by {
            if i > 0 {
                assert(s[i] == s.skip(1)[i - 1]);
            }
        }
    }
}

/// Where something other than whitespace is left in `s`, appending to `s`
/// does not change what is skipped.
pub proof fn lemma_skip_whitespace_append(s: Seq<char>, b: Seq<char>)
    requires
        skip_whitespace(s).len() > 0,
    ensures
        skip_whitespace(s + b) == skip_whitespace(s) + b,
    decreases s.len(),
{
    lemma_whitespace_run_bound(s);
    if is_whitespace(s[0]) {
        assert((s + b)[0] == s[0]);
        assert((s + b).skip(1) =~= s.skip(1) + b);
        lemma_whitespace_run_bound(s.skip(1));
        assert(skip_whitespace(s.skip(1)) =~= skip_whitespace(s));
        lemma_skip_whitespace_append(s.skip(1), b);
        lemma_whitespace_run_bound(s.skip(1) + b);
        assert(skip_whitespace(s + b) =~= skip_whitespace(s.skip(1) + b));
    } else {
        assert((s + b)[0] == s[0]);
        assert(skip_whitespace(s + b) =~= s + b);
        assert(skip_whitespace(s) =~= s);
    }
}

/// A run of number characters that ends within `s`, or behind which `b`
/// cannot go on, is as long in `s + b`.
pub proof fn lemma_number_run_stable(s: Seq<char>, b: Seq<char>)
    requires
        number_run(s) < s.len() || inert(b),
    ensures
        number_run(s + b) == number_run(s),
    decreases s.len(),
{
    lemma_number_run_bound(s);
    if s.len() == 0 {
        assert(s + b =~= b);
    } else {
        assert((s + b)[0] == s[0]);
        if is_number_char(s[0]) {
            assert((s + b).skip(1) =~= s.skip(1) + b);
            lemma_number_run_stable(s.skip(1), b);
        }
    }
}

/// A run of alphabetic characters that ends within `s`, or behind which `b`
/// cannot go on, is as long in `s + b`.
pub proof fn lemma_alphabetic_run_stable(s: Seq<char>, b: Seq<char>)
    requires
        alphabetic_run(s) < s.len() || inert(b),
    ensures
        alphabetic_run(s + b) == alphabetic_run(s),
    decreases s.len(),
{
    lemma_alphabetic_run_bound(s);
    if s.len() == 0 {
        assert(s + b =~= b);
    } else {
        assert((s + b)[0] == s[0]);
        if is_alphabetic(s[0]) {
            assert((s + b).skip(1) =~= s.skip(1) + b);
            lemma_alphabetic_run_stable(s.skip(1), b);
        }
    }
}

/// A string that closes within `s` closes in the same place within `s + b`.
pub proof fn lemma_string_body_append(s: Seq<char>, acc: Seq<char>, b: Seq<char>)
    requires
        string_body(s, acc) is Ok,
    ensures
        string_body(s + b, acc) == Ok::<_, SyntaxError>(
            (string_body(s, acc)->Ok_0.0, string_body(s, acc)->Ok_0.1 + b),
        ),
    decreases s.len(),
{
    let w = s + b;
    assert(w[0] == s[0]);
    if s[0] == '"' {
        assert(w.skip(1) =~= s.skip(1) + b);
    } else if s[0] == '\\' {
        assert(w[1] == s[1]);
        if s[1] == 'u' {
            assert(w.subrange(2, 6) =~= s.subrange(2, 6));
            let c = unicode_escape(s.subrange(2, 6))->Some_0;
            assert(w.skip(6) =~= s.skip(6) + b);
            lemma_string_body_append(s.skip(6), acc.push(c), b);
        } else {
            let c = simple_escape(s[1])->Some_0;
            assert(w.skip(2) =~= s.skip(2) + b);
            lemma_string_body_append(s.skip(2), acc.push(c), b);
        }
    } else {
        assert(w.skip(1) =~= s.skip(1) + b);
        lemma_string_body_append(s.skip(1), acc.push(s[0]), b);
    }
}

/// A value that `s` starts with is the value that `s + b` starts with, as
/// long as something follows it in `s` or `b` cannot prolong it.
pub proof fn lemma_value_append(s: Seq<char>, b: Seq<char>)
    requires
        value(s) is Ok,
        value(s)->Ok_0.1.len() > 0 || inert(b),
    ensures
        value(s + b) == Ok::<_, SyntaxError>((value(s)->Ok_0.0, value(s)->Ok_0.1 + b)),
    decreases s.len(), 1nat,
{
    let t = skip_whitespace(s);
    lemma_whitespace_run_bound(s);
    lemma_skip_whitespace_append(s, b);
    let w = t + b;
    let c = t[0];
    assert(w[0] == c);
    assert(w.skip(1) =~= t.skip(1) + b);
    if c == '{' {
        lemma_object_append(t.skip(1), b);
    } else if c == '[' {
        lemma_array_append(t.skip(1), b);
    } else if c == '"' {
        lemma_string_body_append(t.skip(1), Seq::empty(), b);
    } else if c == 't' || c == 'f' || c == 'n' {
        let n = alphabetic_run(t) as int;
        lemma_alphabetic_run_bound(t);
        lemma_alphabetic_run_stable(t, b);
        assert(w.take(n) =~= t.take(n));
        assert(w.skip(n) =~= t.skip(n) + b);
    } else {
        let n = number_run(t) as int;
        lemma_number_run_bound(t);
        lemma_number_run_stable(t, b);
        assert(w.take(n) =~= t.take(n));
        assert(w.skip(n) =~= t.skip(n) + b);
    }
}

/// An array that closes within `s` closes in the same place within `s + b`.
pub proof fn lemma_array_append(s: Seq<char>, b: Seq<char>)
    requires
        array(s) is Ok,
    ensures
        array(s + b) == Ok::<_, SyntaxError>((array(s)->Ok_0.0, array(s)->Ok_0.1 + b)),
    decreases s.len(), 3nat,
{
    let t = skip_whitespace(s);
    lemma_whitespace_run_bound(s);
    if t.len() > 0 {
        lemma_skip_whitespace_append(s, b);
        assert((t + b)[0] == t[0]);
        if t[0] == ']' {
            assert((t + b).skip(1) =~= t.skip(1) + b);
        } else {
            lemma_elements_append(t, Seq::empty(), b);
        }
    }
}

/// The same of the elements of an array.
pub proof fn lemma_elements_append(s: Seq<char>, acc: Seq<Json>, b: Seq<char>)
    requires
        elements(s, acc) is Ok,
    ensures
        elements(s + b, acc) == Ok::<_, SyntaxError>(
            (elements(s, acc)->Ok_0.0, elements(s, acc)->Ok_0.1 + b),
        ),
    decreases s.len(), 2nat,
{
    let (item, rest) = value(s)->Ok_0;
    let t = skip_whitespace(rest);
    lemma_whitespace_run_bound(rest);
    lemma_value_append(s, b);
    lemma_skip_whitespace_append(rest, b);
    assert((t + b)[0] == t[0]);
    assert((t + b).skip(1) =~= t.skip(1) + b);
    if t[0] == ',' {
        lemma_elements_append(t.skip(1), acc.push(item), b);
    }
}

/// An object that closes within `s` closes in the same place within
/// `s + b`.
pub proof fn lemma_object_append(s: Seq<char>, b: Seq<char>)
    requires
        object(s) is Ok,
    ensures
        object(s + b) == Ok::<_, SyntaxError>((object(s)->Ok_0.0, object(s)->Ok_0.1 + b)),
    decreases s.len(), 3nat,
{
    let t = skip_whitespace(s);
    lemma_whitespace_run_bound(s);
    if t.len() > 0 {
        lemma_skip_whitespace_append(s, b);
        assert((t + b)[0] == t[0]);
        if t[0] == '}' {
            assert((t + b).skip(1) =~= t.skip(1) + b);
        } else {
            lemma_members_append(t, Seq::empty(), b);
        }
    }
}

/// The same of the members of an object.
pub proof fn lemma_members_append(s: Seq<char>, acc: Seq<(Seq<char>, Json)>, b: Seq<char>)
    requires
        crate::json::grammar::members(s, acc) is Ok,
    ensures
        crate::json::grammar::members(s + b, acc) == Ok::<_, SyntaxError>(
            (
                crate::json::grammar::members(s, acc)->Ok_0.0,
                crate::json::grammar::members(s, acc)->Ok_0.1 + b,
            ),
        ),
    decreases s.len(), 2nat,
{
    let (k, rest) = value(s)->Ok_0;
    let key = k->String_0;
    let t = skip_whitespace(rest);
    lemma_whitespace_run_bound(rest);
    lemma_value_append(s, b);
    lemma_skip_whitespace_append(rest, b);
    assert((t + b)[0] == t[0]);
    assert((t + b).skip(1) =~= t.skip(1) + b);
    let (item, rest2) = value(t.skip(1))->Ok_0;
    let u = skip_whitespace(rest2);
    lemma_whitespace_run_bound(rest2);
    lemma_value_append(t.skip(1), b);
    lemma_skip_whitespace_append(rest2, b);
    assert((u + b)[0] == u[0]);
    assert((u + b).skip(1) =~= u.skip(1) + b);
    if u[0] == ',' {
        lemma_members_append(u.skip(1), bind(acc, key, item), b);
    }
}

} // verus!
