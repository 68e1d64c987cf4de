//! What the parser accepts is well formed, and every value takes at least one
//! character.

use vstd::prelude::*;
use crate::bindings::{bind, distinct_keys, lemma_bind_distinct};
use crate::json::chars::is_digit;
use crate::json::grammar::{
    array,
    elements,
    lemma_alphabetic_run_bound,
    lemma_number_run_bound,
    lemma_whitespace_run_bound,
    object,
    simple_escape,
    skip_whitespace,
    string_body,
    unicode_escape,
    value,
};
use crate::json::model::Json;

verus! {

/// A string that was read to its closing quote took at least that quote.
pub proof fn lemma_string_body_consumes(s: Seq<char>, acc: Seq<char>)
    ensures
        string_body(s, acc) matches Ok((_, rest)) ==> rest.len() < s.len(),
    decreases s.len(),
{
    if s.len() == 0 {
    } else if s[0] == '"' {
    } else if s[0] == '\\' {
        if s.len() < 2 {
        } else if s[1] == 'u' {
            if s.len() >= 6 {
                match unicode_escape(s.subrange(2, 6)) {
                    Some(c) => {
                        lemma_string_body_consumes(s.skip(6), acc.push(c));
                    },
                    None => {},
                }
            }
        } else {
            match simple_escape(s[1]) {
                Some(c) => {
                    lemma_string_body_consumes(s.skip(2), acc.push(c));
                },
                None => {},
            }
        }
    } else {
        lemma_string_body_consumes(s.skip(1), acc.push(s[0]));
    }
}

/// A value that was parsed is well formed, holds no NaN and no infinity, and
/// took at least one character.
pub proof fn lemma_value_sound(s: Seq<char>)
    ensures
        value(s) matches Ok((j, rest)) ==> j.well_formed() && j.finite() && rest.len() < s.len(),
    decreases s.len(), 1nat,
{
    let t = skip_whitespace(s);
    lemma_whitespace_run_bound(s);
    if t.len() > 0 {
        let c = t[0];
        if c == '{' {
            lemma_object_sound(t.skip(1));
        } else if c == '[' {
            lemma_array_sound(t.skip(1));
        } else if c == '"' {
            lemma_string_body_consumes(t.skip(1), Seq::empty());
        } else if c == 't' || c == 'f' || c == 'n' {
            lemma_alphabetic_run_bound(t);
        } else if is_digit(c) || c == '-' {
            lemma_number_run_bound(t);
        }
    }
}

/// The same of an array after its opening bracket.
pub proof fn lemma_array_sound(s: Seq<char>)
    ensures
        array(s) matches Ok((j, rest)) ==> j.well_formed() && j.finite() && rest.len() < s.len(),
    decreases s.len(), 3nat,
{
    let t = skip_whitespace(s);
    lemma_whitespace_run_bound(s);
    if t.len() > 0 && t[0] == ']' {
    } else {
        lemma_elements_sound(t, Seq::empty());
    }
}

/// The same of the elements of an array, where those read so far are well
/// formed and hold neither NaN nor an infinity.
pub proof fn lemma_elements_sound(s: Seq<char>, acc: Seq<Json>)
    requires
        forall|i: int| 0 <= i < acc.len() ==> (#[trigger] acc[i]).well_formed(),
        forall|i: int| 0 <= i < acc.len() ==> (#[trigger] acc[i]).finite(),
    ensures
        elements(s, acc) matches Ok((j, rest)) ==> j.well_formed() && j.finite() && rest.len()
            < s.len(),
    decreases s.len(), 2nat,
{
    lemma_value_sound(s);
    match value(s) {
        Err(e) => {},
        Ok((item, rest)) => {
            let t = skip_whitespace(rest);
            lemma_whitespace_run_bound(rest);
            if t.len() == 0 {
            } else if t[0] == ']' {
            } else if t[0] == ',' {
                lemma_elements_sound(t.skip(1), acc.push(item));
            }
        },
    }
}

/// The same of an object after its opening brace.
pub proof fn lemma_object_sound(s: Seq<char>)
    ensures
        object(s) matches Ok((j, rest)) ==> j.well_formed() && j.finite() && rest.len() < s.len(),
    decreases s.len(), 3nat,
{
    let t = skip_whitespace(s);
    lemma_whitespace_run_bound(s);
    if t.len() > 0 && t[0] == '}' {
    } else {
        lemma_members_sound(t, Seq::empty());
    }
}

/// The same of the members of an object, where those read so far have
/// distinct keys and values that are well formed and hold neither NaN nor an
/// infinity.
pub proof fn lemma_members_sound(s: Seq<char>, acc: Seq<(Seq<char>, Json)>)
    requires
        distinct_keys(acc),
        forall|i: int| 0 <= i < acc.len() ==> (#[trigger] acc[i]).1.well_formed(),
        forall|i: int| 0 <= i < acc.len() ==> (#[trigger] acc[i]).1.finite(),
    ensures
        crate::json::grammar::members(s, acc) matches Ok((j, rest)) ==> j.well_formed()
            && j.finite() && rest.len() < s.len(),
    decreases s.len(), 2nat,
{
    lemma_value_sound(s);
    match value(s) {
        Ok((Json::String(key), rest)) => {
            let t = skip_whitespace(rest);
            lemma_whitespace_run_bound(rest);
            if t.len() == 0 || t[0] != ':' {
            } else {
                lemma_value_sound(t.skip(1));
                match value(t.skip(1)) {
                    Err(e) => {},
                    Ok((item, rest)) => {
                        let u = skip_whitespace(rest);
                        lemma_whitespace_run_bound(rest);
                        let bound = bind(acc, key, item);
                        lemma_bind_distinct(acc, key, item);
                        assert forall|i: int| 0 <= i < bound.len() implies (
                        #[trigger] bound[i]).1.well_formed() && bound[i].1.finite() by {
                            if bound[i].1 != item {
                                assert(bound[i].1 == acc[i].1);
                            }
                        }
                        if u.len() == 0 {
                        } else if u[0] == '}' {
                        } else if u[0] == ',' {
                            lemma_members_sound(u.skip(1), bound);
                        }
                    },
                }
            }
        },
        _ => {},
    }
}

} // verus!
