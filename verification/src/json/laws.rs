//! What holds between the parser and the serializer.
//!
//! The laws speak of the model: of `document`, which is what `from_str`
//! computes, and of `render`, which is what `Value::to_string` computes.

use vstd::prelude::*;
use crate::bindings::{has_key, key_index, lemma_key_index, lemma_key_index_own, lemma_same_keys};
use crate::json::chars::is_alphabetic;
use crate::json::grammar::{document, lemma_whitespace_run_bound, skip_whitespace, value};
use crate::json::model::{Json, SyntaxError};
use crate::json::proofs::round_trip::lemma_render_value;
use crate::json::proofs::soundness::lemma_value_sound;
use crate::json::proofs::whitespace::{
    all_whitespace,
    lemma_value_append,
    lemma_whitespace_run_full,
    lemma_whitespace_run_through,
};
use crate::json::serializer::{quoted, render};

verus! {

/// A value is equal to itself, as long as it is well formed and holds
/// neither NaN nor an infinity.
pub proof fn law_equal_to_itself(j: Json)
    requires
        j.well_formed(),
        j.finite(),
    ensures
        j.same_as(j),
    decreases j,
{
    match j {
        Json::Array(items) => {
            assert forall|i: int| 0 <= i < items.len() implies (#[trigger] items[i]).same_as(
                items[i],
            ) by {
                law_equal_to_itself(items[i]);
            }
        },
        Json::Object(members) => {
            assert forall|i: int| 0 <= i < members.len() implies has_key(
                members,
                (#[trigger] members[i]).0,
            ) && members[i].1.same_as(members[key_index(members, members[i].0)].1) by {
                lemma_key_index_own(members, i);
                law_equal_to_itself(members[i].1);
            }
        },
        _ => {},
    }
}

/// Equality does not depend on the side: where a well-formed value equals
/// another, the other equals it.
pub proof fn law_equal_both_ways(a: Json, b: Json)
    requires
        a.well_formed(),
        b.well_formed(),
        a.same_as(b),
    ensures
        b.same_as(a),
    decreases a,
{
    match (a, b) {
        (Json::Array(x), Json::Array(y)) => {
            assert forall|i: int| 0 <= i < y.len() implies (#[trigger] y[i]).same_as(x[i]) by {
                assert(x[i].same_as(y[i]));
                law_equal_both_ways(x[i], y[i]);
            }
        },
        (Json::Object(x), Json::Object(y)) => {
            lemma_same_keys(x, y);
            assert forall|j: int| 0 <= j < y.len() implies has_key(x, (#[trigger] y[j]).0)
                && y[j].1.same_as(x[key_index(x, y[j].0)].1) by {
                let i = key_index(x, y[j].0);
                lemma_key_index(x, y[j].0);
                assert(x[i].0 == y[j].0);
                lemma_key_index_own(y, j);
                assert(x[i].1.same_as(y[key_index(y, x[i].0)].1));
                law_equal_both_ways(x[i].1, y[j].1);
            }
        },
        _ => {},
    }
}

/// Equality carries over: where a value equals a second and the second a
/// third, the first equals the third.
pub proof fn law_equal_carries_over(a: Json, b: Json, c: Json)
    requires
        a.same_as(b),
        b.same_as(c),
    ensures
        a.same_as(c),
    decreases a,
{
    match (a, b, c) {
        (Json::Array(x), Json::Array(y), Json::Array(z)) => {
            assert forall|i: int| 0 <= i < x.len() implies (#[trigger] x[i]).same_as(z[i]) by {
                assert(y[i].same_as(z[i]));
                law_equal_carries_over(x[i], y[i], z[i]);
            }
        },
        (Json::Object(x), Json::Object(y), Json::Object(z)) => {
            assert forall|i: int| 0 <= i < x.len() implies has_key(z, (#[trigger] x[i]).0)
                && x[i].1.same_as(z[key_index(z, x[i].0)].1) by {
                let k = key_index(y, x[i].0);
                lemma_key_index(y, x[i].0);
                assert(y[k].0 == x[i].0);
                assert(has_key(z, y[k].0));
                law_equal_carries_over(x[i].1, y[k].1, z[key_index(z, y[k].0)].1);
            }
        },
        _ => {},
    }
}

/// A value without NaN or infinities, serialized and parsed again, is the
/// value it was, the members of every object in their order, and so equal to
/// it.
pub proof fn law_round_trip(j: Json)
    requires
        j.well_formed(),
        j.finite(),
    ensures
        document(render(j)) == Ok::<_, SyntaxError>(j),
        document(render(j)) matches Ok(k) && k.same_as(j),
{
    law_equal_to_itself(j);
    lemma_render_value(j, Seq::empty());
    assert(render(j) + Seq::<char>::empty() =~= render(j));
    assert(skip_whitespace(Seq::<char>::empty()) =~= Seq::<char>::empty());
}

/// Escaping loses nothing: a string of any scalar values, serialized and
/// parsed again, is the same string.
pub proof fn law_string_round_trip(s: Seq<char>)
    ensures
        document(quoted(s)) == Ok::<_, SyntaxError>(Json::String(s)),
{
    law_round_trip(Json::String(s));
}

/// What the parser accepts is well formed and holds neither NaN nor an
/// infinity.
pub proof fn law_parsed_is_well_formed(text: Seq<char>)
    ensures
        document(text) matches Ok(j) ==> j.well_formed() && j.finite(),
{
    lemma_value_sound(text);
}

/// The text that the serializer gives for a parsed value is itself accepted
/// by the parser, and as the same value.
pub proof fn law_serialized_is_accepted(text: Seq<char>)
    ensures
        document(text) matches Ok(j) ==> document(render(j)) == Ok::<_, SyntaxError>(j),
{
    law_parsed_is_well_formed(text);
    if let Ok(j) = document(text) {
        law_round_trip(j);
    }
}

/// Whitespace before a text changes nothing: the outcome, value or failure,
/// is the same.
pub proof fn law_leading_whitespace(space: Seq<char>, text: Seq<char>)
    requires
        all_whitespace(space),
    ensures
        document(space + text) == document(text),
{
    lemma_whitespace_run_through(space, text);
    lemma_whitespace_run_bound(text);
    assert(skip_whitespace(space + text) =~= skip_whitespace(text));
}

/// Whitespace behind a text that is accepted changes nothing. The first
/// character of that whitespace must not be alphabetic, which holds of all
/// ASCII whitespace.
///
/// Behind a text that is not accepted, whitespace can change the failure: a
/// string that the end of the text cuts off behind a backslash is
/// unterminated, and with a space behind it the backslash starts an escape
/// that does not exist.
pub proof fn law_trailing_whitespace(text: Seq<char>, space: Seq<char>)
    requires
        document(text) is Ok,
        all_whitespace(space),
        space.len() > 0 ==> !is_alphabetic(space[0]),
    ensures
        document(text + space) == document(text),
{
    let rest = value(text)->Ok_0.1;
    lemma_value_append(text, space);
    lemma_whitespace_run_bound(rest);
    lemma_whitespace_run_full(rest);
    lemma_whitespace_run_through(rest, space);
    lemma_whitespace_run_through(space, Seq::empty());
    assert(space + Seq::<char>::empty() =~= space);
}

/// Whitespace around a text that is accepted changes nothing.
pub proof fn law_whitespace_around(before: Seq<char>, text: Seq<char>, after: Seq<char>)
    requires
        document(text) is Ok,
        all_whitespace(before),
        all_whitespace(after),
        after.len() > 0 ==> !is_alphabetic(after[0]),
    ensures
        document(before + text + after) == document(text),
{
    law_trailing_whitespace(text, after);
    law_leading_whitespace(before, text + after);
    assert(before + (text + after) =~= before + text + after);
}

} // verus!
