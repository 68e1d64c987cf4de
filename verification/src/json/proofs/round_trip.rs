//! Parsing what the serializer wrote gives back what was serialized.

use vstd::prelude::*;
use crate::bindings::{bind, distinct_keys, has_key, key_index, lemma_key_index};
use crate::json::chars::{hex_digit, hex_value, is_alphabetic, is_digit, is_number_char};
use crate::json::grammar::{
    alphabetic_run,
    elements,
    hex4,
    is_bmp_scalar,
    number_run,
    simple_escape,
    skip_whitespace,
    string_body,
    unicode_escape,
    value,
};
use crate::json::model::{digit_run, is_decimal_literal, is_sign, Json, Num, SyntaxError};
use crate::json::serializer::{
    escape,
    escaped,
    quoted,
    render,
    render_items,
    render_members,
    separator,
};
use crate::text::space::is_whitespace;

verus! {

/// A run of digits lies within the text and holds digits only.
pub proof fn lemma_digit_run(s: Seq<char>)
    ensures
        digit_run(s) <= s.len(),
        forall|i: int| 0 <= i < digit_run(s) ==> is_digit(#[trigger] s[i]),
    decreases s.len(),
{
    if s.len() > 0 && is_digit(s[0]) {
        let rest = s.skip(1);
        lemma_digit_run(rest);
        assert forall|i: int| 0 <= i < digit_run(s) implies is_digit(#[trigger] s[i]) by {
            if i > 0 {
                assert(s[i] == rest[i - 1]);
            }
        }
    }
}

/// A decimal literal holds number characters only.
pub proof fn lemma_decimal_chars(s: Seq<char>)
    requires
        is_decimal_literal(s),
    ensures
        forall|i: int| 0 <= i < s.len() ==> is_number_char(#[trigger] s[i]),
{
    let a: int = if s.len() > 0 && is_sign(s[0]) {
        1
    } else {
        0
    };
    let whole = digit_run(s.skip(a));
    let p: int = a + whole;
    let has_point = p < s.len() && s[p] == '.';
    let fraction = if has_point {
        digit_run(s.skip(p + 1))
    } else {
        0
    };
    let q: int = if has_point {
        p + 1 + fraction
    } else {
        p
    };
    lemma_digit_run(s.skip(a));
    if has_point {
        lemma_digit_run(s.skip(p + 1));
    }
    let b: int = if q + 1 < s.len() && is_sign(s[q + 1]) {
        q + 2
    } else {
        q + 1
    };
    if q < s.len() {
        lemma_digit_run(s.skip(b));
    }
    assert forall|i: int| 0 <= i < s.len() implies is_number_char(#[trigger] s[i]) by {
        if i < a {
        } else if i < p {
            assert(s[i] == s.skip(a)[i - a]);
        } else if has_point && i == p {
        } else if i < q {
            assert(s[i] == s.skip(p + 1)[i - (p + 1)]);
        } else if i == q {
        } else if i < b {
        } else {
            assert(s[i] == s.skip(b)[i - b]);
        }
    }
}

/// A text of number characters, followed by nothing or by a character of
/// another kind, is the whole run.
pub proof fn lemma_number_run_append(text: Seq<char>, tail: Seq<char>)
    requires
        forall|i: int| 0 <= i < text.len() ==> is_number_char(#[trigger] text[i]),
        tail.len() == 0 || !is_number_char(tail[0]),
    ensures
        number_run(text + tail) == text.len(),
    decreases text.len(),
{
    let s = text + tail;
    if text.len() == 0 {
        assert(s =~= tail);
    } else {
        assert(s[0] == text[0]);
        assert(s.skip(1) =~= text.skip(1) + tail);
        assert forall|i: int| 0 <= i < text.skip(1).len() implies is_number_char(
            #[trigger] text.skip(1)[i],
        ) by {
            assert(text.skip(1)[i] == text[i + 1]);
        }
        lemma_number_run_append(text.skip(1), tail);
    }
}

/// A word of alphabetic characters, followed by nothing or by a character of
/// another kind, is the whole run.
pub proof fn lemma_alphabetic_run_append(word: Seq<char>, tail: Seq<char>)
    requires
        forall|i: int| 0 <= i < word.len() ==> is_alphabetic(#[trigger] word[i]),
        tail.len() == 0 || !is_alphabetic(tail[0]),
    ensures
        alphabetic_run(word + tail) == word.len(),
    decreases word.len(),
{
    let s = word + tail;
    if word.len() == 0 {
        assert(s =~= tail);
    } else {
        assert(s[0] == word[0]);
        assert(s.skip(1) =~= word.skip(1) + tail);
        assert forall|i: int| 0 <= i < word.skip(1).len() implies is_alphabetic(
            #[trigger] word.skip(1)[i],
        ) by {
            assert(word.skip(1)[i] == word[i + 1]);
        }
        lemma_alphabetic_run_append(word.skip(1), tail);
    }
}

/// Reading what `escape` wrote for one character gives that character back.
pub proof fn lemma_escape_read(c: char, after: Seq<char>, acc: Seq<char>)
    ensures
        string_body(escape(c) + after, acc) == string_body(after, acc.push(c)),
{
    let e = escape(c);
    let s = e + after;
    if c == '"' || c == '\\' || c == '/' || c == '\u{8}' || c == '\u{c}' || c == '\n' || c == '\r'
        || c == '\t' {
        assert(e.len() == 2);
        assert(s[0] == e[0] && s[1] == e[1]);
        assert(s.skip(2) =~= after);
        assert(simple_escape(s[1]) == Some(c));
    } else if (c as u32) <= 0x1F {
        let hi = (c as u32 / 16) as nat;
        let lo = (c as u32 % 16) as nat;
        assert(e.len() == 6);
        assert(s[0] == '\\' && s[1] == 'u');
        let digits = s.subrange(2, 6);
        assert(digits =~= seq!['0', '0', hex_digit(hi), hex_digit(lo)]);
        assert(hex_value('0') == Some(0nat));
        assert(hex_value(hex_digit(hi)) == Some(hi));
        assert(hex_value(hex_digit(lo)) == Some(lo));
        assert(hex4(digits) == Some(hi * 16 + lo));
        assert(hi * 16 + lo == c as u32);
        assert(is_bmp_scalar(hi * 16 + lo));
        assert(((hi * 16 + lo) as char) == c);
        assert(unicode_escape(digits) == Some(c));
        assert(s.skip(6) =~= after);
    } else {
        assert(e.len() == 1);
        assert(s[0] == c);
        assert(s.skip(1) =~= after);
    }
}

/// Reading an escaped text up to the closing quote gives the text back.
pub proof fn lemma_string_body_escaped(s: Seq<char>, acc: Seq<char>, tail: Seq<char>)
    ensures
        string_body(escaped(s) + seq!['"'] + tail, acc) == Ok::<_, SyntaxError>((acc + s, tail)),
    decreases s.len(),
{
    let w = escaped(s) + seq!['"'] + tail;
    if s.len() == 0 {
        assert(w[0] == '"');
        assert(w.skip(1) =~= tail);
        assert(acc + s =~= acc);
    } else {
        let c = s[0];
        let after = escaped(s.skip(1)) + seq!['"'] + tail;
        assert(w =~= escape(c) + after);
        lemma_escape_read(c, after, acc);
        lemma_string_body_escaped(s.skip(1), acc.push(c), tail);
        assert(acc.push(c) + s.skip(1) =~= acc + s);
    }
}

/// Whether `c` can be the first character of a value.
pub open spec fn starts_value(c: char) -> bool {
    c == '{' || c == '[' || c == '"' || c == 't' || c == 'f' || c == 'n' || is_digit(c) || c == '-'
}

/// Whether `tail` can follow a value inside an array or an object, or ends
/// the text.
pub open spec fn closes(tail: Seq<char>) -> bool {
    tail.len() == 0 || tail[0] == ',' || tail[0] == ']' || tail[0] == '}'
}

/// The text of a value is never empty and starts as a value must.
pub proof fn lemma_render_first(j: Json)
    requires
        j.well_formed(),
    ensures
        render(j).len() > 0,
        starts_value(render(j)[0]),
{
    match j {
        Json::Number(Num::Decimal(text)) => {},
        Json::String(s) => {
            assert(quoted(s)[0] == '"');
        },
        Json::Array(items) => {
            assert(render(j)[0] == '[');
        },
        Json::Object(members) => {
            assert(render(j)[0] == '{');
        },
        _ => {},
    }
}

/// Text that starts with something other than whitespace has none to skip.
pub proof fn lemma_no_whitespace(s: Seq<char>)
    requires
        s.len() > 0,
        !is_whitespace(s[0]),
    ensures
        skip_whitespace(s) == s,
{
    assert(s.skip(0) =~= s);
}

/// Among members with distinct keys, none before a member has its key.
pub proof fn lemma_take_lacks_key(members: Seq<(Seq<char>, Json)>, from: int)
    requires
        distinct_keys(members),
        0 <= from < members.len(),
    ensures
        !has_key(members.take(from), members[from].0),
{
    let before = members.take(from);
    let key = members[from].0;
    lemma_key_index(before, key);
    if has_key(before, key) {
        let i = key_index(before, key);
        assert(before[i] == members[i]);
        assert(members[i].0 != members[from].0);
    }
}

/// Parsing the text of a value gives the value back and leaves what followed.
pub proof fn lemma_render_value(j: Json, tail: Seq<char>)
    requires
        j.well_formed(),
        j.finite(),
        closes(tail),
    ensures
        value(render(j) + tail) == Ok::<_, SyntaxError>((j, tail)),
    decreases j, 0nat,
{
    let r = render(j);
    let s = r + tail;
    lemma_render_first(j);
    assert(s[0] == r[0]);
    lemma_no_whitespace(s);
    match j {
        Json::Null => {
            lemma_alphabetic_run_append(r, tail);
            assert(s.take(4) =~= r);
            assert(s.skip(4) =~= tail);
            assert(r[0] == 'n');
            assert(seq!['t', 'r', 'u', 'e'][0] == 't');
            assert(seq!['f', 'a', 'l', 's', 'e'][0] == 'f');
        },
        Json::Bool(b) => {
            lemma_alphabetic_run_append(r, tail);
            if b {
                assert(s.take(4) =~= r);
                assert(s.skip(4) =~= tail);
            } else {
                assert(s.take(5) =~= r);
                assert(s.skip(5) =~= tail);
                assert(r[0] == 'f');
                assert(seq!['t', 'r', 'u', 'e'][0] == 't');
            }
        },
        Json::Number(n) => {
            let text = n->Decimal_0;
            lemma_decimal_chars(text);
            lemma_number_run_append(text, tail);
            assert(s.take(text.len() as int) =~= text);
            assert(s.skip(text.len() as int) =~= tail);
        },
        Json::String(x) => {
            assert(s.skip(1) =~= escaped(x) + seq!['"'] + tail);
            lemma_string_body_escaped(x, Seq::empty(), tail);
            assert(Seq::<char>::empty() + x =~= x);
        },
        Json::Array(items) => {
            let u = s.skip(1);
            assert(u =~= render_items(items, 0) + seq![']'] + tail);
            if items.len() == 0 {
                assert(u =~= seq![']'] + tail);
                lemma_no_whitespace(u);
                assert(u.skip(1) =~= tail);
                assert(items =~= Seq::<Json>::empty());
            } else {
                let first = render(items[0]) + render_items(items, 1) + seq![']'] + tail;
                assert(separator(0) + render(items[0]) =~= render(items[0]));
                assert(u =~= first);
                lemma_render_first(items[0]);
                assert(u[0] == render(items[0])[0]);
                lemma_no_whitespace(u);
                lemma_render_elements(items, 0, tail);
                assert(items.take(0) =~= Seq::<Json>::empty());
            }
        },
        Json::Object(members) => {
            let u = s.skip(1);
            assert(u =~= render_members(members, 0) + seq!['}'] + tail);
            if members.len() == 0 {
                assert(u =~= seq!['}'] + tail);
                lemma_no_whitespace(u);
                assert(u.skip(1) =~= tail);
                assert(members =~= Seq::<(Seq<char>, Json)>::empty());
            } else {
                let first = member_text(members, 0) + seq!['}'] + tail;
                assert(separator(0) + quoted(members[0].0) =~= quoted(members[0].0));
                assert(u =~= first);
                assert(u[0] == '"');
                lemma_no_whitespace(u);
                lemma_render_members(members, 0, tail);
                assert(members.take(0) =~= Seq::<(Seq<char>, Json)>::empty());
            }
        },
    }
}

/// Parsing the text of the elements from `from` on, with those before
/// already read, gives the whole array.
pub proof fn lemma_render_elements(items: Seq<Json>, from: int, tail: Seq<char>)
    requires
        0 <= from < items.len(),
        forall|i: int| 0 <= i < items.len() ==> (#[trigger] items[i]).well_formed(),
        forall|i: int| 0 <= i < items.len() ==> (#[trigger] items[i]).finite(),
        closes(tail),
    ensures
        elements(
            render(items[from]) + render_items(items, from + 1) + seq![']'] + tail,
            items.take(from),
        ) == Ok::<_, SyntaxError>((Json::Array(items), tail)),
    decreases items, items.len() - from,
{
    let item = items[from];
    let x = render_items(items, from + 1) + seq![']'] + tail;
    let s = render(item) + render_items(items, from + 1) + seq![']'] + tail;
    let acc = items.take(from);
    assert(s =~= render(item) + x);
    if from + 1 < items.len() {
        assert(separator(from + 1) == seq![',']);
        assert(x[0] == ',');
    } else {
        assert(x[0] == ']');
    }
    lemma_render_value(item, x);
    lemma_no_whitespace(x);
    assert(acc.push(item) =~= items.take(from + 1));
    if from + 1 == items.len() {
        assert(x.skip(1) =~= tail);
        assert(items.take(from + 1) =~= items);
    } else {
        let next = render(items[from + 1]) + render_items(items, from + 2) + seq![']'] + tail;
        assert(x.skip(1) =~= next);
        lemma_render_elements(items, from + 1, tail);
    }
}

/// Parsing a quoted key gives the key back and leaves what followed.
pub proof fn lemma_render_key(key: Seq<char>, after: Seq<char>)
    ensures
        value(quoted(key) + after) == Ok::<_, SyntaxError>((Json::String(key), after)),
{
    let s = quoted(key) + after;
    assert(s[0] == '"');
    lemma_no_whitespace(s);
    assert(s.skip(1) =~= escaped(key) + seq!['"'] + after);
    lemma_string_body_escaped(key, Seq::empty(), after);
    assert(Seq::<char>::empty() + key =~= key);
}

/// One round of `members`: a key, a colon and a value, with a comma or the
/// closing brace behind them and no whitespace in between.
pub proof fn lemma_members_round(
    s: Seq<char>,
    acc: Seq<(Seq<char>, Json)>,
    key: Seq<char>,
    after_key: Seq<char>,
    item: Json,
    x: Seq<char>,
)
    requires
        value(s) == Ok::<_, SyntaxError>((Json::String(key), after_key)),
        after_key.len() > 0,
        after_key[0] == ':',
        after_key.len() <= s.len(),
        value(after_key.skip(1)) == Ok::<_, SyntaxError>((item, x)),
        x.len() > 0,
        x[0] == '}' || x[0] == ',',
        x.len() <= s.len(),
    ensures
        crate::json::grammar::members(s, acc) == if x[0] == '}' {
            Ok::<_, SyntaxError>((Json::Object(bind(acc, key, item)), x.skip(1)))
        } else {
            crate::json::grammar::members(x.skip(1), bind(acc, key, item))
        },
{
    lemma_no_whitespace(after_key);
    lemma_no_whitespace(x);
}

/// The text of the members from `from` on, as it stands before the closing
/// brace.
pub open spec fn member_text(members: Seq<(Seq<char>, Json)>, from: int) -> Seq<char> {
    quoted(members[from].0) + seq![':'] + render(members[from].1) + render_members(
        members,
        from + 1,
    )
}

/// What follows the text of a member starts with a comma where more members
/// come and with the closing brace where none do.
pub proof fn lemma_members_rest(members: Seq<(Seq<char>, Json)>, from: int, tail: Seq<char>)
    requires
        0 <= from <= members.len(),
    ensures
        (render_members(members, from) + seq!['}'] + tail).len() > 0,
        from == members.len() ==> render_members(members, from) + seq!['}'] + tail == seq!['}']
            + tail,
        from < members.len() ==> 0 < from ==> render_members(members, from) + seq!['}'] + tail
            == seq![','] + (member_text(members, from) + seq!['}'] + tail),
{
    let x = render_members(members, from) + seq!['}'] + tail;
    if from == members.len() {
        assert(x =~= seq!['}'] + tail);
    } else if 0 < from {
        assert(separator(from) == seq![',']);
        assert(x =~= seq![','] + (member_text(members, from) + seq!['}'] + tail));
    }
}

/// Among members with distinct keys, binding the next member to those before
/// it adds it at the end.
pub proof fn lemma_bind_next(members: Seq<(Seq<char>, Json)>, from: int)
    requires
        distinct_keys(members),
        0 <= from < members.len(),
    ensures
        bind(members.take(from), members[from].0, members[from].1) == members.take(from + 1),
{
    lemma_take_lacks_key(members, from);
    assert(members.take(from).push((members[from].0, members[from].1)) =~= members.take(
        from + 1,
    ));
}

/// Parsing the text of the members from `from` on, with those before already
/// read, gives the whole object.
pub proof fn lemma_render_members(members: Seq<(Seq<char>, Json)>, from: int, tail: Seq<char>)
    requires
        0 <= from < members.len(),
        distinct_keys(members),
        forall|i: int| 0 <= i < members.len() ==> (#[trigger] members[i]).1.well_formed(),
        forall|i: int| 0 <= i < members.len() ==> (#[trigger] members[i]).1.finite(),
        closes(tail),
    ensures
        crate::json::grammar::members(
            member_text(members, from) + seq!['}'] + tail,
            members.take(from),
        ) == Ok::<_, SyntaxError>((Json::Object(members), tail)),
    decreases members, members.len() - from,
{
    let key = members[from].0;
    let item = members[from].1;
    let x = render_members(members, from + 1) + seq!['}'] + tail;
    let after_key = seq![':'] + (render(item) + x);
    let s = member_text(members, from) + seq!['}'] + tail;
    let acc = members.take(from);
    assert(s =~= quoted(key) + after_key);
    lemma_render_key(key, after_key);
    assert(after_key.skip(1) =~= render(item) + x);
    lemma_members_rest(members, from + 1, tail);
    assert(item.well_formed() && item.finite());
    lemma_render_value(item, x);
    lemma_bind_next(members, from);
    lemma_members_round(s, acc, key, after_key, item, x);
    if from + 1 == members.len() {
        assert(x.skip(1) =~= tail);
        assert(members.take(from + 1) =~= members);
    } else {
        let next = member_text(members, from + 1) + seq!['}'] + tail;
        assert(x.skip(1) =~= next);
        lemma_render_members(members, from + 1, tail);
    }
}

} // verus!
