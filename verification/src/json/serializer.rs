//! Compact JSON text for a value.

use vstd::prelude::*;
use crate::json::chars::{char_hex_digit, hex_digit};
use crate::json::model::{Json, Num};
use crate::json::value::Value;
use crate::text::{chars_of, string_of};

verus! {

/// How one character of a string is written between the quotes.
pub open spec fn escape(c: char) -> Seq<char> {
    if c == '"' {
        seq!['\\', '"']
    } else if c == '\\' {
        seq!['\\', '\\']
    } else if c == '/' {
        seq!['\\', '/']
    } else if c == '\u{8}' {
        seq!['\\', 'b']
    } else if c == '\u{c}' {
        seq!['\\', 'f']
    } else if c == '\n' {
        seq!['\\', 'n']
    } else if c == '\r' {
        seq!['\\', 'r']
    } else if c == '\t' {
        seq!['\\', 't']
    } else if (c as u32) <= 0x1F {
        seq![
            '\\',
            'u',
            '0',
            '0',
            hex_digit((c as u32 / 16) as nat),
            hex_digit((c as u32 % 16) as nat),
        ]
    } else {
        seq![c]
    }
}

/// The characters of `s`, each written as `escape` says.
pub open spec fn escaped(s: Seq<char>) -> Seq<char>
    decreases s.len(),
{
    if s.len() == 0 {
        Seq::empty()
    } else {
        escape(s[0]) + escaped(s.skip(1))
    }
}

/// A string as JSON writes it: escaped, between double quotes.
pub open spec fn quoted(s: Seq<char>) -> Seq<char> {
    seq!['"'] + escaped(s) + seq!['"']
}

/// The text of a number: its literal, or `null` where it has none.
pub open spec fn render_number(n: Num) -> Seq<char> {
    match n {
        Num::Decimal(text) => text,
        _ => seq!['n', 'u', 'l', 'l'],
    }
}

/// The compact text of a value: no whitespace anywhere, the elements of an
/// array and the members of an object in their order, separated by commas.
pub open spec fn render(j: Json) -> Seq<char>
    decreases j, 0nat,
{
    match j {
        Json::Null => seq!['n', 'u', 'l', 'l'],
        Json::Bool(b) => if b {
            seq!['t', 'r', 'u', 'e']
        } else {
            seq!['f', 'a', 'l', 's', 'e']
        },
        Json::Number(n) => render_number(n),
        Json::String(s) => quoted(s),
        Json::Array(items) => seq!['['] + render_items(items, 0) + seq![']'],
        Json::Object(members) => seq!['{'] + render_members(members, 0) + seq!['}'],
    }
}

/// The text of the elements from index `from` on, each but the very first
/// with a comma before it.
pub open spec fn render_items(items: Seq<Json>, from: int) -> Seq<char>
    decreases items, items.len() - from,
{
    if 0 <= from < items.len() {
        separator(from) + render(items[from]) + render_items(items, from + 1)
    } else {
        Seq::empty()
    }
}

/// The text of the members from index `from` on, each but the very first
/// with a comma before it.
pub open spec fn render_members(members: Seq<(Seq<char>, Json)>, from: int) -> Seq<char>
    decreases members, members.len() - from,
{
    if 0 <= from < members.len() {
        separator(from) + quoted(members[from].0) + seq![':'] + render(members[from].1)
            + render_members(members, from + 1)
    } else {
        Seq::empty()
    }
}

/// What stands before the item at `index`: a comma, but nothing before the
/// first.
pub open spec fn separator(index: int) -> Seq<char> {
    if index > 0 {
        seq![',']
    } else {
        Seq::empty()
    }
}

/// Appends `escape(c)` to `out`.
fn write_escaped_char(c: char, out: &mut Vec<char>)
    ensures
        final(out)@ == old(out)@ + escape(c),
{
    let ghost before = out@;
    if c == '"' || c == '\\' || c == '/' {
        out.push('\\');
        out.push(c);
    } else if c == '\u{8}' {
        out.push('\\');
        out.push('b');
    } else if c == '\u{c}' {
        out.push('\\');
        out.push('f');
    } else if c == '\n' {
        out.push('\\');
        out.push('n');
    } else if c == '\r' {
        out.push('\\');
        out.push('r');
    } else if c == '\t' {
        out.push('\\');
        out.push('t');
    } else if c as u32 <= 0x1F {
        let n: u32 = c as u32;
        out.push('\\');
        out.push('u');
        out.push('0');
        out.push('0');
        out.push(char_hex_digit(n / 16));
        out.push(char_hex_digit(n % 16));
    } else {
        out.push(c);
    }
    assert(out@ =~= before + escape(c));
}

/// Appends `quoted(s@)` to `out`.
fn write_quoted(s: &str, out: &mut Vec<char>)
    ensures
        final(out)@ == old(out)@ + quoted(s@),
{
    let ghost before = out@;
    let chars = chars_of(s);
    out.push('"');
    let mut i: usize = 0;
    assert(chars@.skip(0) =~= chars@);
    while i < chars.len()
        invariant
            i <= chars.len(),
            out@ + escaped(chars@.skip(i as int)) == before + seq!['"'] + escaped(chars@),
        decreases chars.len() - i,
    {
        let ghost prev = out@;
        write_escaped_char(chars[i], out);
        assert(chars@.skip(i as int).skip(1) =~= chars@.skip(i + 1));
        assert(out@ + escaped(chars@.skip(i + 1)) =~= prev + escaped(chars@.skip(i as int)));
        i += 1;
    }
    assert(out@ =~= before + seq!['"'] + escaped(chars@));
    out.push('"');
    assert(out@ =~= before + quoted(s@));
}

/// Appends `render(v@)` to `out`.
fn write_value(v: &Value, out: &mut Vec<char>)
    ensures
        final(out)@ == old(out)@ + render(v@),
        v@.well_formed(),
    decreases v,
{
    let ghost before = out@;
    match v {
        Value::Null => {
            out.push('n');
            out.push('u');
            out.push('l');
            out.push('l');
            assert(out@ =~= before + render(v@));
        },
        Value::Bool(b) => {
            if *b {
                out.push('t');
                out.push('r');
                out.push('u');
                out.push('e');
            } else {
                out.push('f');
                out.push('a');
                out.push('l');
                out.push('s');
                out.push('e');
            }
            assert(out@ =~= before + render(v@));
        },
        Value::Number(n) => {
            match n.literal() {
                Some(text) => {
                    let mut chars = chars_of(text);
                    out.append(&mut chars);
                },
                None => {
                    out.push('n');
                    out.push('u');
                    out.push('l');
                    out.push('l');
                },
            }
            assert(out@ =~= before + render(v@));
        },
        Value::String(s) => {
            write_quoted(s.as_str(), out);
        },
        Value::Array(items) => {
            out.push('[');
            let mut i: usize = 0;
            while i < items.len()
                invariant
                    i <= items.len(),
                    *v == Value::Array(*items),
                    v@ matches Json::Array(js) && js.len() == items.len() && (forall|k: int|
                        0 <= k < items.len() ==> js[k] == (#[trigger] items@[k])@),
                    forall|k: int| 0 <= k < i ==> (#[trigger] items@[k])@.well_formed(),
                    out@ + render_items(v@->Array_0, i as int) == before + seq!['[']
                        + render_items(v@->Array_0, 0),
                decreases items.len() - i,
            {
                let ghost prev = out@;
                if i > 0 {
                    out.push(',');
                }
                write_value(&items[i], out);
                assert(out@ + render_items(v@->Array_0, i + 1) =~= prev + render_items(
                    v@->Array_0,
                    i as int,
                ));
                i += 1;
            }
            assert(out@ =~= before + seq!['['] + render_items(v@->Array_0, 0));
            out.push(']');
            assert(out@ =~= before + render(v@));
        },
        Value::Object(o) => {
            out.push('{');
            let n = o.len();
            let mut i: usize = 0;
            while i < n
                invariant
                    i <= n,
                    n == o@.len(),
                    *v == Value::Object(*o),
                    v@ == Json::Object(o@),
                    forall|k: int| 0 <= k < i ==> (#[trigger] o@[k]).1.well_formed(),
                    out@ + render_members(o@, i as int) == before + seq!['{'] + render_members(
                        o@,
                        0,
                    ),
                decreases n - i,
            {
                let ghost prev = out@;
                if i > 0 {
                    out.push(',');
                }
                write_quoted(o.key_at(i), out);
                out.push(':');
                write_value(o.value_at(i), out);
                assert(out@ + render_members(o@, i + 1) =~= prev + render_members(o@, i as int));
                i += 1;
            }
            assert(out@ =~= before + seq!['{'] + render_members(o@, 0));
            out.push('}');
            assert(out@ =~= before + render(v@));
        },
    }
}

impl Value {
    /// The compact JSON text of the value. Numbers without a literal are
    /// written as `null`.
    pub fn to_string(&self) -> (s: String)
        ensures
            s@ == render(self@),
            self@.well_formed(),
    {
        let mut out: Vec<char> = Vec::new();
        write_value(self, &mut out);
        assert(out@ =~= render(self@));
        string_of(out.as_slice())
    }
}

} // verus!
