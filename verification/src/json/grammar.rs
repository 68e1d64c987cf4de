//! The JSON grammar as a function from text to a value or a failure.
//!
//! Every production takes the text that is still unread and gives back the
//! value it recognised together with what it left unread. A production looks
//! at no more than the next character to decide how to go on.
//!
//! Where `elements` and `members` go round again they first compare lengths.
//! That comparison only serves to show that the definitions terminate. It
//! always holds, because a value takes at least one character, so the branch
//! for the other case is never taken.

use vstd::prelude::*;
use crate::bindings::bind;
use crate::json::chars::{hex_value, is_alphabetic, is_digit, is_number_char};
use crate::json::model::{is_number_literal, Json, Num, SyntaxError};
use crate::text::space::is_whitespace;

verus! {

/// What a production gives: a value and the unread text, or a failure.
pub type Parsed<T> = Result<(T, Seq<char>), SyntaxError>;

/// How many whitespace characters `s` starts with.
pub open spec fn whitespace_run(s: Seq<char>) -> nat
    decreases s.len(),
{
    if s.len() > 0 && is_whitespace(s[0]) {
        1 + whitespace_run(s.skip(1))
    } else {
        0
    }
}

/// How many number characters `s` starts with.
pub open spec fn number_run(s: Seq<char>) -> nat
    decreases s.len(),
{
    if s.len() > 0 && is_number_char(s[0]) {
        1 + number_run(s.skip(1))
    } else {
        0
    }
}

/// How many alphabetic characters `s` starts with.
pub open spec fn alphabetic_run(s: Seq<char>) -> nat
    decreases s.len(),
{
    if s.len() > 0 && is_alphabetic(s[0]) {
        1 + alphabetic_run(s.skip(1))
    } else {
        0
    }
}

/// A run of whitespace lies within the text.
pub proof fn lemma_whitespace_run_bound(s: Seq<char>)
    ensures
        whitespace_run(s) <= s.len(),
    decreases s.len(),
{
    if s.len() > 0 && is_whitespace(s[0]) {
        lemma_whitespace_run_bound(s.skip(1));
    }
}

/// A run of number characters lies within the text.
pub proof fn lemma_number_run_bound(s: Seq<char>)
    ensures
        number_run(s) <= s.len(),
    decreases s.len(),
{
    if s.len() > 0 && is_number_char(s[0]) {
        lemma_number_run_bound(s.skip(1));
    }
}

/// A run of alphabetic characters lies within the text.
pub proof fn lemma_alphabetic_run_bound(s: Seq<char>)
    ensures
        alphabetic_run(s) <= s.len(),
    decreases s.len(),
{
    if s.len() > 0 && is_alphabetic(s[0]) {
        lemma_alphabetic_run_bound(s.skip(1));
    }
}

/// `s` without its leading whitespace.
pub open spec fn skip_whitespace(s: Seq<char>) -> Seq<char> {
    s.skip(whitespace_run(s) as int)
}

/// The character that a backslash followed by `c` stands for, for the eight
/// one-letter escapes.
pub open spec fn simple_escape(c: char) -> Option<char> {
    if c == '"' || c == '\\' || c == '/' {
        Some(c)
    } else if c == 'b' {
        Some('\u{8}')
    } else if c == 'f' {
        Some('\u{c}')
    } else if c == 'n' {
        Some('\n')
    } else if c == 'r' {
        Some('\r')
    } else if c == 't' {
        Some('\t')
    } else {
        None
    }
}

/// Whether `n` is a scalar value of the Basic Multilingual Plane, that is no
/// surrogate.
pub open spec fn is_bmp_scalar(n: nat) -> bool {
    n < 0xD800 || 0xE000 <= n < 0x10000
}

/// The number that four hexadecimal digits write, most significant first.
pub open spec fn hex4(s: Seq<char>) -> Option<nat>
    recommends
        s.len() == 4,
{
    match (hex_value(s[0]), hex_value(s[1]), hex_value(s[2]), hex_value(s[3])) {
        (Some(a), Some(b), Some(c), Some(d)) => Some(((a * 16 + b) * 16 + c) * 16 + d),
        _ => None,
    }
}

/// The scalar value that the four characters after `\u` stand for: they must
/// be hexadecimal digits and name no surrogate. Each escape is read by
/// itself: the two halves of a surrogate pair are not put together, so a
/// character beyond the Basic Multilingual Plane cannot be written this way.
pub open spec fn unicode_escape(s: Seq<char>) -> Option<char>
    recommends
        s.len() == 4,
{
    match hex4(s) {
        Some(n) => if is_bmp_scalar(n) {
            Some(n as char)
        } else {
            None
        },
        None => None,
    }
}

/// The rest of a string after its opening quote: `acc` holds the characters
/// read so far.
pub open spec fn string_body(s: Seq<char>, acc: Seq<char>) -> Parsed<Seq<char>>
    decreases s.len(),
{
    if s.len() == 0 {
        Err(SyntaxError::UnterminatedString)
    } else if s[0] == '"' {
        Ok((acc, s.skip(1)))
    } else if s[0] == '\\' {
        if s.len() < 2 {
            Err(SyntaxError::UnterminatedString)
        } else if s[1] == 'u' {
            if s.len() < 6 {
                Err(SyntaxError::UnterminatedString)
            } else {
                match unicode_escape(s.subrange(2, 6)) {
                    Some(c) => string_body(s.skip(6), acc.push(c)),
                    None => Err(SyntaxError::InvalidEscapeSequence('u')),
                }
            }
        } else {
            match simple_escape(s[1]) {
                Some(c) => string_body(s.skip(2), acc.push(c)),
                None => Err(SyntaxError::InvalidEscapeSequence(s[1])),
            }
        }
    } else {
        string_body(s.skip(1), acc.push(s[0]))
    }
}

/// A number: the longest run of number characters, which must be a number
/// literal.
pub open spec fn number(s: Seq<char>) -> Parsed<Json> {
    let n = number_run(s) as int;
    if is_number_literal(s.take(n)) {
        Ok((Json::Number(Num::Decimal(s.take(n))), s.skip(n)))
    } else {
        Err(SyntaxError::InvalidNumber)
    }
}

/// One of the three literals: the longest run of alphabetic characters, which
/// must be `true`, `false` or `null`.
pub open spec fn literal(s: Seq<char>) -> Parsed<Json> {
    let n = alphabetic_run(s) as int;
    let word = s.take(n);
    if word == seq!['t', 'r', 'u', 'e'] {
        Ok((Json::Bool(true), s.skip(n)))
    } else if word == seq!['f', 'a', 'l', 's', 'e'] {
        Ok((Json::Bool(false), s.skip(n)))
    } else if word == seq!['n', 'u', 'l', 'l'] {
        Ok((Json::Null, s.skip(n)))
    } else {
        Err(SyntaxError::InvalidLiteral(word))
    }
}

/// A value, after any whitespace. The first character that is no whitespace
/// selects the production.
pub open spec fn value(s: Seq<char>) -> Parsed<Json>
    decreases s.len(), 1nat,
{
    let t = skip_whitespace(s);
    if t.len() == 0 {
        Err(SyntaxError::UnexpectedEndOfInput)
    } else {
        let c = t[0];
        if c == '{' {
            proof {
                lemma_whitespace_run_bound(s);
            }
            object(t.skip(1))
        } else if c == '[' {
            proof {
                lemma_whitespace_run_bound(s);
            }
            array(t.skip(1))
        } else if c == '"' {
            match string_body(t.skip(1), Seq::empty()) {
                Ok((text, rest)) => Ok((Json::String(text), rest)),
                Err(e) => Err(e),
            }
        } else if c == 't' || c == 'f' || c == 'n' {
            literal(t)
        } else if is_digit(c) || c == '-' {
            number(t)
        } else {
            Err(SyntaxError::UnexpectedToken(c))
        }
    }
}

/// An array after its opening bracket.
pub open spec fn array(s: Seq<char>) -> Parsed<Json>
    decreases s.len(), 3nat,
{
    let t = skip_whitespace(s);
    if t.len() > 0 && t[0] == ']' {
        Ok((Json::Array(Seq::empty()), t.skip(1)))
    } else {
        proof {
            lemma_whitespace_run_bound(s);
        }
        elements(t, Seq::empty())
    }
}

/// The elements of an array from the next one on, up to and with the closing
/// bracket: `acc` holds the elements read so far.
pub open spec fn elements(s: Seq<char>, acc: Seq<Json>) -> Parsed<Json>
    decreases s.len(), 2nat,
{
    match value(s) {
        Err(e) => Err(e),
        Ok((item, rest)) => {
            let t = skip_whitespace(rest);
            if t.len() == 0 {
                Err(SyntaxError::UnexpectedEndOfInput)
            } else if t[0] == ']' {
                Ok((Json::Array(acc.push(item)), t.skip(1)))
            } else if t[0] == ',' {
                if t.len() <= s.len() {
                    elements(t.skip(1), acc.push(item))
                } else {
                    Err(SyntaxError::UnexpectedEndOfInput)
                }
            } else {
                Err(SyntaxError::UnexpectedToken(t[0]))
            }
        },
    }
}

/// An object after its opening brace.
pub open spec fn object(s: Seq<char>) -> Parsed<Json>
    decreases s.len(), 3nat,
{
    let t = skip_whitespace(s);
    if t.len() > 0 && t[0] == '}' {
        Ok((Json::Object(Seq::empty()), t.skip(1)))
    } else {
        proof {
            lemma_whitespace_run_bound(s);
        }
        members(t, Seq::empty())
    }
}

/// The members of an object from the next one on, up to and with the closing
/// brace: `acc` holds the members read so far. A key that comes again takes
/// the later value.
pub open spec fn members(s: Seq<char>, acc: Seq<(Seq<char>, Json)>) -> Parsed<Json>
    decreases s.len(), 2nat,
{
    match value(s) {
        Err(e) => Err(e),
        Ok((Json::String(key), rest)) => {
            let t = skip_whitespace(rest);
            if t.len() == 0 || t[0] != ':' {
                Err(SyntaxError::UnexpectedToken(':'))
            } else if t.len() > s.len() {
                Err(SyntaxError::UnexpectedEndOfInput)
            } else {
                match value(t.skip(1)) {
                    Err(e) => Err(e),
                    Ok((item, rest)) => {
                        let u = skip_whitespace(rest);
                        let bound = bind(acc, key, item);
                        if u.len() == 0 {
                            Err(SyntaxError::UnexpectedEndOfInput)
                        } else if u[0] == '}' {
                            Ok((Json::Object(bound), u.skip(1)))
                        } else if u[0] == ',' {
                            if u.len() <= s.len() {
                                members(u.skip(1), bound)
                            } else {
                                Err(SyntaxError::UnexpectedEndOfInput)
                            }
                        } else {
                            Err(SyntaxError::UnexpectedToken(u[0]))
                        }
                    },
                }
            }
        },
        Ok(_) => Err(SyntaxError::UnexpectedToken('"')),
    }
}

/// A document: one value, with nothing but whitespace around it.
pub open spec fn document(s: Seq<char>) -> Result<Json, SyntaxError> {
    match value(s) {
        Err(e) => Err(e),
        Ok((v, rest)) => if skip_whitespace(rest).len() == 0 {
            Ok(v)
        } else {
            Err(SyntaxError::TrailingCharacters)
        },
    }
}

} // verus!
