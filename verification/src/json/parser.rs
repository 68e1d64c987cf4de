//! The recursive-descent parser for JSON text.

use vstd::prelude::*;
use vstd::slice::slice_subrange;
use vstd::std_specs::cmp::PartialEqSpecImpl;
use vstd::string::StringExecFns;
use crate::json::chars::{
    char_hex_value,
    char_is_alphabetic,
    char_is_digit,
    char_is_number_char,
    scalar_from_u32,
};
use crate::json::grammar::{
    alphabetic_run,
    array,
    document,
    elements,
    hex4,
    lemma_whitespace_run_bound,
    literal,
    members,
    number,
    number_run,
    object,
    simple_escape,
    skip_whitespace,
    string_body,
    unicode_escape,
    value,
    whitespace_run,
    Parsed,
};
use crate::json::model::{Json, SyntaxError};
use crate::json::number::Number;
use crate::json::value::{Object, Value};
use crate::text::{chars_of, push_char, same_text, string_of};
use crate::text::space::char_is_whitespace;

verus! {

/// Why a text could not be parsed.
#[derive(Debug)]
pub enum ParseError {
    /// The input ended where more was expected.
    UnexpectedEndOfInput,
    /// A character stood where the grammar allows none like it.
    UnexpectedToken(char),
    /// A string was opened and never closed.
    UnterminatedString,
    /// A backslash was followed by a character that starts no escape, or `\u`
    /// by something other than four hexadecimal digits that name a scalar
    /// value.
    InvalidEscapeSequence(char),
    /// A run of number characters is no decimal literal.
    InvalidNumber,
    /// A run of letters is none of `true`, `false`, `null`.
    InvalidLiteral(String),
    /// Something other than whitespace followed the value.
    TrailingCharacters,
}

impl View for ParseError {
    type V = SyntaxError;

    open spec fn view(&self) -> SyntaxError {
        match self {
            ParseError::UnexpectedEndOfInput => SyntaxError::UnexpectedEndOfInput,
            ParseError::UnexpectedToken(c) => SyntaxError::UnexpectedToken(*c),
            ParseError::UnterminatedString => SyntaxError::UnterminatedString,
            ParseError::InvalidEscapeSequence(c) => SyntaxError::InvalidEscapeSequence(*c),
            ParseError::InvalidNumber => SyntaxError::InvalidNumber,
            ParseError::InvalidLiteral(s) => SyntaxError::InvalidLiteral(s@),
            ParseError::TrailingCharacters => SyntaxError::TrailingCharacters,
        }
    }
}

/// What a failure says of itself.
pub open spec fn message(e: SyntaxError) -> Seq<char> {
    match e {
        SyntaxError::UnexpectedEndOfInput => "Unexpected end of input"@,
        SyntaxError::UnexpectedToken(c) => "Unexpected token: '"@ + seq![c] + "'"@,
        SyntaxError::UnterminatedString => "Unterminated string"@,
        SyntaxError::InvalidEscapeSequence(c) => "Invalid escape sequence: '\\"@ + seq![c] + "'"@,
        SyntaxError::InvalidNumber => "Invalid number format"@,
        SyntaxError::InvalidLiteral(s) => "Invalid literal: "@ + s,
        SyntaxError::TrailingCharacters => "Trailing characters after valid JSON"@,
    }
}

impl ParseError {
    /// The failure in words.
    pub fn to_string(&self) -> (s: String)
        ensures
            s@ == message(self@),
    {
        match self {
            ParseError::UnexpectedEndOfInput => "Unexpected end of input".to_owned(),
            ParseError::UnexpectedToken(c) => {
                let mut s = "Unexpected token: '".to_owned();
                push_char(&mut s, *c);
                s.append("'");
                assert(s@ =~= message(self@));
                s
            },
            ParseError::UnterminatedString => "Unterminated string".to_owned(),
            ParseError::InvalidEscapeSequence(c) => {
                let mut s = "Invalid escape sequence: '\\".to_owned();
                push_char(&mut s, *c);
                s.append("'");
                assert(s@ =~= message(self@));
                s
            },
            ParseError::InvalidNumber => "Invalid number format".to_owned(),
            ParseError::InvalidLiteral(word) => {
                let mut s = "Invalid literal: ".to_owned();
                s.append(word.as_str());
                s
            },
            ParseError::TrailingCharacters => "Trailing characters after valid JSON".to_owned(),
        }
    }

    /// Whether two failures are the same.
    pub fn equals(&self, other: &ParseError) -> (r: bool)
        ensures
            r == (self@ == other@),
    {
        match (self, other) {
            (ParseError::UnexpectedEndOfInput, ParseError::UnexpectedEndOfInput) => true,
            (ParseError::UnexpectedToken(a), ParseError::UnexpectedToken(b)) => *a == *b,
            (ParseError::UnterminatedString, ParseError::UnterminatedString) => true,
            (ParseError::InvalidEscapeSequence(a), ParseError::InvalidEscapeSequence(b)) => *a
                == *b,
            (ParseError::InvalidNumber, ParseError::InvalidNumber) => true,
            (ParseError::InvalidLiteral(a), ParseError::InvalidLiteral(b)) => same_text(
                a.as_str(),
                b.as_str(),
            ),
            (ParseError::TrailingCharacters, ParseError::TrailingCharacters) => true,
            _ => false,
        }
    }
}

impl PartialEq for ParseError {
    fn eq(&self, other: &ParseError) -> (r: bool) {
        self.equals(other)
    }
}

impl PartialEqSpecImpl for ParseError {
    open spec fn obeys_eq_spec() -> bool {
        true
    }

    open spec fn eq_spec(&self, other: &ParseError) -> bool {
        self@ == other@
    }
}

/// Whether the outcome `r` of a production, with `rest` left unread, is what
/// the grammar gives.
pub open spec fn agrees(
    r: Result<Value, ParseError>,
    rest: Seq<char>,
    expected: Parsed<Json>,
) -> bool {
    match expected {
        Ok((j, unread)) => r matches Ok(v) && v@ == j && rest == unread,
        Err(e) => r matches Err(x) && x@ == e,
    }
}

/// A cursor over the characters of the input.
pub struct Parser<'a> {
    chars: &'a [char],
    pos: usize,
}

impl<'a> Parser<'a> {
    /// The cursor stands within the input or at its end.
    pub closed spec fn wf(&self) -> bool {
        self.pos <= self.chars@.len()
    }

    /// All of the input.
    pub closed spec fn input(&self) -> Seq<char> {
        self.chars@
    }

    /// How many characters have been read.
    pub closed spec fn consumed(&self) -> nat {
        self.pos as nat
    }

    /// The characters not yet read.
    pub open spec fn rest(&self) -> Seq<char> {
        self.input().skip(self.consumed() as int)
    }

    /// Whether `after` is this cursor moved forward over the same input.
    pub open spec fn advanced_to(&self, after: &Parser<'a>) -> bool {
        &&& after.wf()
        &&& after.input() == self.input()
        &&& after.consumed() >= self.consumed()
    }

    /// A cursor at the start of `chars`.
    pub fn new(chars: &'a [char]) -> (p: Parser<'a>)
        ensures
            p.wf(),
            p.input() == chars@,
            p.consumed() == 0,
            p.rest() == chars@,
    {
        assert(chars@.skip(0) =~= chars@);
        Parser { chars, pos: 0 }
    }

    /// The next character, which stays unread.
    pub fn peek(&self) -> (r: Option<char>)
        requires
            self.wf(),
        ensures
            r == if self.rest().len() > 0 {
                Some(self.rest()[0])
            } else {
                None::<char>
            },
    {
        if self.pos < self.chars.len() {
            Some(self.chars[self.pos])
        } else {
            None
        }
    }

    /// Reads the next character.
    pub fn next(&mut self) -> (r: Option<char>)
        requires
            old(self).wf(),
        ensures
            old(self).advanced_to(final(self)),
            old(self).rest().len() > 0 ==> r == Some(old(self).rest()[0]) && final(self).rest()
                == old(self).rest().skip(1) && final(self).consumed() == old(self).consumed() + 1,
            old(self).rest().len() == 0 ==> r is None
                && final(self).consumed() == old(self).consumed(),
    {
        if self.pos < self.chars.len() {
            let c = self.chars[self.pos];
            assert(self.chars@.skip(self.pos as int).skip(1) =~= self.chars@.skip(self.pos + 1));
            self.pos = self.pos + 1;
            Some(c)
        } else {
            None
        }
    }

    /// Reads whitespace up to the next character that is none.
    pub fn consume_whitespace(&mut self)
        requires
            old(self).wf(),
        ensures
            old(self).advanced_to(final(self)),
            final(self).rest() == skip_whitespace(old(self).rest()),
    {
        let ghost start = self.rest();
        let ghost start_pos = self.pos;
        assert(start.skip(0) =~= start);
        while self.pos < self.chars.len() && char_is_whitespace(self.chars[self.pos])
            invariant
                self.wf(),
                self.chars == old(self).chars,
                start_pos <= self.pos,
                start == self.chars@.skip(start_pos as int),
                whitespace_run(start) == (self.pos - start_pos) + whitespace_run(self.rest()),
            decreases self.chars@.len() - self.pos,
        {
            assert(self.rest().skip(1) =~= self.chars@.skip(self.pos + 1));
            self.pos = self.pos + 1;
        }
        assert(self.rest() =~= skip_whitespace(start));
    }

    /// The literals `true`, `false` and `null`.
    pub fn parse_literal(&mut self) -> (r: Result<Value, ParseError>)
        requires
            old(self).wf(),
        ensures
            old(self).advanced_to(final(self)),
            agrees(r, final(self).rest(), literal(old(self).rest())),
            r is Ok ==> final(self).consumed() > old(self).consumed(),
    {
        let ghost start = self.rest();
        let start_pos = self.pos;
        assert(start.skip(0) =~= start);
        while self.pos < self.chars.len() && char_is_alphabetic(self.chars[self.pos])
            invariant
                self.wf(),
                self.chars == old(self).chars,
                start_pos <= self.pos,
                start == self.chars@.skip(start_pos as int),
                alphabetic_run(start) == (self.pos - start_pos) + alphabetic_run(self.rest()),
            decreases self.chars@.len() - self.pos,
        {
            assert(self.rest().skip(1) =~= self.chars@.skip(self.pos + 1));
            self.pos = self.pos + 1;
        }
        let word = slice_subrange(self.chars, start_pos, self.pos);
        assert(word@ =~= start.take(alphabetic_run(start) as int));
        assert(self.rest() =~= start.skip(alphabetic_run(start) as int));
        let n = word.len();
        if n == 4 && word[0] == 't' && word[1] == 'r' && word[2] == 'u' && word[3] == 'e' {
            assert(word@ =~= seq!['t', 'r', 'u', 'e']);
            Ok(Value::Bool(true))
        } else if n == 5 && word[0] == 'f' && word[1] == 'a' && word[2] == 'l' && word[3] == 's'
            && word[4] == 'e' {
            assert(word@ =~= seq!['f', 'a', 'l', 's', 'e']);
            Ok(Value::Bool(false))
        } else if n == 4 && word[0] == 'n' && word[1] == 'u' && word[2] == 'l' && word[3] == 'l' {
            assert(word@ =~= seq!['n', 'u', 'l', 'l']);
            Ok(Value::Null)
        } else {
            Err(ParseError::InvalidLiteral(string_of(word)))
        }
    }

    /// A number: the run of number characters from here on, read as a decimal
    /// literal.
    pub fn parse_number(&mut self) -> (r: Result<Value, ParseError>)
        requires
            old(self).wf(),
        ensures
            old(self).advanced_to(final(self)),
            agrees(r, final(self).rest(), number(old(self).rest())),
            r is Ok ==> final(self).consumed() > old(self).consumed(),
    {
        let ghost start = self.rest();
        let start_pos = self.pos;
        assert(start.skip(0) =~= start);
        while self.pos < self.chars.len() && char_is_number_char(self.chars[self.pos])
            invariant
                self.wf(),
                self.chars == old(self).chars,
                start_pos <= self.pos,
                start == self.chars@.skip(start_pos as int),
                number_run(start) == (self.pos - start_pos) + number_run(self.rest()),
            decreases self.chars@.len() - self.pos,
        {
            assert(self.rest().skip(1) =~= self.chars@.skip(self.pos + 1));
            self.pos = self.pos + 1;
        }
        let lexeme = slice_subrange(self.chars, start_pos, self.pos);
        assert(lexeme@ =~= start.take(number_run(start) as int));
        assert(self.rest() =~= start.skip(number_run(start) as int));
        match Number::from_chars(lexeme) {
            Some(n) => Ok(Value::Number(n)),
            None => Err(ParseError::InvalidNumber),
        }
    }

    /// A string, from its opening quote to its closing quote.
    pub fn parse_string(&mut self) -> (r: Result<Value, ParseError>)
        requires
            old(self).wf(),
            old(self).rest().len() > 0,
        ensures
            old(self).advanced_to(final(self)),
            match string_body(old(self).rest().skip(1), Seq::empty()) {
                Ok((text, unread)) => r matches Ok(Value::String(s)) && s@ == text
                    && final(self).rest() == unread,
                Err(e) => r matches Err(x) && x@ == e,
            },
            r is Ok ==> final(self).consumed() > old(self).consumed(),
    {
        let ghost start_pos = self.pos;
        self.next();
        let ghost body = self.rest();
        let mut s = String::new();
        loop
            invariant
                self.wf(),
                self.chars == old(self).chars,
                start_pos == old(self).pos,
                self.pos > start_pos,
                body == old(self).rest().skip(1),
                string_body(body, Seq::empty()) == string_body(self.rest(), s@),
            decreases self.chars@.len() - self.pos,
        {
            let ghost here = self.rest();
            let len = self.chars.len();
            if self.pos >= len {
                return Err(ParseError::UnterminatedString);
            }
            let c = self.chars[self.pos];
            if c == '"' {
                assert(here.skip(1) =~= self.chars@.skip(self.pos + 1));
                self.pos = self.pos + 1;
                return Ok(Value::String(s));
            } else if c == '\\' {
                if len - self.pos < 2 {
                    return Err(ParseError::UnterminatedString);
                }
                let escaped = self.chars[self.pos + 1];
                assert(escaped == here[1]);
                if escaped == 'u' {
                    if len - self.pos < 6 {
                        return Err(ParseError::UnterminatedString);
                    }
                    let digits = slice_subrange(self.chars, self.pos + 2, self.pos + 6);
                    assert(digits@ =~= here.subrange(2, 6));
                    match Parser::decode_unicode_escape(digits) {
                        Some(decoded) => {
                            push_char(&mut s, decoded);
                            assert(here.skip(6) =~= self.chars@.skip(self.pos + 6));
                            self.pos = self.pos + 6;
                        },
                        None => {
                            return Err(ParseError::InvalidEscapeSequence('u'));
                        },
                    }
                } else {
                    match Parser::decode_simple_escape(escaped) {
                        Some(decoded) => {
                            push_char(&mut s, decoded);
                            assert(here.skip(2) =~= self.chars@.skip(self.pos + 2));
                            self.pos = self.pos + 2;
                        },
                        None => {
                            return Err(ParseError::InvalidEscapeSequence(escaped));
                        },
                    }
                }
            } else {
                push_char(&mut s, c);
                assert(here.skip(1) =~= self.chars@.skip(self.pos + 1));
                self.pos = self.pos + 1;
            }
        }
    }

    /// A value, after any whitespace.
    pub fn parse_value(&mut self) -> (r: Result<Value, ParseError>)
        requires
            old(self).wf(),
        ensures
            old(self).advanced_to(final(self)),
            agrees(r, final(self).rest(), value(old(self).rest())),
            r is Ok ==> final(self).consumed() > old(self).consumed(),
        decreases old(self).rest().len(), 1nat,
    {
        proof {
            lemma_whitespace_run_bound(self.rest());
        }
        self.consume_whitespace();
        match self.peek() {
            None => Err(ParseError::UnexpectedEndOfInput),
            Some(c) => {
                if c == '{' {
                    self.parse_object()
                } else if c == '[' {
                    self.parse_array()
                } else if c == '"' {
                    self.parse_string()
                } else if c == 't' || c == 'f' || c == 'n' {
                    self.parse_literal()
                } else if char_is_digit(c) || c == '-' {
                    self.parse_number()
                } else {
                    Err(ParseError::UnexpectedToken(c))
                }
            },
        }
    }

    /// An array, from its opening bracket to its closing bracket.
    pub fn parse_array(&mut self) -> (r: Result<Value, ParseError>)
        requires
            old(self).wf(),
            old(self).rest().len() > 0,
        ensures
            old(self).advanced_to(final(self)),
            agrees(r, final(self).rest(), array(old(self).rest().skip(1))),
            r is Ok ==> final(self).consumed() > old(self).consumed(),
        decreases old(self).rest().len(), 0nat,
    {
        let ghost opened = self.rest().skip(1);
        self.next();
        let mut arr: Vec<Value> = Vec::new();
        proof {
            lemma_whitespace_run_bound(self.rest());
        }
        self.consume_whitespace();
        if self.peek() == Some(']') {
            self.next();
            let v = Value::Array(arr);
            assert(v@->Array_0 =~= Seq::<Json>::empty());
            return Ok(v);
        }
        let ghost mut acc: Seq<Json> = Seq::empty();
        loop
            invariant
                self.wf(),
                self.chars == old(self).chars,
                self.pos > old(self).pos,
                opened == old(self).rest().skip(1),
                array(opened) == elements(self.rest(), acc),
                acc.len() == arr@.len(),
                forall|k: int| 0 <= k < acc.len() ==> acc[k] == (#[trigger] arr@[k])@,
            decreases self.chars@.len() - self.pos,
        {
            let ghost here = self.rest();
            let item = match self.parse_value() {
                Ok(item) => item,
                Err(e) => {
                    return Err(e);
                },
            };
            proof {
                acc = acc.push(item@);
            }
            arr.push(item);
            self.consume_whitespace();
            proof {
                lemma_whitespace_run_bound(self.rest());
            }
            match self.next() {
                Some(c) => {
                    if c == ']' {
                        let v = Value::Array(arr);
                        assert(v@->Array_0 =~= acc);
                        return Ok(v);
                    } else if c == ',' {
                    } else {
                        return Err(ParseError::UnexpectedToken(c));
                    }
                },
                None => {
                    return Err(ParseError::UnexpectedEndOfInput);
                },
            }
        }
    }

    /// An object, from its opening brace to its closing brace.
    pub fn parse_object(&mut self) -> (r: Result<Value, ParseError>)
        requires
            old(self).wf(),
            old(self).rest().len() > 0,
        ensures
            old(self).advanced_to(final(self)),
            agrees(r, final(self).rest(), object(old(self).rest().skip(1))),
            r is Ok ==> final(self).consumed() > old(self).consumed(),
        decreases old(self).rest().len(), 0nat,
    {
        let ghost opened = self.rest().skip(1);
        self.next();
        let mut obj = Object::new();
        proof {
            lemma_whitespace_run_bound(self.rest());
        }
        self.consume_whitespace();
        if self.peek() == Some('}') {
            self.next();
            return Ok(Value::Object(obj));
        }
        loop
            invariant
                self.wf(),
                self.chars == old(self).chars,
                self.pos > old(self).pos,
                opened == old(self).rest().skip(1),
                object(opened) == members(self.rest(), obj@),
            decreases self.chars@.len() - self.pos,
        {
            let key = match self.parse_value() {
                Ok(Value::String(key)) => key,
                Ok(_) => {
                    return Err(ParseError::UnexpectedToken('"'));
                },
                Err(e) => {
                    return Err(e);
                },
            };
            self.consume_whitespace();
            proof {
                lemma_whitespace_run_bound(self.rest());
            }
            if self.next() != Some(':') {
                return Err(ParseError::UnexpectedToken(':'));
            }
            let item = match self.parse_value() {
                Ok(item) => item,
                Err(e) => {
                    return Err(e);
                },
            };
            obj.insert(key, item);
            self.consume_whitespace();
            proof {
                lemma_whitespace_run_bound(self.rest());
            }
            match self.next() {
                Some(c) => {
                    if c == '}' {
                        return Ok(Value::Object(obj));
                    } else if c == ',' {
                    } else {
                        return Err(ParseError::UnexpectedToken(c));
                    }
                },
                None => {
                    return Err(ParseError::UnexpectedEndOfInput);
                },
            }
        }
    }

    /// The character that a backslash and `c` stand for.
    pub fn decode_simple_escape(c: char) -> (r: Option<char>)
        ensures
            r == simple_escape(c),
    {
        if c == '"' || c == '\\' || c == '/' {
            Some(c)
        } else if c == 'b' {
            Some('\u{8}')
        } else if c == 'f' {
            Some('\u{c}')
        } else if c == 'n' {
            Some('\n')
        } else if c == 'r' {
            Some('\r')
        } else if c == 't' {
            Some('\t')
        } else {
            None
        }
    }

    /// The scalar value that four hexadecimal digits after `\u` name.
    pub fn decode_unicode_escape(digits: &[char]) -> (r: Option<char>)
        requires
            digits@.len() == 4,
        ensures
            r == unicode_escape(digits@),
    {
        let a = char_hex_value(digits[0]);
        let b = char_hex_value(digits[1]);
        let c = char_hex_value(digits[2]);
        let d = char_hex_value(digits[3]);
        match (a, b, c, d) {
            (Some(a), Some(b), Some(c), Some(d)) => {
                let code: u32 = ((a * 16 + b) * 16 + c) * 16 + d;
                assert(hex4(digits@) == Some(code as nat));
                scalar_from_u32(code)
            },
            _ => None,
        }
    }
}

/// Whether `r` is what the grammar makes of a whole text.
pub open spec fn is_parse_of(r: Result<Value, ParseError>, text: Seq<char>) -> bool {
    match document(text) {
        Ok(j) => r matches Ok(v) && v@ == j,
        Err(e) => r matches Err(x) && x@ == e,
    }
}

/// Parses a JSON document: one value with nothing but whitespace around it.
///
/// The first failure met, reading from left to right, is the one reported.
/// Nesting is not limited: every array or object within another takes one
/// more level of the call stack.
pub fn from_str(s: &str) -> (r: Result<Value, ParseError>)
    ensures
        is_parse_of(r, s@),
{
    let chars = chars_of(s);
    let mut parser = Parser::new(chars.as_slice());
    let v = match parser.parse_value() {
        Ok(v) => v,
        Err(e) => {
            return Err(e);
        },
    };
    parser.consume_whitespace();
    if parser.peek().is_some() {
        Err(ParseError::TrailingCharacters)
    } else {
        Ok(v)
    }
}

} // verus!
