//! The text of a `.env` file as keys and values.
//!
//! A line is `KEY=VALUE`, with `export ` allowed before it. `#` starts a
//! comment. A value may stand in single quotes, which keep it as it is, or in
//! double quotes, in which a backslash escapes. Nothing here touches a file
//! or the environment: the caller reads the text and applies the pairs.

use vstd::prelude::*;
use vstd::slice::slice_subrange;
use vstd::std_specs::cmp::PartialEqSpecImpl;
use crate::bindings::{bind, key_index};
use crate::text::{chars_of, push_str, same_text, string_of};
use crate::text::decimal::{nat_text, push_nat};
use crate::text::edit::{
    copy_chars,
    has_at,
    split,
    split_chars,
    starts_with,
    trim_end,
    trim_end_len,
};
use crate::text::space::{
    char_is_whitespace,
    is_whitespace,
    trim,
    trim_start,
    trimmed,
    trimmed_start,
};

verus! {

/// What went wrong while a `.env` file was loaded.
#[derive(Debug)]
#[allow(inconsistent_fields)]
pub enum Error {
    /// A file could not be opened or read.
    Io { path: String, source: String },
    /// A line is no comment, not blank and no pair; lines count from 1.
    Parse { path: Option<String>, line: usize, msg: String },
    /// No `.env` was found on the way up from a directory.
    NotFound { start_dir: String },
}

/// What a line of a `.env` file is.
#[derive(Debug)]
pub enum Line {
    Comment,
    Blank,
    Pair { key: String, value: String },
    Invalid(String),
}

/// The model of a line.
pub enum LineModel {
    Comment,
    Blank,
    Pair { key: Seq<char>, value: Seq<char> },
    Invalid(Seq<char>),
}

impl View for Line {
    type V = LineModel;

    open spec fn view(&self) -> LineModel {
        match self {
            Line::Comment => LineModel::Comment,
            Line::Blank => LineModel::Blank,
            Line::Pair { key, value } => LineModel::Pair { key: key@, value: value@ },
            Line::Invalid(msg) => LineModel::Invalid(msg@),
        }
    }
}

impl Line {
    /// Whether two lines are the same.
    pub fn equals(&self, other: &Line) -> (r: bool)
        ensures
            r == (self@ == other@),
    {
        match (self, other) {
            (Line::Comment, Line::Comment) => true,
            (Line::Blank, Line::Blank) => true,
            (Line::Pair { key: k1, value: v1 }, Line::Pair { key: k2, value: v2 }) => same_text(
                k1.as_str(),
                k2.as_str(),
            ) && same_text(v1.as_str(), v2.as_str()),
            (Line::Invalid(a), Line::Invalid(b)) => same_text(a.as_str(), b.as_str()),
            _ => false,
        }
    }
}

impl PartialEq for Line {
    fn eq(&self, other: &Line) -> (r: bool) {
        self.equals(other)
    }
}

impl PartialEqSpecImpl for Line {
    open spec fn obeys_eq_spec() -> bool {
        true
    }

    open spec fn eq_spec(&self, other: &Line) -> bool {
        self@ == other@
    }
}

/// The model of a failure.
#[allow(inconsistent_fields)]
pub enum ErrorModel {
    Io { path: Seq<char>, source: Seq<char> },
    Parse { path: Option<Seq<char>>, line: nat, msg: Seq<char> },
    NotFound { start_dir: Seq<char> },
}

impl View for Error {
    type V = ErrorModel;

    open spec fn view(&self) -> ErrorModel {
        match self {
            Error::Io { path, source } => ErrorModel::Io { path: path@, source: source@ },
            Error::Parse { path, line, msg } => ErrorModel::Parse {
                path: match path {
                    Some(p) => Some(p@),
                    None => None,
                },
                line: *line as nat,
                msg: msg@,
            },
            Error::NotFound { start_dir } => ErrorModel::NotFound { start_dir: start_dir@ },
        }
    }
}

/// What a failure says of itself.
pub open spec fn error_text(e: ErrorModel) -> Seq<char> {
    match e {
        ErrorModel::Io { path, source } => "io error reading "@ + path + ": "@ + source,
        ErrorModel::Parse { path: Some(p), line, msg } => "parse error in "@ + p + " at line "@
            + nat_text(line) + ": "@ + msg,
        ErrorModel::Parse { path: None, line, msg } => "parse error at line "@ + nat_text(line)
            + ": "@ + msg,
        ErrorModel::NotFound { start_dir } => ".env not found (start: "@ + start_dir + ")"@,
    }
}

/// Whether `c` may start a key: an ASCII letter or `_`.
pub open spec fn starts_key(c: char) -> bool {
    ('a' <= c <= 'z') || ('A' <= c <= 'Z') || c == '_'
}

/// Whether `c` may stand in a key: an ASCII letter, a digit or `_`.
pub open spec fn continues_key(c: char) -> bool {
    starts_key(c) || ('0' <= c <= '9')
}

/// Whether `s` is a key.
pub open spec fn valid_key(s: Seq<char>) -> bool {
    &&& s.len() > 0
    &&& starts_key(s[0])
    &&& forall|i: int| 1 <= i < s.len() ==> continues_key(#[trigger] s[i])
}

/// The index of the first `=` from `i` on that stands outside quotes, or the
/// length of `s` if there is none. In double quotes a backslash takes the
/// character behind it along.
pub open spec fn assign_index(s: Seq<char>, i: int, in_single: bool, in_double: bool) -> int
    decreases s.len() - i,
{
    if i < 0 || i >= s.len() {
        s.len() as int
    } else if s[i] == '=' && !in_single && !in_double {
        i
    } else if s[i] == '\'' && !in_double {
        assign_index(s, i + 1, !in_single, in_double)
    } else if s[i] == '"' && !in_single {
        assign_index(s, i + 1, in_single, !in_double)
    } else if s[i] == '\\' && in_double {
        if i + 1 >= s.len() {
            s.len() as int
        } else {
            assign_index(s, i + 2, in_single, in_double)
        }
    } else {
        assign_index(s, i + 1, in_single, in_double)
    }
}

/// The index of the first `#` from `i` on that starts a comment: it stands
/// outside quotes, at the start or behind whitespace. The length of `s` if
/// there is none.
pub open spec fn comment_index(
    s: Seq<char>,
    i: int,
    in_single: bool,
    in_double: bool,
    after_space: bool,
) -> int
    decreases s.len() - i,
{
    if i < 0 || i >= s.len() {
        s.len() as int
    } else if s[i] == '\'' && !in_double {
        comment_index(s, i + 1, !in_single, in_double, is_whitespace(s[i]))
    } else if s[i] == '"' && !in_single {
        comment_index(s, i + 1, in_single, !in_double, is_whitespace(s[i]))
    } else if s[i] == '#' && !in_single && !in_double && after_space {
        i
    } else {
        comment_index(s, i + 1, in_single, in_double, is_whitespace(s[i]))
    }
}

/// `val` up to the comment that ends it, if one does.
pub open spec fn without_comment(val: Seq<char>) -> Seq<char> {
    val.take(comment_index(val, 0, false, false, true))
}

/// What a backslash and `c` stand for in double quotes; where they stand for
/// nothing, both stay.
pub open spec fn escape_text(c: char) -> Seq<char> {
    if c == 'n' {
        seq!['\n']
    } else if c == 'r' {
        seq!['\r']
    } else if c == 't' {
        seq!['\t']
    } else if c == '0' {
        seq!['\0']
    } else if c == '"' || c == '\'' || c == '\\' {
        seq![c]
    } else {
        seq!['\\', c]
    }
}

/// `s` with its escapes resolved. A backslash at the very end stays.
pub open spec fn unescaped(s: Seq<char>) -> Seq<char>
    decreases s.len(),
{
    if s.len() == 0 {
        Seq::empty()
    } else if s[0] == '\\' {
        if s.len() == 1 {
            seq!['\\']
        } else {
            escape_text(s[1]) + unescaped(s.skip(2))
        }
    } else {
        seq![s[0]] + unescaped(s.skip(1))
    }
}

/// Whether `s` stands between two `quote`s.
pub open spec fn quoted_with(s: Seq<char>, quote: char) -> bool {
    s.len() >= 2 && s[0] == quote && s.last() == quote
}

/// The value that the text `raw` writes: without the whitespace around it;
/// without single quotes around it; or without double quotes around it and
/// with its escapes resolved.
pub open spec fn unquoted(raw: Seq<char>) -> Seq<char> {
    let t = trim(raw);
    if quoted_with(t, '\'') {
        t.subrange(1, t.len() - 1)
    } else if quoted_with(t, '"') {
        unescaped(t.subrange(1, t.len() - 1))
    } else {
        t
    }
}

/// `s` without `export` and a space or a tab at its start.
pub open spec fn without_export(s: Seq<char>) -> Seq<char> {
    if starts_with(s, "export "@) {
        s.skip("export "@.len() as int)
    } else if starts_with(s, "export\t"@) {
        s.skip("export\t"@.len() as int)
    } else {
        s
    }
}

/// The value part of a line, before its quotes are looked at: a value that
/// starts with a quote is kept whole, any other loses its comment.
pub open spec fn value_text(val: Seq<char>) -> Seq<char> {
    let t = trim_start(val);
    if t.len() > 0 && (t[0] == '"' || t[0] == '\'') {
        val
    } else {
        without_comment(val)
    }
}

/// What the line `line` is.
pub open spec fn line_of(line: Seq<char>) -> LineModel {
    let t = trim(line);
    if t.len() == 0 {
        LineModel::Blank
    } else if t[0] == '#' {
        LineModel::Comment
    } else {
        let s = without_export(t);
        let i = assign_index(s, 0, false, false);
        if i >= s.len() {
            LineModel::Invalid("missing '='"@)
        } else if !valid_key(trim(s.take(i))) {
            LineModel::Invalid("invalid key"@)
        } else {
            LineModel::Pair { key: trim(s.take(i)), value: unquoted(value_text(s.skip(i + 1))) }
        }
    }
}

/// The pairs that the lines from number `from` on add to `acc`, or the first
/// failure among them. A line loses the carriage returns at its end; a blank
/// line and a comment add nothing; a key that comes again takes the later
/// value.
pub open spec fn lines_of(
    lines: Seq<Seq<char>>,
    from: int,
    acc: Seq<(Seq<char>, Seq<char>)>,
) -> Result<Seq<(Seq<char>, Seq<char>)>, ErrorModel>
    decreases lines.len() - from,
{
    if from < 0 || from >= lines.len() {
        Ok(acc)
    } else {
        match line_of(trim_end(lines[from], '\r')) {
            LineModel::Pair { key, value } => lines_of(lines, from + 1, bind(acc, key, value)),
            LineModel::Invalid(msg) => Err(
                ErrorModel::Parse { path: None, line: (from + 1) as nat, msg },
            ),
            _ => lines_of(lines, from + 1, acc),
        }
    }
}

/// The pairs that the text of a `.env` file holds, or its first failure.
pub open spec fn content_of(text: Seq<char>) -> Result<Seq<(Seq<char>, Seq<char>)>, ErrorModel> {
    lines_of(split(text, '\n'), 0, Seq::empty())
}

/// Whether a variable is to be set: always when overwriting, else only
/// where it is not set yet.
pub open spec fn applies(overwrite: bool, already_set: bool) -> bool {
    overwrite || !already_set
}

impl Error {
    /// The failure in words.
    pub fn to_string(&self) -> (s: String)
        ensures
            s@ == error_text(self@),
    {
        let mut out: Vec<char> = Vec::new();
        match self {
            Error::Io { path, source } => {
                push_str(&mut out, "io error reading ");
                push_str(&mut out, path.as_str());
                push_str(&mut out, ": ");
                push_str(&mut out, source.as_str());
                assert(out@ =~= error_text(self@));
            },
            Error::Parse { path, line, msg } => {
                match path {
                    Some(p) => {
                        push_str(&mut out, "parse error in ");
                        push_str(&mut out, p.as_str());
                        push_str(&mut out, " at line ");
                    },
                    None => {
                        push_str(&mut out, "parse error at line ");
                    },
                }
                push_nat(&mut out, *line as u64);
                push_str(&mut out, ": ");
                push_str(&mut out, msg.as_str());
                assert(out@ =~= error_text(self@));
            },
            Error::NotFound { start_dir } => {
                push_str(&mut out, ".env not found (start: ");
                push_str(&mut out, start_dir.as_str());
                push_str(&mut out, ")");
                assert(out@ =~= error_text(self@));
            },
        }
        string_of(out.as_slice())
    }
}

/// Whether `s` is a key: it starts with an ASCII letter or `_` and goes on
/// with ASCII letters, digits and `_`.
pub fn is_valid_key(s: &[char]) -> (r: bool)
    ensures
        r == valid_key(s@),
{
    if s.len() == 0 {
        return false;
    }
    let c = s[0];
    if !(('a' <= c && c <= 'z') || ('A' <= c && c <= 'Z') || c == '_') {
        return false;
    }
    let mut i: usize = 1;
    while i < s.len()
        invariant
            1 <= i <= s.len(),
            forall|k: int| 1 <= k < i ==> continues_key(#[trigger] s@[k]),
        decreases s.len() - i,
    {
        let c = s[i];
        if !(('a' <= c && c <= 'z') || ('A' <= c && c <= 'Z') || c == '_' || ('0' <= c && c
            <= '9')) {
            assert(!continues_key(s@[i as int]));
            return false;
        }
        i += 1;
    }
    true
}

/// The index of the first `=` of `s` that stands outside quotes.
fn find_assign(s: &[char]) -> (i: usize)
    ensures
        i == assign_index(s@, 0, false, false),
        i <= s@.len(),
{
    let mut in_single = false;
    let mut in_double = false;
    let mut i: usize = 0;
    while i < s.len()
        invariant
            assign_index(s@, 0, false, false) == assign_index(s@, i as int, in_single, in_double),
        decreases s.len() - i,
    {
        let c = s[i];
        if c == '=' && !in_single && !in_double {
            return i;
        } else if c == '\'' && !in_double {
            in_single = !in_single;
            i += 1;
        } else if c == '"' && !in_single {
            in_double = !in_double;
            i += 1;
        } else if c == '\\' && in_double {
            if s.len() - i < 2 {
                return s.len();
            }
            i += 2;
        } else {
            i += 1;
        }
    }
    s.len()
}

/// `val` up to the comment that ends it, if one does.
pub fn strip_inline_comment_if_unquoted(val: &[char]) -> (r: &[char])
    ensures
        r@ == without_comment(val@),
{
    let mut in_single = false;
    let mut in_double = false;
    let mut after_space = true;
    let mut i: usize = 0;
    while i < val.len()
        invariant
            i <= val.len(),
            comment_index(val@, 0, false, false, true) == comment_index(
                val@,
                i as int,
                in_single,
                in_double,
                after_space,
            ),
        decreases val.len() - i,
    {
        let c = val[i];
        if c == '\'' && !in_double {
            in_single = !in_single;
        } else if c == '"' && !in_single {
            in_double = !in_double;
        } else if c == '#' && !in_single && !in_double && after_space {
            let r = slice_subrange(val, 0, i);
            assert(r@ =~= without_comment(val@));
            return r;
        }
        after_space = char_is_whitespace(c);
        i += 1;
    }
    assert(val@.take(val@.len() as int) =~= val@);
    val
}

/// `s` with its escapes resolved.
fn unescape(s: &[char]) -> (out: Vec<char>)
    ensures
        out@ == unescaped(s@),
{
    let mut out: Vec<char> = Vec::new();
    let mut i: usize = 0;
    assert(s@.skip(0) =~= s@);
    while i < s.len()
        invariant
            i <= s.len(),
            out@ + unescaped(s@.skip(i as int)) == unescaped(s@),
        decreases s.len() - i,
    {
        let ghost here = s@.skip(i as int);
        let ghost before = out@;
        let c = s[i];
        if c == '\\' {
            if s.len() - i < 2 {
                out.push('\\');
                assert(here.len() == 1);
                assert(out@ =~= before + unescaped(here));
                return out;
            }
            let e = s[i + 1];
            assert(e == here[1]);
            if e == 'n' {
                out.push('\n');
            } else if e == 'r' {
                out.push('\r');
            } else if e == 't' {
                out.push('\t');
            } else if e == '0' {
                out.push('\0');
            } else if e == '"' || e == '\'' || e == '\\' {
                out.push(e);
            } else {
                out.push('\\');
                out.push(e);
            }
            assert(out@ =~= before + escape_text(e));
            assert(here.skip(2) =~= s@.skip(i + 2));
            assert(out@ + unescaped(s@.skip(i + 2)) =~= before + unescaped(here));
            i += 2;
        } else {
            out.push(c);
            assert(here.skip(1) =~= s@.skip(i + 1));
            assert(out@ + unescaped(s@.skip(i + 1)) =~= before + unescaped(here));
            i += 1;
        }
    }
    assert(out@ =~= out@ + unescaped(s@.skip(i as int)));
    out
}

/// The value that the text `raw` writes.
pub fn unquote_and_unescape(raw: &[char]) -> (v: Vec<char>)
    ensures
        v@ == unquoted(raw@),
{
    let t = trimmed(raw);
    let n = t.len();
    if n >= 2 && t[0] == '\'' && t[n - 1] == '\'' {
        let inner = slice_subrange(t, 1, n - 1);
        return copy_chars(inner);
    }
    if n >= 2 && t[0] == '"' && t[n - 1] == '"' {
        let inner = slice_subrange(t, 1, n - 1);
        return unescape(inner);
    }
    copy_chars(t)
}

/// `s` without `export` and a space or a tab at its start.
fn strip_export(s: &[char]) -> (r: &[char])
    ensures
        r@ == without_export(s@),
{
    let with_space = chars_of("export ");
    let with_tab = chars_of("export\t");
    assert(s@.skip(0) =~= s@);
    if has_at(s, 0, with_space.as_slice()) {
        slice_subrange(s, with_space.len(), s.len())
    } else if has_at(s, 0, with_tab.as_slice()) {
        slice_subrange(s, with_tab.len(), s.len())
    } else {
        s
    }
}

/// What the characters of a line are.
pub fn parse_chars(line: &[char]) -> (r: Line)
    ensures
        r@ == line_of(line@),
{
    let t = trimmed(line);
    if t.len() == 0 {
        return Line::Blank;
    }
    if t[0] == '#' {
        return Line::Comment;
    }
    let s = strip_export(t);
    let i = find_assign(s);
    if i >= s.len() {
        return Line::Invalid("missing '='".to_owned());
    }
    let key = trimmed(slice_subrange(s, 0, i));
    if !is_valid_key(key) {
        return Line::Invalid("invalid key".to_owned());
    }
    let val = slice_subrange(s, i + 1, s.len());
    assert(val@ =~= s@.skip(i + 1));
    let start = trimmed_start(val);
    let val = if start.len() > 0 && (start[0] == '"' || start[0] == '\'') {
        val
    } else {
        strip_inline_comment_if_unquoted(val)
    };
    let value = unquote_and_unescape(val);
    Line::Pair { key: string_of(key), value: string_of(value.as_slice()) }
}

/// What a line of a `.env` file is: a comment, blank, a pair of key and
/// value, or a failure with what is wrong.
pub fn parse_line(s: &str) -> (r: Line)
    ensures
        r@ == line_of(s@),
{
    let chars = chars_of(s);
    parse_chars(chars.as_slice())
}

/// The view of pairs of strings.
pub open spec fn pairs_view(pairs: Seq<(String, String)>) -> Seq<(Seq<char>, Seq<char>)> {
    Seq::new(pairs.len(), |i: int| (pairs[i].0@, pairs[i].1@))
}

/// Binds `key` to `value` among `pairs`: a key that is bound keeps its place
/// and takes the new value, a new key goes to the end.
pub fn bind_pair(pairs: &mut Vec<(String, String)>, key: String, value: String)
    ensures
        pairs_view(final(pairs)@) == bind(pairs_view(old(pairs)@), key@, value@),
{
    let ghost before = pairs_view(pairs@);
    let mut i: usize = 0;
    assert(before.skip(0) =~= before);
    while i < pairs.len()
        invariant
            i <= pairs.len(),
            pairs@ == old(pairs)@,
            before == pairs_view(pairs@),
            key_index(before, key@) == i + key_index(before.skip(i as int), key@),
        decreases pairs.len() - i,
    {
        if same_text(pairs[i].0.as_str(), key.as_str()) {
            assert(before.skip(i as int)[0] == before[i as int]);
            pairs.set(i, (key, value));
            assert(pairs_view(pairs@) =~= bind(before, key@, value@));
            return ;
        }
        assert(before.skip(i as int)[0] == before[i as int]);
        assert(before.skip(i as int).skip(1) =~= before.skip(i + 1));
        i += 1;
    }
    pairs.push((key, value));
    assert(pairs_view(pairs@) =~= bind(before, key@, value@));
}

/// Whether `r` is the outcome `expected`.
pub open spec fn is_content(
    r: Result<Vec<(String, String)>, Error>,
    expected: Result<Seq<(Seq<char>, Seq<char>)>, ErrorModel>,
) -> bool {
    match expected {
        Ok(pairs) => r matches Ok(v) && pairs_view(v@) == pairs,
        Err(e) => r matches Err(x) && x@ == e,
    }
}

/// The pairs that the text of a `.env` file holds, each key once, in the
/// order in which the keys first appear; or the first line that is wrong,
/// with its number.
pub fn parse_reader(text: &str) -> (r: Result<Vec<(String, String)>, Error>)
    ensures
        is_content(r, content_of(text@)),
{
    let chars = chars_of(text);
    let lines = split_chars(chars.as_slice(), '\n');
    let mut pairs: Vec<(String, String)> = Vec::new();
    let mut i: usize = 0;
    assert(pairs_view(pairs@) =~= Seq::<(Seq<char>, Seq<char>)>::empty());
    while i < lines.len()
        invariant
            i <= lines.len(),
            lines@.len() == split(text@, '\n').len(),
            forall|k: int|
                0 <= k < lines@.len() ==> (#[trigger] lines@[k])@ == split(text@, '\n')[k],
            content_of(text@) == lines_of(split(text@, '\n'), i as int, pairs_view(pairs@)),
        decreases lines.len() - i,
    {
        let raw = lines[i].as_slice();
        let line = slice_subrange(raw, 0, trim_end_len(raw, '\r'));
        match parse_chars(line) {
            Line::Pair { key, value } => {
                bind_pair(&mut pairs, key, value);
            },
            Line::Invalid(msg) => {
                return Err(Error::Parse { path: None, line: i + 1, msg });
            },
            _ => {},
        }
        i += 1;
    }
    Ok(pairs)
}

/// Whether a variable is to be set.
pub fn should_apply(overwrite: bool, already_set: bool) -> (r: bool)
    ensures
        r == applies(overwrite, already_set),
{
    overwrite || !already_set
}

} // verus!
