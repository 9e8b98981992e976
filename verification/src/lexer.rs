//! The lexer: classifies raw source text into a flat token sequence.
//!
//! The token stream is total: every character of the input belongs to
//! exactly one token, the lexer never fails, and trivia (whitespace,
//! comments) are emitted as ordinary tokens.
use vstd::prelude::*;
use vstd::string::StrSliceExecFns;
use crate::cursor::{Cursor, cursor_wf};
use crate::text::{
    spec_is_ws,
    spec_is_digit,
    spec_is_identifier_start,
    spec_is_identifier_continue,
    spec_is_line_terminator,
    is_whitespace,
    is_line_terminator,
    is_digit,
    is_identifier_start,
    is_identifier_continue,
};
use crate::token_kind::{TokenKind, spec_keyword, str_to_keyword};

verus! {

/// A single lexed token: its classification and the slice of the source it
/// covers, with `[start, end)` its character span.
#[derive(Debug, PartialEq)]
pub struct Token<'a> {
    pub kind: TokenKind,
    pub text: &'a str,
    pub start: usize,
    pub end: usize,
}

/// A lexical error: the classification and the span it was found at.
#[derive(Debug, PartialEq)]
pub struct SyntaxError {
    pub kind: SyntaxErrorKind,
    pub start: usize,
    pub end: usize,
}

/// The kinds of lexical error the lexer records.
#[derive(Debug, Copy, Clone, PartialEq, Eq, Structural)]
pub enum SyntaxErrorKind {
    UnclosedStringLiteral,
}

// ---------------------------------------------------------------------------
// The mathematical model of tokenization.
// ---------------------------------------------------------------------------
/// End of the whitespace run beginning at `i`.
pub open spec fn spec_ws_end(s: Seq<char>, i: int) -> int
    decreases s.len() - i,
{
    if 0 <= i < s.len() && spec_is_ws(s[i]) {
        spec_ws_end(s, i + 1)
    } else {
        i
    }
}

/// End of the digit run beginning at `i`.
pub open spec fn spec_digit_end(s: Seq<char>, i: int) -> int
    decreases s.len() - i,
{
    if 0 <= i < s.len() && spec_is_digit(s[i]) {
        spec_digit_end(s, i + 1)
    } else {
        i
    }
}

/// End of the identifier-continue run beginning at `i`.
pub open spec fn spec_ident_end(s: Seq<char>, i: int) -> int
    decreases s.len() - i,
{
    if 0 <= i < s.len() && spec_is_identifier_continue(s[i]) {
        spec_ident_end(s, i + 1)
    } else {
        i
    }
}

/// End of the comment body beginning at `i`: everything up to (not
/// including) the next line terminator.
pub open spec fn spec_comment_end(s: Seq<char>, i: int) -> int
    decreases s.len() - i,
{
    if 0 <= i < s.len() && !spec_is_line_terminator(s[i]) {
        spec_comment_end(s, i + 1)
    } else {
        i
    }
}

/// Scans a string literal body from `i`: returns the position just past the
/// closing quote, or `None` when the literal never closes. A backslash
/// escapes the character after it.
pub open spec fn spec_string_close(s: Seq<char>, i: int) -> Option<int>
    decreases s.len() - i,
{
    if !(0 <= i < s.len()) {
        None
    } else if s[i] == '"' {
        Some(i + 1)
    } else if s[i] == '\\' {
        if i + 1 < s.len() {
            spec_string_close(s, i + 2)
        } else {
            None
        }
    } else {
        spec_string_close(s, i + 1)
    }
}

/// The identifier `word` reclassified through the keyword table.
pub open spec fn spec_kw_or_ident(word: Seq<char>) -> TokenKind {
    match spec_keyword(word) {
        Some(k) => k,
        None => TokenKind::Ident,
    }
}

/// Classification of the token that begins at position `i` of `s`: its kind
/// and its end position. This is first-character dispatch:
/// a whitespace run, a number (with `.` promoting to a float when a digit
/// follows), an identifier reclassified through the keyword table, a string
/// literal (unterminated ones span the rest of the input as `Error`), a
/// `//` comment up to the next line terminator, punctuation with two-character
/// lookahead for compound operators, and otherwise a one-character `Error`.
pub open spec fn spec_first_token(s: Seq<char>, i: int) -> (TokenKind, int) {
    let c = s[i];
    if spec_is_ws(c) {
        (TokenKind::Whitespace, spec_ws_end(s, i))
    } else if spec_is_digit(c) {
        let e = spec_digit_end(s, i);
        if e < s.len() && s[e] == '.' && e + 1 < s.len() && spec_is_digit(s[e + 1]) {
            (TokenKind::Float, spec_digit_end(s, e + 1))
        } else {
            (TokenKind::Integer, e)
        }
    } else if spec_is_identifier_start(c) {
        let e = spec_ident_end(s, i);
        (spec_kw_or_ident(s.subrange(i, e)), e)
    } else if c == '"' {
        match spec_string_close(s, i + 1) {
            Some(e) => (TokenKind::String, e),
            None => (TokenKind::Error, s.len() as int),
        }
    } else if c == '/' {
        if i + 1 < s.len() && s[i + 1] == '/' {
            (TokenKind::Comment, spec_comment_end(s, i + 2))
        } else {
            (TokenKind::Slash, i + 1)
        }
    } else if c == '=' {
        if i + 1 < s.len() && s[i + 1] == '=' {
            (TokenKind::EqualsEquals, i + 2)
        } else {
            (TokenKind::Equals, i + 1)
        }
    } else if c == '!' {
        if i + 1 < s.len() && s[i + 1] == '=' {
            (TokenKind::BangEquals, i + 2)
        } else {
            (TokenKind::Bang, i + 1)
        }
    } else if c == '<' {
        if i + 1 < s.len() && s[i + 1] == '=' {
            (TokenKind::LessThanEqual, i + 2)
        } else {
            (TokenKind::LessThan, i + 1)
        }
    } else if c == '>' {
        if i + 1 < s.len() && s[i + 1] == '=' {
            (TokenKind::GreaterThanEqual, i + 2)
        } else {
            (TokenKind::GreaterThan, i + 1)
        }
    } else if c == '&' {
        if i + 1 < s.len() && s[i + 1] == '&' {
            (TokenKind::AmpersandAmpersand, i + 2)
        } else {
            (TokenKind::Error, i + 1)
        }
    } else if c == '|' {
        if i + 1 < s.len() && s[i + 1] == '|' {
            (TokenKind::BarBar, i + 2)
        } else {
            (TokenKind::Error, i + 1)
        }
    } else if c == ';' {
        (TokenKind::Semicolon, i + 1)
    } else if c == ':' {
        (TokenKind::Colon, i + 1)
    } else if c == ',' {
        (TokenKind::Comma, i + 1)
    } else if c == '(' {
        (TokenKind::LParen, i + 1)
    } else if c == ')' {
        (TokenKind::RParen, i + 1)
    } else if c == '{' {
        (TokenKind::LBrace, i + 1)
    } else if c == '}' {
        (TokenKind::RBrace, i + 1)
    } else if c == '[' {
        (TokenKind::LBracket, i + 1)
    } else if c == ']' {
        (TokenKind::RBracket, i + 1)
    } else if c == '+' {
        (TokenKind::Plus, i + 1)
    } else if c == '-' {
        (TokenKind::Minus, i + 1)
    } else if c == '*' {
        (TokenKind::Star, i + 1)
    } else if c == '%' {
        (TokenKind::Percent, i + 1)
    } else {
        (TokenKind::Error, i + 1)
    }
}

/// The token at `i` is an unterminated string literal.
pub open spec fn spec_unterminated(s: Seq<char>, i: int) -> bool {
    s[i] == '"' && spec_string_close(s, i + 1) is None
}

/// The full token stream of `s` from position `i` on: a sequence of
/// `(kind, start, end)` triples whose spans partition `[i, s.len())`.
pub open spec fn spec_tokens(s: Seq<char>, i: int) -> Seq<(TokenKind, int, int)>
    decreases s.len() - i,
    via spec_tokens_decreases
{
    if !(0 <= i < s.len()) {
        Seq::empty()
    } else {
        let (k, e) = spec_first_token(s, i);
        seq![(k, i, e)] + spec_tokens(s, e)
    }
}

#[via_fn]
proof fn spec_tokens_decreases(s: Seq<char>, i: int) {
    if 0 <= i < s.len() {
        lemma_first_token_bounds(s, i);
    }
}

/// The lexical errors of `s` from position `i` on: the `(start, end)` span
/// of every unterminated string literal, in order.
pub open spec fn spec_lex_errors(s: Seq<char>, i: int) -> Seq<(int, int)>
    decreases s.len() - i,
    via spec_lex_errors_decreases
{
    if !(0 <= i < s.len()) {
        Seq::empty()
    } else {
        let (k, e) = spec_first_token(s, i);
        if spec_unterminated(s, i) {
            seq![(i, e)] + spec_lex_errors(s, e)
        } else {
            spec_lex_errors(s, e)
        }
    }
}

#[via_fn]
proof fn spec_lex_errors_decreases(s: Seq<char>, i: int) {
    if 0 <= i < s.len() {
        lemma_first_token_bounds(s, i);
    }
}

// ---------------------------------------------------------------------------
// Bounds of the scan functions.
// ---------------------------------------------------------------------------
pub proof fn lemma_ws_end_bounds(s: Seq<char>, i: int)
    requires
        0 <= i <= s.len(),
    ensures
        i <= spec_ws_end(s, i) <= s.len(),
    decreases s.len() - i,
{
    if i < s.len() && spec_is_ws(s[i]) {
        lemma_ws_end_bounds(s, i + 1);
    }
}

pub proof fn lemma_digit_end_bounds(s: Seq<char>, i: int)
    requires
        0 <= i <= s.len(),
    ensures
        i <= spec_digit_end(s, i) <= s.len(),
    decreases s.len() - i,
{
    if i < s.len() && spec_is_digit(s[i]) {
        lemma_digit_end_bounds(s, i + 1);
    }
}

pub proof fn lemma_ident_end_bounds(s: Seq<char>, i: int)
    requires
        0 <= i <= s.len(),
    ensures
        i <= spec_ident_end(s, i) <= s.len(),
    decreases s.len() - i,
{
    if i < s.len() && spec_is_identifier_continue(s[i]) {
        lemma_ident_end_bounds(s, i + 1);
    }
}

pub proof fn lemma_comment_end_bounds(s: Seq<char>, i: int)
    requires
        0 <= i <= s.len(),
    ensures
        i <= spec_comment_end(s, i) <= s.len(),
    decreases s.len() - i,
{
    if i < s.len() && !spec_is_line_terminator(s[i]) {
        lemma_comment_end_bounds(s, i + 1);
    }
}

pub proof fn lemma_string_close_bounds(s: Seq<char>, i: int)
    requires
        0 <= i,
    ensures
        match spec_string_close(s, i) {
            Some(e) => i < e <= s.len(),
            None => true,
        },
    decreases s.len() - i,
{
    if 0 <= i < s.len() {
        if s[i] == '"' {
        } else if s[i] == '\\' {
            if i + 1 < s.len() {
                lemma_string_close_bounds(s, i + 2);
            }
        } else {
            lemma_string_close_bounds(s, i + 1);
        }
    }
}

/// Every token is non-empty and ends within the input.
pub proof fn lemma_first_token_bounds(s: Seq<char>, i: int)
    requires
        0 <= i < s.len(),
    ensures
        i < spec_first_token(s, i).1 <= s.len(),
{
    let c = s[i];
    if spec_is_ws(c) {
        lemma_ws_end_bounds(s, i + 1);
    } else if spec_is_digit(c) {
        lemma_digit_end_bounds(s, i + 1);
        let e = spec_digit_end(s, i);
        if e < s.len() && s[e] == '.' && e + 1 < s.len() && spec_is_digit(s[e + 1]) {
            lemma_digit_end_bounds(s, e + 2);
        }
    } else if spec_is_identifier_start(c) {
        lemma_ident_end_bounds(s, i + 1);
    } else if c == '"' {
        lemma_string_close_bounds(s, i + 1);
    } else if c == '/' {
        if i + 1 < s.len() && s[i + 1] == '/' {
            lemma_comment_end_bounds(s, i + 2);
        }
    }
}

// ---------------------------------------------------------------------------
// The executable scanners.
// ---------------------------------------------------------------------------
fn ws_end(chars: &Vec<char>, i: usize) -> (r: usize)
    requires
        i <= chars@.len(),
    ensures
        r == spec_ws_end(chars@, i as int),
        i <= r <= chars@.len(),
    decreases chars@.len() - i,
{
    if i < chars.len() && (is_whitespace(chars[i]) || is_line_terminator(chars[i])) {
        ws_end(chars, i + 1)
    } else {
        i
    }
}

fn digit_end(chars: &Vec<char>, i: usize) -> (r: usize)
    requires
        i <= chars@.len(),
    ensures
        r == spec_digit_end(chars@, i as int),
        i <= r <= chars@.len(),
    decreases chars@.len() - i,
{
    if i < chars.len() && is_digit(chars[i]) {
        digit_end(chars, i + 1)
    } else {
        i
    }
}

fn ident_end(chars: &Vec<char>, i: usize) -> (r: usize)
    requires
        i <= chars@.len(),
    ensures
        r == spec_ident_end(chars@, i as int),
        i <= r <= chars@.len(),
    decreases chars@.len() - i,
{
    if i < chars.len() && is_identifier_continue(chars[i]) {
        ident_end(chars, i + 1)
    } else {
        i
    }
}

fn comment_end(chars: &Vec<char>, i: usize) -> (r: usize)
    requires
        i <= chars@.len(),
    ensures
        r == spec_comment_end(chars@, i as int),
        i <= r <= chars@.len(),
    decreases chars@.len() - i,
{
    if i < chars.len() && !is_line_terminator(chars[i]) {
        comment_end(chars, i + 1)
    } else {
        i
    }
}

fn string_close(chars: &Vec<char>, i: usize) -> (r: Option<usize>)
    requires
        i <= chars@.len(),
    ensures
        match r {
            Some(e) => Some(e as int) == spec_string_close(chars@, i as int) && i < e
                <= chars@.len(),
            None => spec_string_close(chars@, i as int) is None,
        },
    decreases chars@.len() - i,
{
    if i >= chars.len() {
        None
    } else if chars[i] == '"' {
        Some(i + 1)
    } else if chars[i] == '\\' {
        if i + 1 < chars.len() {
            string_close(chars, i + 2)
        } else {
            None
        }
    } else {
        string_close(chars, i + 1)
    }
}

/// Classifies the token beginning at the cursor's position: returns its kind
/// and end position. Total: any character yields a token of at least one
/// character.
pub fn lex(cursor: &Cursor<'_>) -> (r: (TokenKind, usize))
    requires
        cursor_wf(*cursor),
        cursor.index < cursor.chars@.len(),
    ensures
        (r.0, r.1 as int) == spec_first_token(cursor.chars@, cursor.index as int),
        cursor.index < r.1 <= cursor.chars@.len(),
{
    let chars = &cursor.chars;
    let i = cursor.index;
    let len = chars.len();
    let c = chars[i];
    proof {
        lemma_first_token_bounds(chars@, i as int);
    }
    if is_whitespace(c) || is_line_terminator(c) {
        (TokenKind::Whitespace, ws_end(chars, i))
    } else if is_digit(c) {
        let e = digit_end(chars, i);
        if e < len && chars[e] == '.' && e + 1 < len && is_digit(chars[e + 1]) {
            (TokenKind::Float, digit_end(chars, e + 1))
        } else {
            (TokenKind::Integer, e)
        }
    } else if is_identifier_start(c) {
        let e = ident_end(chars, i);
        let word = cursor.slice(i, e);
        match str_to_keyword(word) {
            Some(k) => (k, e),
            None => (TokenKind::Ident, e),
        }
    } else if c == '"' {
        match string_close(chars, i + 1) {
            Some(e) => (TokenKind::String, e),
            None => (TokenKind::Error, len),
        }
    } else if c == '/' {
        if i + 1 < len && chars[i + 1] == '/' {
            (TokenKind::Comment, comment_end(chars, i + 2))
        } else {
            (TokenKind::Slash, i + 1)
        }
    } else if c == '=' {
        if i + 1 < len && chars[i + 1] == '=' {
            (TokenKind::EqualsEquals, i + 2)
        } else {
            (TokenKind::Equals, i + 1)
        }
    } else if c == '!' {
        if i + 1 < len && chars[i + 1] == '=' {
            (TokenKind::BangEquals, i + 2)
        } else {
            (TokenKind::Bang, i + 1)
        }
    } else if c == '<' {
        if i + 1 < len && chars[i + 1] == '=' {
            (TokenKind::LessThanEqual, i + 2)
        } else {
            (TokenKind::LessThan, i + 1)
        }
    } else if c == '>' {
        if i + 1 < len && chars[i + 1] == '=' {
            (TokenKind::GreaterThanEqual, i + 2)
        } else {
            (TokenKind::GreaterThan, i + 1)
        }
    } else if c == '&' {
        if i + 1 < len && chars[i + 1] == '&' {
            (TokenKind::AmpersandAmpersand, i + 2)
        } else {
            (TokenKind::Error, i + 1)
        }
    } else if c == '|' {
        if i + 1 < len && chars[i + 1] == '|' {
            (TokenKind::BarBar, i + 2)
        } else {
            (TokenKind::Error, i + 1)
        }
    } else if c == ';' {
        (TokenKind::Semicolon, i + 1)
    } else if c == ':' {
        (TokenKind::Colon, i + 1)
    } else if c == ',' {
        (TokenKind::Comma, i + 1)
    } else if c == '(' {
        (TokenKind::LParen, i + 1)
    } else if c == ')' {
        (TokenKind::RParen, i + 1)
    } else if c == '{' {
        (TokenKind::LBrace, i + 1)
    } else if c == '}' {
        (TokenKind::RBrace, i + 1)
    } else if c == '[' {
        (TokenKind::LBracket, i + 1)
    } else if c == ']' {
        (TokenKind::RBracket, i + 1)
    } else if c == '+' {
        (TokenKind::Plus, i + 1)
    } else if c == '-' {
        (TokenKind::Minus, i + 1)
    } else if c == '*' {
        (TokenKind::Star, i + 1)
    } else if c == '%' {
        (TokenKind::Percent, i + 1)
    } else {
        (TokenKind::Error, i + 1)
    }
}

/// A restartable lexer over one source string.
pub struct Lexer<'a> {
    pub cursor: Cursor<'a>,
}

impl<'a> Lexer<'a> {
    /// Opens a lexer at the start of `input`.
    pub fn new(input: &'a str) -> (r: Lexer<'a>)
        ensures
            cursor_wf(r.cursor),
            r.cursor.chars@ == input@,
            r.cursor.index == 0,
    {
        Lexer { cursor: Cursor::new(input) }
    }

    /// Produces the next token, or `None` at end of input.
    pub fn next(&mut self) -> (r: Option<Token<'a>>)
        requires
            cursor_wf(old(self).cursor),
        ensures
            cursor_wf(final(self).cursor),
            final(self).cursor.chars@ == old(self).cursor.chars@,
            match r {
                None => old(self).cursor.index == old(self).cursor.chars@.len()
                    && final(self).cursor.index == old(self).cursor.index,
                Some(t) => {
                    &&& old(self).cursor.index < old(self).cursor.chars@.len()
                    &&& t.start == old(self).cursor.index
                    &&& (t.kind, t.end as int) == spec_first_token(
                        old(self).cursor.chars@,
                        t.start as int,
                    )
                    &&& t.start < t.end <= old(self).cursor.chars@.len()
                    &&& t.text@ == old(self).cursor.chars@.subrange(t.start as int, t.end as int)
                    &&& final(self).cursor.index == t.end
                },
            },
    {
        if self.cursor.index >= self.cursor.chars.len() {
            None
        } else {
            let start = self.cursor.index;
            let (kind, end) = lex(&self.cursor);
            let text = self.cursor.slice(start, end);
            self.cursor.index = end;
            Some(Token { kind, text, start, end })
        }
    }
}

// ---------------------------------------------------------------------------
// Tokenizing a whole file.
// ---------------------------------------------------------------------------
/// The `(kind, start, end)` view of a token sequence.
pub open spec fn tok_views(toks: Seq<Token<'_>>) -> Seq<(TokenKind, int, int)> {
    toks.map_values(|t: Token<'_>| (t.kind, t.start as int, t.end as int))
}

/// Every token's span lies within `s` and its text is exactly the slice of
/// `s` it covers.
pub open spec fn lexed_wf(toks: Seq<Token<'_>>, s: Seq<char>) -> bool {
    forall|j: int|
        0 <= j < toks.len() ==> {
            &&& 0 <= #[trigger] toks[j].start < toks[j].end <= s.len()
            &&& toks[j].text@ == s.subrange(toks[j].start as int, toks[j].end as int)
        }
}

/// The `(start, end)` view of an error sequence.
pub open spec fn err_views(errs: Seq<SyntaxError>) -> Seq<(int, int)> {
    errs.map_values(|e: SyntaxError| (e.start as int, e.end as int))
}

/// Tokenizes the entire source file into a vector of tokens, together with
/// the lexical errors that were met (one for each unterminated string
/// literal).
///
/// The token stream is exactly the mathematical tokenization of the source:
/// spans are non-empty, adjacent, and cover `[0, len)` in order, so the
/// token texts concatenate back to the source.
pub fn tokenize_file(source: &str) -> (r: (Vec<Token<'_>>, Vec<SyntaxError>))
    ensures
        tok_views(r.0@) == spec_tokens(source@, 0),
        lexed_wf(r.0@, source@),
        err_views(r.1@) == spec_lex_errors(source@, 0),
        forall|j: int|
            0 <= j < r.1@.len() ==> (#[trigger] r.1@[j]).kind
                == SyntaxErrorKind::UnclosedStringLiteral,
{
    let ghost s = source@;
    let mut lexer = Lexer::new(source);
    let mut tokens: Vec<Token<'_>> = Vec::new();
    let mut errors: Vec<SyntaxError> = Vec::new();
    proof {
        assert(spec_tokens(s, 0) =~= tok_views(tokens@) + spec_tokens(s, 0));
        assert(spec_lex_errors(s, 0) =~= err_views(errors@) + spec_lex_errors(s, 0));
    }
    loop
        invariant
            s == source@,
            cursor_wf(lexer.cursor),
            lexer.cursor.chars@ == s,
            spec_tokens(s, 0) == tok_views(tokens@) + spec_tokens(s, lexer.cursor.index as int),
            spec_lex_errors(s, 0) == err_views(errors@) + spec_lex_errors(
                s,
                lexer.cursor.index as int,
            ),
            lexed_wf(tokens@, s),
            forall|j: int|
                0 <= j < errors@.len() ==> (#[trigger] errors@[j]).kind
                    == SyntaxErrorKind::UnclosedStringLiteral,
        decreases s.len() - lexer.cursor.index,
    {
        let ghost pos = lexer.cursor.index as int;
        match lexer.next() {
            None => {
                proof {
                    assert(spec_tokens(s, pos) =~= Seq::<(TokenKind, int, int)>::empty());
                    assert(spec_lex_errors(s, pos) =~= Seq::<(int, int)>::empty());
                    assert(tok_views(tokens@) + Seq::<(TokenKind, int, int)>::empty() =~= tok_views(
                        tokens@,
                    ));
                    assert(err_views(errors@) + Seq::<(int, int)>::empty() =~= err_views(errors@));
                }
                return (tokens, errors);
            },
            Some(t) => {
                let ghost k = t.kind;
                let ghost e = t.end as int;
                let is_unterminated = t.kind == TokenKind::Error && t.text.get_char(0) == '"';
                proof {
                    assert(t.text@[0] == s[pos]);
                    assert(spec_unterminated(s, pos) == (k == TokenKind::Error && s[pos] == '"'));
                    assert(spec_tokens(s, pos) =~= seq![(k, pos, e)] + spec_tokens(s, e));
                    assert(tok_views(tokens@.push(t)) =~= tok_views(tokens@).push((k, pos, e)));
                    assert(tok_views(tokens@).push((k, pos, e)) + spec_tokens(s, e) =~= tok_views(
                        tokens@,
                    ) + spec_tokens(s, pos));
                }
                if is_unterminated {
                    let err = SyntaxError {
                        kind: SyntaxErrorKind::UnclosedStringLiteral,
                        start: t.start,
                        end: t.end,
                    };
                    proof {
                        assert(spec_lex_errors(s, pos) =~= seq![(pos, e)] + spec_lex_errors(s, e));
                        assert(err_views(errors@.push(err)) =~= err_views(errors@).push((pos, e)));
                        assert(err_views(errors@).push((pos, e)) + spec_lex_errors(s, e)
                            =~= err_views(errors@) + spec_lex_errors(s, pos));
                    }
                    errors.push(err);
                } else {
                    proof {
                        assert(spec_lex_errors(s, pos) =~= spec_lex_errors(s, e));
                    }
                }
                tokens.push(t);
            },
        }
    }
}

// ---------------------------------------------------------------------------
// Laws of the token stream.
// ---------------------------------------------------------------------------
/// Every entry of `spec_tokens(s, i)` is the first-token classification at
/// its own start position, and the spans chain: the first starts at `i`,
/// each next one starts where the previous ended, and the last ends at
/// `s.len()`.
pub proof fn lemma_spec_tokens_chain(s: Seq<char>, i: int)
    requires
        0 <= i <= s.len(),
    ensures
        spec_tokens(s, i).len() == 0 <==> i == s.len(),
        spec_tokens(s, i).len() > 0 ==> spec_tokens(s, i)[0].1 == i,
        spec_tokens(s, i).len() > 0 ==> spec_tokens(s, i).last().2 == s.len(),
        forall|j: int|
            0 <= j < spec_tokens(s, i).len() ==> {
                &&& 0 <= (#[trigger] spec_tokens(s, i)[j]).1 < spec_tokens(s, i)[j].2 <= s.len()
                &&& (spec_tokens(s, i)[j].0, spec_tokens(s, i)[j].2) == spec_first_token(
                    s,
                    spec_tokens(s, i)[j].1,
                )
            },
        forall|j: int|
            0 < j < spec_tokens(s, i).len() ==> (#[trigger] spec_tokens(s, i)[j]).1 == spec_tokens(
                s,
                i,
            )[j - 1].2,
    decreases s.len() - i,
{
    if i < s.len() {
        let (k, e) = spec_first_token(s, i);
        lemma_first_token_bounds(s, i);
        lemma_spec_tokens_chain(s, e);
        let ts = spec_tokens(s, i);
        let rest = spec_tokens(s, e);
        assert(ts =~= seq![(k, i, e)] + rest);
        assert forall|j: int| 0 < j < ts.len() implies (#[trigger] ts[j]).1 == ts[j - 1].2 by {
            if j == 1 {
                assert(rest.len() > 0 && rest[0].1 == e);
            } else {
                assert(ts[j] == rest[j - 1] && ts[j - 1] == rest[j - 2]);
            }
        }
    }
}

/// Concatenation of the texts of a token sequence, in order.
pub open spec fn concat_texts(toks: Seq<Token<'_>>) -> Seq<char>
    decreases toks.len(),
{
    if toks.len() == 0 {
        Seq::empty()
    } else {
        toks[0].text@ + concat_texts(toks.drop_first())
    }
}

/// Tokenization is lossless: the texts of the tokens lexed from position
/// `i` on concatenate to exactly the source from `i` on.
#[verifier::rlimit(50)]
pub proof fn lemma_tokens_round_trip_from(toks: Seq<Token<'_>>, s: Seq<char>, i: int)
    requires
        0 <= i <= s.len(),
        tok_views(toks) == spec_tokens(s, i),
        lexed_wf(toks, s),
    ensures
        concat_texts(toks) == s.subrange(i, s.len() as int),
    decreases toks.len(),
{
    if toks.len() == 0 {
        if i < s.len() {
            let (k, e) = spec_first_token(s, i);
            assert(spec_tokens(s, i) =~= seq![(k, i, e)] + spec_tokens(s, e));
            assert(tok_views(toks).len() == 0);
            assert(false);
        }
        assert(concat_texts(toks) =~= s.subrange(i, s.len() as int));
    } else {
        assert(i < s.len()) by {
            if i == s.len() {
                assert(spec_tokens(s, i).len() == 0);
            }
        }
        let (k, e) = spec_first_token(s, i);
        lemma_first_token_bounds(s, i);
        assert(spec_tokens(s, i) =~= seq![(k, i, e)] + spec_tokens(s, e));
        assert(tok_views(toks)[0] == (toks[0].kind, toks[0].start as int, toks[0].end as int));
        assert(toks[0].start == i && toks[0].end == e);
        let rest = toks.drop_first();
        assert forall|j: int| 0 <= j < rest.len() implies tok_views(rest)[j] == spec_tokens(
            s,
            e,
        )[j] by {
            assert(rest[j] == toks[j + 1]);
            assert(tok_views(toks)[j + 1] == (toks[j + 1].kind, toks[j + 1].start as int, toks[j
                + 1].end as int));
            assert(spec_tokens(s, i)[j + 1] == spec_tokens(s, e)[j]);
        }
        assert(tok_views(rest) =~= spec_tokens(s, e));
        assert forall|j: int| 0 <= j < rest.len() implies {
            &&& 0 <= (#[trigger] rest[j]).start < rest[j].end <= s.len()
            &&& rest[j].text@ == s.subrange(rest[j].start as int, rest[j].end as int)
        } by {
            assert(rest[j] == toks[j + 1]);
            assert(0 <= toks[j + 1].start < toks[j + 1].end <= s.len());
        }
        lemma_tokens_round_trip_from(rest, s, e);
        assert(toks[0].text@ == s.subrange(i, e));
        assert(concat_texts(toks) == toks[0].text@ + concat_texts(rest));
        assert(s.subrange(i, e) + s.subrange(e, s.len() as int) =~= s.subrange(i, s.len() as int));
    }
}


/// The round-trip law at the token level: concatenating the texts of the
/// tokens of `s` yields exactly `s`.
pub proof fn lemma_tokens_round_trip(toks: Seq<Token<'_>>, s: Seq<char>)
    requires
        tok_views(toks) == spec_tokens(s, 0),
        lexed_wf(toks, s),
    ensures
        concat_texts(toks) == s,
{
    lemma_tokens_round_trip_from(toks, s, 0);
    assert(s.subrange(0, s.len() as int) =~= s);
}

/// The progress law: token spans are non-empty and partition `[0, s.len())`
/// with no gaps and no overlaps.
pub proof fn lemma_token_spans_partition(toks: Seq<Token<'_>>, s: Seq<char>)
    requires
        tok_views(toks) == spec_tokens(s, 0),
    ensures
        toks.len() == 0 <==> s.len() == 0,
        forall|j: int| 0 <= j < toks.len() ==> (#[trigger] toks[j]).start < toks[j].end <= s.len(),
        toks.len() > 0 ==> toks[0].start == 0,
        toks.len() > 0 ==> toks.last().end == s.len(),
        forall|j: int| 0 < j < toks.len() ==> (#[trigger] toks[j]).start == toks[j - 1].end,
{
    lemma_spec_tokens_chain(s, 0);
    assert(toks.len() == tok_views(toks).len());
    assert forall|j: int| 0 <= j < toks.len() implies (#[trigger] toks[j]).start < toks[j].end
        <= s.len() by {
        assert(tok_views(toks)[j] == (toks[j].kind, toks[j].start as int, toks[j].end as int));
    }
    if toks.len() > 0 {
        assert(tok_views(toks)[0] == (toks[0].kind, toks[0].start as int, toks[0].end as int));
        assert(tok_views(toks).last() == (toks.last().kind, toks.last().start as int, toks.last().end as int));
    }
    assert forall|j: int| 0 < j < toks.len() implies (#[trigger] toks[j]).start == toks[j
        - 1].end by {
        assert(tok_views(toks)[j] == (toks[j].kind, toks[j].start as int, toks[j].end as int));
        assert(tok_views(toks)[j - 1] == (toks[j - 1].kind, toks[j - 1].start as int, toks[j
            - 1].end as int));
    }
}

// ---------------------------------------------------------------------------
// The re-lex law: a token's text, tokenized on its own, reproduces the
// token.
// ---------------------------------------------------------------------------
proof fn lemma_ws_end_chars(s: Seq<char>, i: int)
    requires
        0 <= i <= s.len(),
    ensures
        i <= spec_ws_end(s, i) <= s.len(),
        forall|j: int| i <= j < spec_ws_end(s, i) ==> spec_is_ws(s[j]),
        spec_ws_end(s, i) < s.len() ==> !spec_is_ws(s[spec_ws_end(s, i)]),
    decreases s.len() - i,
{
    if i < s.len() && spec_is_ws(s[i]) {
        lemma_ws_end_chars(s, i + 1);
    }
}

proof fn lemma_ws_end_is(t: Seq<char>, j: int, m: int)
    requires
        0 <= j <= m <= t.len(),
        forall|x: int| j <= x < m ==> spec_is_ws(t[x]),
        m < t.len() ==> !spec_is_ws(t[m]),
    ensures
        spec_ws_end(t, j) == m,
    decreases m - j,
{
    if j < m {
        lemma_ws_end_is(t, j + 1, m);
    }
}

proof fn lemma_digit_end_chars(s: Seq<char>, i: int)
    requires
        0 <= i <= s.len(),
    ensures
        i <= spec_digit_end(s, i) <= s.len(),
        forall|j: int| i <= j < spec_digit_end(s, i) ==> spec_is_digit(s[j]),
        spec_digit_end(s, i) < s.len() ==> !spec_is_digit(s[spec_digit_end(s, i)]),
    decreases s.len() - i,
{
    if i < s.len() && spec_is_digit(s[i]) {
        lemma_digit_end_chars(s, i + 1);
    }
}

proof fn lemma_digit_end_is(t: Seq<char>, j: int, m: int)
    requires
        0 <= j <= m <= t.len(),
        forall|x: int| j <= x < m ==> spec_is_digit(t[x]),
        m < t.len() ==> !spec_is_digit(t[m]),
    ensures
        spec_digit_end(t, j) == m,
    decreases m - j,
{
    if j < m {
        lemma_digit_end_is(t, j + 1, m);
    }
}

proof fn lemma_ident_end_chars(s: Seq<char>, i: int)
    requires
        0 <= i <= s.len(),
    ensures
        i <= spec_ident_end(s, i) <= s.len(),
        forall|j: int| i <= j < spec_ident_end(s, i) ==> spec_is_identifier_continue(s[j]),
        spec_ident_end(s, i) < s.len() ==> !spec_is_identifier_continue(s[spec_ident_end(s, i)]),
    decreases s.len() - i,
{
    if i < s.len() && spec_is_identifier_continue(s[i]) {
        lemma_ident_end_chars(s, i + 1);
    }
}

proof fn lemma_ident_end_is(t: Seq<char>, j: int, m: int)
    requires
        0 <= j <= m <= t.len(),
        forall|x: int| j <= x < m ==> spec_is_identifier_continue(t[x]),
        m < t.len() ==> !spec_is_identifier_continue(t[m]),
    ensures
        spec_ident_end(t, j) == m,
    decreases m - j,
{
    if j < m {
        lemma_ident_end_is(t, j + 1, m);
    }
}

proof fn lemma_comment_end_chars(s: Seq<char>, i: int)
    requires
        0 <= i <= s.len(),
    ensures
        i <= spec_comment_end(s, i) <= s.len(),
        forall|j: int| i <= j < spec_comment_end(s, i) ==> !spec_is_line_terminator(s[j]),
        spec_comment_end(s, i) < s.len() ==> spec_is_line_terminator(s[spec_comment_end(s, i)]),
    decreases s.len() - i,
{
    if i < s.len() && !spec_is_line_terminator(s[i]) {
        lemma_comment_end_chars(s, i + 1);
    }
}

proof fn lemma_comment_end_is(t: Seq<char>, j: int, m: int)
    requires
        0 <= j <= m <= t.len(),
        forall|x: int| j <= x < m ==> !spec_is_line_terminator(t[x]),
        m < t.len() ==> spec_is_line_terminator(t[m]),
    ensures
        spec_comment_end(t, j) == m,
    decreases m - j,
{
    if j < m {
        lemma_comment_end_is(t, j + 1, m);
    }
}

proof fn lemma_string_close_sub_some(s: Seq<char>, a: int, b: int, j: int)
    requires
        0 <= a,
        1 <= j,
        a + j <= b <= s.len(),
        spec_string_close(s, a + j) == Some(b),
    ensures
        spec_string_close(s.subrange(a, b), j) == Some(b - a),
    decreases s.len() - (a + j),
{
    let t = s.subrange(a, b);
    let p = a + j;
    lemma_string_close_bounds(s, p);
    assert(p < b);
    assert(t[j] == s[p]);
    if s[p] == '"' {
        assert(p + 1 == b);
    } else if s[p] == '\\' {
        assert(p + 1 < s.len());
        lemma_string_close_bounds(s, p + 2);
        assert(p + 2 < b + 1);
        lemma_string_close_sub_some(s, a, b, j + 2);
    } else {
        lemma_string_close_sub_some(s, a, b, j + 1);
    }
}

proof fn lemma_string_close_sub_none(s: Seq<char>, a: int, j: int)
    requires
        0 <= a <= s.len(),
        0 <= j,
        spec_string_close(s, a + j) is None,
    ensures
        spec_string_close(s.subrange(a, s.len() as int), j) is None,
    decreases s.len() - (a + j),
{
    let t = s.subrange(a, s.len() as int);
    let p = a + j;
    if p >= s.len() {
        assert(j >= t.len());
    } else {
        assert(t[j] == s[p]);
        if s[p] == '"' {
            assert(false);
        } else if s[p] == '\\' {
            if p + 1 < s.len() {
                lemma_string_close_sub_none(s, a, j + 2);
            } else {
                assert(j + 1 >= t.len());
            }
        } else {
            lemma_string_close_sub_none(s, a, j + 1);
        }
    }
}

/// Token classification is self-contained: classifying the text slice of
/// the token found at `i` reproduces the same kind and length.
#[verifier::rlimit(100)]
proof fn lemma_first_token_self(s: Seq<char>, i: int)
    requires
        0 <= i < s.len(),
    ensures
        ({
            let (k, e) = spec_first_token(s, i);
            spec_first_token(s.subrange(i, e), 0) == (k, e - i)
        }),
{
    let (k, e) = spec_first_token(s, i);
    lemma_first_token_bounds(s, i);
    let t = s.subrange(i, e);
    let c = s[i];
    assert(t[0] == c);
    if spec_is_ws(c) {
        lemma_ws_end_chars(s, i);
        assert forall|x: int| 0 <= x < t.len() implies spec_is_ws(t[x]) by {
            assert(t[x] == s[i + x]);
        }
        lemma_ws_end_is(t, 0, t.len() as int);
    } else if spec_is_digit(c) {
        let d1 = spec_digit_end(s, i);
        lemma_digit_end_chars(s, i);
        if d1 < s.len() && s[d1] == '.' && d1 + 1 < s.len() && spec_is_digit(s[d1 + 1]) {
            // a float: digits, a dot, then at least one more digit
            assert(e == spec_digit_end(s, d1 + 1));
            lemma_digit_end_chars(s, d1 + 1);
            assert(spec_is_digit(s[d1 + 1]));
            assert(spec_digit_end(s, d1 + 1) == spec_digit_end(s, d1 + 2));
            lemma_digit_end_bounds(s, d1 + 2);
            assert(d1 + 2 <= e);
            assert forall|x: int| 0 <= x < d1 - i implies spec_is_digit(t[x]) by {
                assert(t[x] == s[i + x]);
            }
            assert(t[d1 - i] == s[d1]);
            lemma_digit_end_is(t, 0, d1 - i);
            assert(spec_digit_end(t, 0) == d1 - i);
            assert(t[d1 - i] == '.');
            assert(t[d1 - i + 1] == s[d1 + 1]);
            assert forall|x: int| d1 - i + 1 <= x < t.len() implies spec_is_digit(t[x]) by {
                assert(t[x] == s[i + x]);
            }
            lemma_digit_end_is(t, d1 - i + 1, t.len() as int);
        } else {
            assert(e == d1);
            assert forall|x: int| 0 <= x < t.len() implies spec_is_digit(t[x]) by {
                assert(t[x] == s[i + x]);
            }
            lemma_digit_end_is(t, 0, t.len() as int);
            assert(spec_digit_end(t, 0) == t.len());
        }
    } else if spec_is_identifier_start(c) {
        assert(e == spec_ident_end(s, i));
        lemma_ident_end_chars(s, i);
        assert forall|x: int| 0 <= x < t.len() implies spec_is_identifier_continue(t[x]) by {
            assert(t[x] == s[i + x]);
        }
        lemma_ident_end_is(t, 0, t.len() as int);
        assert(t.subrange(0, t.len() as int) =~= t);
        assert(s.subrange(i, e) =~= t);
    } else if c == '"' {
        match spec_string_close(s, i + 1) {
            Some(e2) => {
                assert(e == e2);
                lemma_string_close_bounds(s, i + 1);
                lemma_string_close_sub_some(s, i, e, 1);
            },
            None => {
                assert(e == s.len());
                lemma_string_close_sub_none(s, i, 1);
            },
        }
    } else if c == '/' {
        if i + 1 < s.len() && s[i + 1] == '/' {
            assert(e == spec_comment_end(s, i + 2));
            lemma_comment_end_bounds(s, i + 2);
            lemma_comment_end_chars(s, i + 2);
            assert(t[1] == s[i + 1]);
            assert forall|x: int| 2 <= x < t.len() implies !spec_is_line_terminator(t[x]) by {
                assert(t[x] == s[i + x]);
            }
            lemma_comment_end_is(t, 2, t.len() as int);
        } else {
            assert(t.len() == 1);
        }
    } else {
        if e == i + 2 {
            assert(t[1] == s[i + 1]);
        } else {
            assert(t.len() == 1);
        }
    }
}

/// The re-lex law: tokenizing the text slice of any token of the stream
/// yields that single token back, with the same kind.
pub proof fn lemma_relex_token(toks: Seq<Token<'_>>, s: Seq<char>, j: int)
    requires
        tok_views(toks) == spec_tokens(s, 0),
        lexed_wf(toks, s),
        0 <= j < toks.len(),
    ensures
        spec_tokens(toks[j].text@, 0) == seq![
            (toks[j].kind, 0int, toks[j].end - toks[j].start),
        ],
{
    lemma_spec_tokens_chain(s, 0);
    let view = tok_views(toks)[j];
    assert(view == (toks[j].kind, toks[j].start as int, toks[j].end as int));
    let st = toks[j].start as int;
    let en = toks[j].end as int;
    assert((toks[j].kind, en) == spec_first_token(s, st));
    lemma_first_token_self(s, st);
    let t = toks[j].text@;
    assert(t == s.subrange(st, en));
    assert(spec_first_token(t, 0) == (toks[j].kind, en - st));
    assert(t.len() == en - st > 0);
    assert(spec_tokens(t, 0) =~= seq![(toks[j].kind, 0int, en - st)] + spec_tokens(t, en - st));
    assert(spec_tokens(t, en - st) =~= Seq::<(TokenKind, int, int)>::empty());
    assert(spec_tokens(t, 0) =~= seq![(toks[j].kind, 0int, en - st)]);
}

} // verus!
