//! Character classification used by the lexer, and small string helpers.
use vstd::prelude::*;
use vstd::string::StrSliceExecFns;

verus! {

/// The set of characters a whitespace run may contain (line terminators are
/// classified separately by [`spec_is_line_terminator`]).
pub open spec fn spec_is_whitespace(c: char) -> bool {
    c == '\u{0009}'  // Tab
     || c == '\u{000B}'  // Vertical tab
     || c == '\u{000C}'  // Form feed
     || c == '\u{0020}'  // Space
     || c == '\u{00A0}'  // No-break space
     || c == '\u{FEFF}'  // Zero width no-break space
     || c == '\u{1680}'  // Ogham space mark
     || c == '\u{2000}'  // En quad
     || c == '\u{2001}'  // Em quad
     || c == '\u{2002}'  // En space
     || c == '\u{2003}'  // Em space
     || c == '\u{2004}'  // Three per em space
     || c == '\u{2005}'  // Four per em space
     || c == '\u{2006}'  // Six per em space
     || c == '\u{2007}'  // Figure space
     || c == '\u{2008}'  // Punctuation space
     || c == '\u{2009}'  // Thin space
     || c == '\u{200A}'  // Hair space
     || c == '\u{202F}'  // Narrow no-break space
     || c == '\u{205F}'  // Medium mathematical space
     || c == '\u{3000}'  // Ideographic space

}

/// True if `c` is considered whitespace.
pub fn is_whitespace(c: char) -> (r: bool)
    ensures
        r == spec_is_whitespace(c),
{
    matches!(c,
        '\u{0009}' | '\u{000B}' | '\u{000C}' | '\u{0020}' | '\u{00A0}' | '\u{FEFF}' | '\u{1680}'
            | '\u{2000}' | '\u{2001}' | '\u{2002}' | '\u{2003}' | '\u{2004}' | '\u{2005}'
            | '\u{2006}' | '\u{2007}' | '\u{2008}' | '\u{2009}' | '\u{200A}' | '\u{202F}'
            | '\u{205F}' | '\u{3000}')
}

/// The set of characters that end a line (and so end a line comment).
pub open spec fn spec_is_line_terminator(c: char) -> bool {
    c == '\u{000A}'  // Line feed
     || c == '\u{000D}'  // Carriage return
     || c == '\u{2028}'  // Line separator
     || c == '\u{2029}'  // Paragraph separator

}

/// True if `c` is considered a line terminator.
pub fn is_line_terminator(c: char) -> (r: bool)
    ensures
        r == spec_is_line_terminator(c),
{
    matches!(c, '\u{000A}' | '\u{000D}' | '\u{2028}' | '\u{2029}')
}

/// Whitespace or a line terminator: what a `Whitespace` token may span.
pub open spec fn spec_is_ws(c: char) -> bool {
    spec_is_whitespace(c) || spec_is_line_terminator(c)
}

/// True if `c` may open an identifier.
pub open spec fn spec_is_identifier_start(c: char) -> bool {
    ('a' <= c && c <= 'z') || ('A' <= c && c <= 'Z') || c == '_' || c == '$'
}

/// True if `c` is considered an identifier start.
pub fn is_identifier_start(c: char) -> (r: bool)
    ensures
        r == spec_is_identifier_start(c),
{
    ('a' <= c && c <= 'z') || ('A' <= c && c <= 'Z') || c == '_' || c == '$'
}

/// True if `c` may continue an identifier.
pub open spec fn spec_is_identifier_continue(c: char) -> bool {
    ('a' <= c && c <= 'z') || ('A' <= c && c <= 'Z') || ('0' <= c && c <= '9') || c == '\u{200C}'
        || c == '\u{200D}' || c == '_' || c == '$'
}

/// True if `c` is considered an identifier continuation.
pub fn is_identifier_continue(c: char) -> (r: bool)
    ensures
        r == spec_is_identifier_continue(c),
{
    ('a' <= c && c <= 'z') || ('A' <= c && c <= 'Z') || ('0' <= c && c <= '9') || c == '\u{200C}'
        || c == '\u{200D}' || c == '_' || c == '$'
}

/// True if `c` is a decimal digit.
pub open spec fn spec_is_digit(c: char) -> bool {
    '0' <= c && c <= '9'
}

/// True if `c` is a decimal digit.
pub fn is_digit(c: char) -> (r: bool)
    ensures
        r == spec_is_digit(c),
{
    '0' <= c && c <= '9'
}

/// Character-by-character string equality, proved against the string views.
pub fn eq_str(a: &str, b: &str) -> (r: bool)
    ensures
        r == (a@ == b@),
{
    let a_len = a.unicode_len();
    let b_len = b.unicode_len();
    if a_len != b_len {
        return false;
    }
    let mut i: usize = 0;
    while i < a_len
        invariant
            a_len == a@.len(),
            b_len == b@.len(),
            a_len == b_len,
            0 <= i <= a_len,
            forall|j: int| 0 <= j < i ==> a@[j] == b@[j],
        decreases a_len - i,
    {
        let ca = a.get_char(i);
        let cb = b.get_char(i);
        if ca != cb {
            proof {
                assert(a@[i as int] != b@[i as int]);
            }
            return false;
        }
        i = i + 1;
    }
    proof {
        assert(a@ =~= b@);
    }
    true
}

} // verus!
