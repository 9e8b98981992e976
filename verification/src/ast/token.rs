//! Typed views of literal tokens, with a verified decimal parse.
use vstd::prelude::*;
use vstd::string::StrSliceExecFns;
use crate::syntax_kind::SyntaxKind;
use crate::text::{spec_is_digit, is_digit};
use crate::tree::SyntaxToken;

verus! {

/// Value of a decimal digit character.
pub open spec fn spec_digit_val(c: char) -> int {
    c as u32 - 48
}

/// Every character of `s` is a decimal digit.
pub open spec fn spec_all_digits(s: Seq<char>) -> bool {
    forall|i: int| 0 <= i < s.len() ==> spec_is_digit(#[trigger] s[i])
}

/// Value of a digit string, most significant digit first.
pub open spec fn spec_digits_val(s: Seq<char>) -> int
    decreases s.len(),
{
    if s.len() == 0 {
        0
    } else {
        spec_digits_val(s.drop_last()) * 10 + spec_digit_val(s.last())
    }
}

/// What parsing a token text as an unsigned integer yields: the value when
/// the text is all digits and fits, and nothing otherwise.
pub open spec fn spec_parse_u64(s: Seq<char>) -> Option<u64> {
    if s.len() > 0 && spec_all_digits(s) && spec_digits_val(s) <= u64::MAX {
        Some(spec_digits_val(s) as u64)
    } else {
        None
    }
}

/// A digit string's value is non-negative.
proof fn lemma_digits_val_nonneg(s: Seq<char>)
    requires
        spec_all_digits(s),
    ensures
        spec_digits_val(s) >= 0,
    decreases s.len(),
{
    if s.len() > 0 {
        assert(spec_all_digits(s.drop_last())) by {
            assert(forall|i: int|
                0 <= i < s.len() - 1 ==> #[trigger] s.drop_last()[i] == s[i]);
        }
        lemma_digits_val_nonneg(s.drop_last());
        assert(spec_is_digit(s.last()));
    }
}

/// Extending a digit string never decreases its value.
proof fn lemma_digits_val_mono(s: Seq<char>, i: int)
    requires
        spec_all_digits(s),
        0 <= i <= s.len(),
    ensures
        spec_digits_val(s.take(i)) <= spec_digits_val(s),
    decreases s.len() - i,
{
    if i < s.len() {
        lemma_digits_val_mono(s, i + 1);
        assert(s.take(i + 1).drop_last() =~= s.take(i));
        assert(s.take(i + 1).last() == s[i]);
        assert(spec_all_digits(s.take(i))) by {
            assert(forall|j: int| 0 <= j < i ==> #[trigger] s.take(i)[j] == s[j]);
        }
        lemma_digits_val_nonneg(s.take(i));
        assert(spec_is_digit(s[i]));
        assert(spec_digits_val(s.take(i + 1)) == spec_digits_val(s.take(i)) * 10 + spec_digit_val(
            s[i],
        ));
    } else {
        assert(s.take(i) =~= s);
    }
}

/// Parses a digit string into an unsigned integer, refusing texts that are
/// empty, hold a non-digit, or overflow.
pub fn parse_u64_text(text: &str) -> (r: Option<u64>)
    ensures
        r == spec_parse_u64(text@),
{
    let len = text.unicode_len();
    if len == 0 {
        return None;
    }
    let mut acc: u128 = 0;
    let mut i: usize = 0;
    proof {
        assert(text@.take(0) =~= Seq::<char>::empty());
    }
    while i < len
        invariant
            len == text@.len(),
            0 <= i <= len,
            acc == spec_digits_val(text@.take(i as int)),
            acc <= u64::MAX,
            forall|j: int| 0 <= j < i ==> spec_is_digit(#[trigger] text@[j]),
        decreases len - i,
    {
        let c = text.get_char(i);
        if !is_digit(c) {
            proof {
                assert(!spec_all_digits(text@));
            }
            return None;
        }
        let d: u128 = (c as u32 - 48) as u128;
        let next = acc * 10 + d;
        proof {
            assert(text@.take(i + 1).drop_last() =~= text@.take(i as int));
            assert(text@.take(i + 1).last() == text@[i as int]);
            assert(spec_digits_val(text@.take(i + 1)) == spec_digits_val(text@.take(i as int)) * 10
                + spec_digit_val(text@[i as int]));
        }
        if next > u64::MAX as u128 {
            proof {
                assert(spec_all_digits(text@) ==> spec_digits_val(text@) > u64::MAX) by {
                    if spec_all_digits(text@) {
                        lemma_digits_val_mono(text@, i + 1);
                    }
                }
            }
            return None;
        }
        acc = next;
        i = i + 1;
    }
    proof {
        assert(text@.take(len as int) =~= text@);
        assert(spec_all_digits(text@));
    }
    Some(acc as u64)
}

/// An integer literal token.
#[derive(Debug, Clone, Copy)]
pub struct Integer<'a>(pub &'a SyntaxToken);

impl<'a> Integer<'a> {
    /// Views a raw token as an integer literal.
    pub fn cast(syntax: &'a SyntaxToken) -> (r: Option<Integer<'a>>)
        ensures
            match r {
                Some(t) => syntax.kind == SyntaxKind::Integer && *t.0 == *syntax,
                None => syntax.kind != SyntaxKind::Integer,
            },
    {
        if matches!(syntax.kind, SyntaxKind::Integer) {
            Some(Integer(syntax))
        } else {
            None
        }
    }

    /// The numeric value of the token, when it fits in sixty-four bits.
    pub fn parse(&self) -> (r: Option<u64>)
        ensures
            r == spec_parse_u64(self.0.text@),
    {
        parse_u64_text(self.0.text.as_str())
    }
}

/// A string literal token.
#[derive(Debug, Clone, Copy)]
pub struct StringToken<'a>(pub &'a SyntaxToken);

impl<'a> StringToken<'a> {
    /// Views a raw token as a string literal.
    pub fn cast(syntax: &'a SyntaxToken) -> (r: Option<StringToken<'a>>)
        ensures
            match r {
                Some(t) => syntax.kind == SyntaxKind::String && *t.0 == *syntax,
                None => syntax.kind != SyntaxKind::String,
            },
    {
        if matches!(syntax.kind, SyntaxKind::String) {
            Some(StringToken(syntax))
        } else {
            None
        }
    }

    /// The token's text, quotes included.
    pub fn value(&self) -> (r: &'a str)
        ensures
            r@ == self.0.text@,
    {
        self.0.text.as_str()
    }
}

} // verus!
