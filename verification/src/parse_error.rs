//! Structured syntax diagnostics collected during parsing.
use vstd::prelude::*;
use vstd::string::StringExecFns;
use crate::render::{spec_dec, spec_expected_list, dec_string, expected_list};
use crate::token_kind::{TokenKind, spec_display_name};

verus! {

/// One syntax error: the token kinds that would have been accepted at the
/// point of failure, the kind actually found (`None` at end of input), and
/// the character span the error is reported at.
#[derive(Debug, PartialEq)]
pub struct ParseError {
    pub expected: Vec<TokenKind>,
    pub found: Option<TokenKind>,
    pub start: usize,
    pub end: usize,
}

/// The human-readable rendering of a syntax error:
/// `error at start..end: expected k1, k2 or k3` with `, but found k`
/// appended when the offending token's kind is known.
pub open spec fn spec_error_message(
    expected: Seq<TokenKind>,
    found: Option<TokenKind>,
    start: int,
    end: int,
) -> Seq<char> {
    "error at "@ + spec_dec(start) + ".."@ + spec_dec(end) + ": expected "@ + spec_expected_list(
        expected,
    ) + (match found {
        Some(k) => ", but found "@ + spec_display_name(k),
        None => Seq::<char>::empty(),
    })
}

impl ParseError {
    /// Renders this error as one diagnostic line.
    pub fn message(&self) -> (r: String)
        ensures
            r@ == spec_error_message(self.expected@, self.found, self.start as int, self.end as int),
    {
        let mut out = String::new();
        out.append("error at ");
        let start_digits = dec_string(self.start);
        out.append(start_digits.as_str());
        out.append("..");
        let end_digits = dec_string(self.end);
        out.append(end_digits.as_str());
        out.append(": expected ");
        let list = expected_list(&self.expected);
        out.append(list.as_str());
        match self.found {
            Some(k) => {
                out.append(", but found ");
                out.append(k.display_name());
            },
            None => {},
        }
        proof {
            reveal_strlit("error at ");
            reveal_strlit("..");
            reveal_strlit(": expected ");
            reveal_strlit(", but found ");
            assert(out@ =~= spec_error_message(
                self.expected@,
                self.found,
                self.start as int,
                self.end as int,
            ));
        }
        out
    }
}

} // verus!
