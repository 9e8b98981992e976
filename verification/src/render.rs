//! Text rendering helpers: decimal numbers, debug escaping of token text,
//! and diagnostic lists of expected token kinds.
use vstd::prelude::*;
use vstd::string::{StrSliceExecFns, StringExecFns};
use crate::token_kind::{TokenKind, spec_display_name};

verus! {

/// The decimal digit character for `d`.
pub open spec fn spec_digit_char(d: int) -> char {
    if d == 0 {
        '0'
    } else if d == 1 {
        '1'
    } else if d == 2 {
        '2'
    } else if d == 3 {
        '3'
    } else if d == 4 {
        '4'
    } else if d == 5 {
        '5'
    } else if d == 6 {
        '6'
    } else if d == 7 {
        '7'
    } else if d == 8 {
        '8'
    } else {
        '9'
    }
}

/// The decimal rendering of `n`, most significant digit first.
pub open spec fn spec_dec(n: int) -> Seq<char>
    decreases n,
{
    if n < 10 {
        seq![spec_digit_char(n)]
    } else {
        spec_dec(n / 10) + seq![spec_digit_char(n % 10)]
    }
}

/// The one-character string for the decimal digit `d`.
fn digit_str(d: usize) -> (r: &'static str)
    requires
        d < 10,
    ensures
        r@ == seq![spec_digit_char(d as int)],
{
    let r: &'static str = match d {
        0 => "0",
        1 => "1",
        2 => "2",
        3 => "3",
        4 => "4",
        5 => "5",
        6 => "6",
        7 => "7",
        8 => "8",
        _ => "9",
    };
    proof {
        reveal_strlit("0");
        reveal_strlit("1");
        reveal_strlit("2");
        reveal_strlit("3");
        reveal_strlit("4");
        reveal_strlit("5");
        reveal_strlit("6");
        reveal_strlit("7");
        reveal_strlit("8");
        reveal_strlit("9");
        assert(r@ =~= seq![spec_digit_char(d as int)]);
    }
    r
}

/// Renders `n` in decimal.
pub fn dec_string(n: usize) -> (r: String)
    ensures
        r@ == spec_dec(n as int),
    decreases n,
{
    if n < 10 {
        let mut s = String::new();
        s.append(digit_str(n));
        proof {
            assert(s@ =~= spec_dec(n as int));
        }
        s
    } else {
        let mut s = dec_string(n / 10);
        s.append(digit_str(n % 10));
        proof {
            assert(s@ =~= spec_dec(n as int));
        }
        s
    }
}

/// How one character of token text is shown inside the quotes of a debug
/// dump: common control characters, the backslash and the double quote are
/// escaped; every other character stands for itself.
pub open spec fn spec_escape_char(c: char) -> Seq<char> {
    if c == '\n' {
        seq!['\\', 'n']
    } else if c == '\r' {
        seq!['\\', 'r']
    } else if c == '\t' {
        seq!['\\', 't']
    } else if c == '\\' {
        seq!['\\', '\\']
    } else if c == '"' {
        seq!['\\', '"']
    } else {
        seq![c]
    }
}

/// The escaped form of a whole text.
pub open spec fn spec_escape(s: Seq<char>) -> Seq<char>
    decreases s,
{
    if s.len() == 0 {
        Seq::empty()
    } else {
        spec_escape_char(s[0]) + spec_escape(s.drop_first())
    }
}

/// Splitting off the last character splits its escape off the end.
proof fn lemma_escape_push(s: Seq<char>)
    requires
        s.len() > 0,
    ensures
        spec_escape(s) == spec_escape(s.drop_last()) + spec_escape_char(s.last()),
    decreases s.len(),
{
    assert(spec_escape(s) == spec_escape_char(s[0]) + spec_escape(s.drop_first()));
    if s.len() == 1 {
        assert(spec_escape(s.drop_first()) =~= Seq::<char>::empty());
        assert(spec_escape(s.drop_last()) =~= Seq::<char>::empty());
        assert(s.last() == s[0]);
        assert(spec_escape(s) =~= spec_escape(s.drop_last()) + spec_escape_char(s.last()));
    } else {
        lemma_escape_push(s.drop_first());
        assert(s.drop_first().drop_last() == s.drop_last().drop_first());
        assert(s.drop_first().last() == s.last());
        assert(spec_escape(s.drop_last()) == spec_escape_char(s.drop_last()[0]) + spec_escape(
            s.drop_last().drop_first(),
        ));
        assert(s.drop_last()[0] == s[0]);
        assert(spec_escape(s) =~= spec_escape(s.drop_last()) + spec_escape_char(s.last()));
    }
}

/// Escapes a text for display inside the quotes of a debug dump.
pub fn escape_text(text: &str) -> (r: String)
    ensures
        r@ == spec_escape(text@),
{
    let len = text.unicode_len();
    let mut out = String::new();
    let mut i: usize = 0;
    proof {
        assert(text@.take(0) =~= Seq::<char>::empty());
        assert(out@ =~= spec_escape(text@.take(0)));
    }
    while i < len
        invariant
            len == text@.len(),
            0 <= i <= len,
            out@ == spec_escape(text@.take(i as int)),
        decreases len - i,
    {
        let c = text.get_char(i);
        if c == '\n' {
            out.append("\\n");
            proof {
                reveal_strlit("\\n");
            }
        } else if c == '\r' {
            out.append("\\r");
            proof {
                reveal_strlit("\\r");
            }
        } else if c == '\t' {
            out.append("\\t");
            proof {
                reveal_strlit("\\t");
            }
        } else if c == '\\' {
            out.append("\\\\");
            proof {
                reveal_strlit("\\\\");
            }
        } else if c == '"' {
            out.append("\\\"");
            proof {
                reveal_strlit("\\\"");
            }
        } else {
            let piece = text.substring_char(i, i + 1);
            out.append(piece);
        }
        proof {
            assert(text@.take(i + 1).drop_last() =~= text@.take(i as int));
            assert(text@.take(i + 1).last() == text@[i as int]);
            lemma_escape_push(text@.take(i + 1));
            assert(out@ =~= spec_escape(text@.take(i + 1)));
        }
        i = i + 1;
    }
    proof {
        assert(text@.take(len as int) =~= text@);
    }
    out
}

/// The rendering of a list of expected token kinds: comma-separated, with
/// the final pair joined by `or`.
pub open spec fn spec_expected_list(ks: Seq<TokenKind>) -> Seq<char>
    decreases ks,
{
    if ks.len() == 0 {
        Seq::empty()
    } else if ks.len() == 1 {
        spec_display_name(ks[0])
    } else {
        spec_display_name(ks[0]) + (if ks.len() == 2 {
            " or "@
        } else {
            ", "@
        }) + spec_expected_list(ks.drop_first())
    }
}

/// Renders a list of expected token kinds for a diagnostic.
pub fn expected_list(ks: &Vec<TokenKind>) -> (r: String)
    ensures
        r@ == spec_expected_list(ks@),
{
    let len = ks.len();
    let mut out = String::new();
    let mut i: usize = 0;
    proof {
        assert(ks@.skip(0) =~= ks@);
        assert(out@ + spec_expected_list(ks@.skip(0)) =~= spec_expected_list(ks@));
    }
    while i < len
        invariant
            len == ks@.len(),
            0 <= i <= len,
            spec_expected_list(ks@) == out@ + spec_expected_list(ks@.skip(i as int)),
        decreases len - i,
    {
        out.append(ks[i].display_name());
        if len - i == 2 {
            out.append(" or ");
            proof {
                reveal_strlit(" or ");
            }
        } else if len - i > 2 {
            out.append(", ");
            proof {
                reveal_strlit(", ");
            }
        }
        proof {
            assert(ks@.skip(i as int)[0] == ks@[i as int]);
            assert(ks@.skip(i as int).drop_first() =~= ks@.skip(i + 1));
            assert(spec_expected_list(ks@) =~= out@ + spec_expected_list(ks@.skip(i + 1)));
        }
        i = i + 1;
    }
    proof {
        assert(ks@.skip(len as int).len() == 0);
        assert(spec_expected_list(ks@) =~= out@);
    }
    out
}

} // verus!
