//! The closed set of token classifications produced by the lexer.
use vstd::prelude::*;

verus! {

/// Classification of a single lexed token.
///
/// Trivia kinds (`Whitespace`, `Comment`) are first-class: the lexer emits
/// them like any other token and only the tree sink treats them specially.
#[derive(Debug, Copy, Clone, PartialEq, Eq, Structural)]
pub enum TokenKind {
    Whitespace,
    Semicolon,
    Colon,
    Comma,
    Comment,
    Ident,
    Integer,
    Float,
    String,
    True,
    False,
    LParen,
    RParen,
    LBrace,
    RBrace,
    LBracket,
    RBracket,
    Slash,
    Plus,
    Minus,
    Star,
    Percent,
    Equals,
    EqualsEquals,
    BangEquals,
    Bang,
    GreaterThan,
    GreaterThanEqual,
    LessThan,
    LessThanEqual,
    AmpersandAmpersand,
    BarBar,
    FuncKeyword,
    CompKeyword,
    LetKeyword,
    StateKeyword,
    MutKeyword,
    EffectKeyword,
    OnMountKeyword,
    OnUpdateKeyword,
    OnDestroyKeyword,
    Error,
}

/// Trivia tokens carry formatting only; the parser skips them and the tree
/// sink reattaches them so the tree stays lossless.
pub open spec fn spec_is_trivia(kind: TokenKind) -> bool {
    kind == TokenKind::Whitespace || kind == TokenKind::Comment
}

impl TokenKind {
    /// True for the kinds the parser skips over (whitespace and comments).
    pub fn is_trivia(self) -> (r: bool)
        ensures
            r == spec_is_trivia(self),
    {
        matches!(self, TokenKind::Whitespace | TokenKind::Comment)
    }

    /// The human-readable name of this kind, as used in diagnostics.
    pub fn display_name(self) -> (r: &'static str)
        ensures
            r@ == spec_display_name(self),
    {
        match self {
            TokenKind::Whitespace => "whitespace",
            TokenKind::Semicolon => "`;`",
            TokenKind::Colon => "`:`",
            TokenKind::Comma => "`,`",
            TokenKind::Comment => "comment",
            TokenKind::Ident => "identifier",
            TokenKind::Integer => "number",
            TokenKind::Float => "number",
            TokenKind::String => "string",
            TokenKind::True => "true",
            TokenKind::False => "false",
            TokenKind::LParen => "`(`",
            TokenKind::RParen => "`)`",
            TokenKind::LBrace => "`{`",
            TokenKind::RBrace => "`}`",
            TokenKind::LBracket => "`[`",
            TokenKind::RBracket => "`]`",
            TokenKind::Slash => "`/`",
            TokenKind::Plus => "`+`",
            TokenKind::Minus => "`-`",
            TokenKind::Star => "`*`",
            TokenKind::Percent => "`%`",
            TokenKind::Equals => "`=`",
            TokenKind::EqualsEquals => "`==`",
            TokenKind::BangEquals => "`!=`",
            TokenKind::Bang => "`!`",
            TokenKind::GreaterThan => "`>`",
            TokenKind::GreaterThanEqual => "`>=`",
            TokenKind::LessThan => "`<`",
            TokenKind::LessThanEqual => "`<=`",
            TokenKind::AmpersandAmpersand => "`&&`",
            TokenKind::BarBar => "`||`",
            TokenKind::FuncKeyword => "func",
            TokenKind::CompKeyword => "Comp",
            TokenKind::LetKeyword => "let",
            TokenKind::StateKeyword => "state",
            TokenKind::MutKeyword => "mut",
            TokenKind::EffectKeyword => "effect",
            TokenKind::OnMountKeyword => "onMount",
            TokenKind::OnUpdateKeyword => "onUpdate",
            TokenKind::OnDestroyKeyword => "onDestroy",
            TokenKind::Error => "an unrecognized token",
        }
    }
}

/// Diagnostic name of each token kind.
pub open spec fn spec_display_name(kind: TokenKind) -> Seq<char> {
    match kind {
        TokenKind::Whitespace => "whitespace"@,
        TokenKind::Semicolon => "`;`"@,
        TokenKind::Colon => "`:`"@,
        TokenKind::Comma => "`,`"@,
        TokenKind::Comment => "comment"@,
        TokenKind::Ident => "identifier"@,
        TokenKind::Integer => "number"@,
        TokenKind::Float => "number"@,
        TokenKind::String => "string"@,
        TokenKind::True => "true"@,
        TokenKind::False => "false"@,
        TokenKind::LParen => "`(`"@,
        TokenKind::RParen => "`)`"@,
        TokenKind::LBrace => "`{`"@,
        TokenKind::RBrace => "`}`"@,
        TokenKind::LBracket => "`[`"@,
        TokenKind::RBracket => "`]`"@,
        TokenKind::Slash => "`/`"@,
        TokenKind::Plus => "`+`"@,
        TokenKind::Minus => "`-`"@,
        TokenKind::Star => "`*`"@,
        TokenKind::Percent => "`%`"@,
        TokenKind::Equals => "`=`"@,
        TokenKind::EqualsEquals => "`==`"@,
        TokenKind::BangEquals => "`!=`"@,
        TokenKind::Bang => "`!`"@,
        TokenKind::GreaterThan => "`>`"@,
        TokenKind::GreaterThanEqual => "`>=`"@,
        TokenKind::LessThan => "`<`"@,
        TokenKind::LessThanEqual => "`<=`"@,
        TokenKind::AmpersandAmpersand => "`&&`"@,
        TokenKind::BarBar => "`||`"@,
        TokenKind::FuncKeyword => "func"@,
        TokenKind::CompKeyword => "Comp"@,
        TokenKind::LetKeyword => "let"@,
        TokenKind::StateKeyword => "state"@,
        TokenKind::MutKeyword => "mut"@,
        TokenKind::EffectKeyword => "effect"@,
        TokenKind::OnMountKeyword => "onMount"@,
        TokenKind::OnUpdateKeyword => "onUpdate"@,
        TokenKind::OnDestroyKeyword => "onDestroy"@,
        TokenKind::Error => "an unrecognized token"@,
    }
}

/// The keyword table: the exact identifier spellings that are reclassified
/// as keyword tokens after an identifier scan. This is the canonical token
/// vocabulary of the language: the compound operators stop at the
/// comparison and logical pairs above; `::` and the compound assignment
/// operators are not part of it, so `:` followed by `:` lexes as two
/// `Colon` tokens and `+=` as `Plus` then `Equals`.
pub open spec fn spec_keyword(word: Seq<char>) -> Option<TokenKind> {
    if word == "func"@ {
        Some(TokenKind::FuncKeyword)
    } else if word == "comp"@ {
        Some(TokenKind::CompKeyword)
    } else if word == "let"@ {
        Some(TokenKind::LetKeyword)
    } else if word == "state"@ {
        Some(TokenKind::StateKeyword)
    } else if word == "mut"@ {
        Some(TokenKind::MutKeyword)
    } else if word == "effect"@ {
        Some(TokenKind::EffectKeyword)
    } else if word == "onMount"@ {
        Some(TokenKind::OnMountKeyword)
    } else if word == "onUpdate"@ {
        Some(TokenKind::OnUpdateKeyword)
    } else if word == "onDestroy"@ {
        Some(TokenKind::OnDestroyKeyword)
    } else if word == "true"@ {
        Some(TokenKind::True)
    } else if word == "false"@ {
        Some(TokenKind::False)
    } else {
        None
    }
}

/// Looks the given word up in the keyword table.
pub fn str_to_keyword(word: &str) -> (r: Option<TokenKind>)
    ensures
        r == spec_keyword(word@),
{
    if crate::text::eq_str(word, "func") {
        Some(TokenKind::FuncKeyword)
    } else if crate::text::eq_str(word, "comp") {
        Some(TokenKind::CompKeyword)
    } else if crate::text::eq_str(word, "let") {
        Some(TokenKind::LetKeyword)
    } else if crate::text::eq_str(word, "state") {
        Some(TokenKind::StateKeyword)
    } else if crate::text::eq_str(word, "mut") {
        Some(TokenKind::MutKeyword)
    } else if crate::text::eq_str(word, "effect") {
        Some(TokenKind::EffectKeyword)
    } else if crate::text::eq_str(word, "onMount") {
        Some(TokenKind::OnMountKeyword)
    } else if crate::text::eq_str(word, "onUpdate") {
        Some(TokenKind::OnUpdateKeyword)
    } else if crate::text::eq_str(word, "onDestroy") {
        Some(TokenKind::OnDestroyKeyword)
    } else if crate::text::eq_str(word, "true") {
        Some(TokenKind::True)
    } else if crate::text::eq_str(word, "false") {
        Some(TokenKind::False)
    } else {
        None
    }
}

} // verus!
