//! The shared vocabulary of the lossless tree: one tag for every token kind
//! and every node kind that can appear in a syntax tree.
use vstd::prelude::*;
use crate::token_kind::TokenKind;

verus! {

#[derive(Debug, Copy, Clone, PartialEq, Eq, Structural)]
pub enum SyntaxKind {
    Root,
    Tombstone,
    Error,
    // Trivia
    Whitespace,
    Comment,
    // Tokens
    Comma,
    Colon,
    Semicolon,
    True,
    False,
    Ident,
    Plus,
    Minus,
    Star,
    Slash,
    Equals,
    EqualsEquals,
    BangEquals,
    Percent,
    LessThan,
    LessThanEqual,
    GreaterThan,
    GreaterThanEqual,
    AmpersandAmpersand,
    BarBar,
    Bang,
    LParen,
    RParen,
    LBrace,
    RBrace,
    LBracket,
    RBracket,
    Literal,
    Integer,
    Float,
    String,
    FuncKeyword,
    CompKeyword,
    LetKeyword,
    StateKeyword,
    MutKeyword,
    EffectKeyword,
    OnMountKeyword,
    OnUpdateKeyword,
    OnDestroyKeyword,
    // Nodes
    BlockStmt,
    FunctionDecl,
    InfixExpr,
    ParamList,
    ParenExpr,
    PrefixExpr,
    VariableDef,
    VariableRef,
}

/// The total mapping from a lexed token kind to its tree tag.
pub open spec fn spec_from_token(token: TokenKind) -> SyntaxKind {
    match token {
        TokenKind::Whitespace => SyntaxKind::Whitespace,
        TokenKind::Semicolon => SyntaxKind::Semicolon,
        TokenKind::Colon => SyntaxKind::Colon,
        TokenKind::Comma => SyntaxKind::Comma,
        TokenKind::Comment => SyntaxKind::Comment,
        TokenKind::Ident => SyntaxKind::Ident,
        TokenKind::Integer => SyntaxKind::Integer,
        TokenKind::Float => SyntaxKind::Float,
        TokenKind::String => SyntaxKind::String,
        TokenKind::True => SyntaxKind::True,
        TokenKind::False => SyntaxKind::False,
        TokenKind::LParen => SyntaxKind::LParen,
        TokenKind::RParen => SyntaxKind::RParen,
        TokenKind::LBrace => SyntaxKind::LBrace,
        TokenKind::RBrace => SyntaxKind::RBrace,
        TokenKind::LBracket => SyntaxKind::LBracket,
        TokenKind::RBracket => SyntaxKind::RBracket,
        TokenKind::Slash => SyntaxKind::Slash,
        TokenKind::Plus => SyntaxKind::Plus,
        TokenKind::Minus => SyntaxKind::Minus,
        TokenKind::Star => SyntaxKind::Star,
        TokenKind::Percent => SyntaxKind::Percent,
        TokenKind::Equals => SyntaxKind::Equals,
        TokenKind::EqualsEquals => SyntaxKind::EqualsEquals,
        TokenKind::BangEquals => SyntaxKind::BangEquals,
        TokenKind::Bang => SyntaxKind::Bang,
        TokenKind::GreaterThan => SyntaxKind::GreaterThan,
        TokenKind::GreaterThanEqual => SyntaxKind::GreaterThanEqual,
        TokenKind::LessThan => SyntaxKind::LessThan,
        TokenKind::LessThanEqual => SyntaxKind::LessThanEqual,
        TokenKind::AmpersandAmpersand => SyntaxKind::AmpersandAmpersand,
        TokenKind::BarBar => SyntaxKind::BarBar,
        TokenKind::FuncKeyword => SyntaxKind::FuncKeyword,
        TokenKind::CompKeyword => SyntaxKind::CompKeyword,
        TokenKind::LetKeyword => SyntaxKind::LetKeyword,
        TokenKind::StateKeyword => SyntaxKind::StateKeyword,
        TokenKind::MutKeyword => SyntaxKind::MutKeyword,
        TokenKind::EffectKeyword => SyntaxKind::EffectKeyword,
        TokenKind::OnMountKeyword => SyntaxKind::OnMountKeyword,
        TokenKind::OnUpdateKeyword => SyntaxKind::OnUpdateKeyword,
        TokenKind::OnDestroyKeyword => SyntaxKind::OnDestroyKeyword,
        TokenKind::Error => SyntaxKind::Error,
    }
}

impl SyntaxKind {
    /// Converts a token kind into the corresponding tree tag.
    pub fn from_token(token: TokenKind) -> (r: SyntaxKind)
        ensures
            r == spec_from_token(token),
    {
        match token {
            TokenKind::Whitespace => SyntaxKind::Whitespace,
            TokenKind::Semicolon => SyntaxKind::Semicolon,
            TokenKind::Colon => SyntaxKind::Colon,
            TokenKind::Comma => SyntaxKind::Comma,
            TokenKind::Comment => SyntaxKind::Comment,
            TokenKind::Ident => SyntaxKind::Ident,
            TokenKind::Integer => SyntaxKind::Integer,
            TokenKind::Float => SyntaxKind::Float,
            TokenKind::String => SyntaxKind::String,
            TokenKind::True => SyntaxKind::True,
            TokenKind::False => SyntaxKind::False,
            TokenKind::LParen => SyntaxKind::LParen,
            TokenKind::RParen => SyntaxKind::RParen,
            TokenKind::LBrace => SyntaxKind::LBrace,
            TokenKind::RBrace => SyntaxKind::RBrace,
            TokenKind::LBracket => SyntaxKind::LBracket,
            TokenKind::RBracket => SyntaxKind::RBracket,
            TokenKind::Slash => SyntaxKind::Slash,
            TokenKind::Plus => SyntaxKind::Plus,
            TokenKind::Minus => SyntaxKind::Minus,
            TokenKind::Star => SyntaxKind::Star,
            TokenKind::Percent => SyntaxKind::Percent,
            TokenKind::Equals => SyntaxKind::Equals,
            TokenKind::EqualsEquals => SyntaxKind::EqualsEquals,
            TokenKind::BangEquals => SyntaxKind::BangEquals,
            TokenKind::Bang => SyntaxKind::Bang,
            TokenKind::GreaterThan => SyntaxKind::GreaterThan,
            TokenKind::GreaterThanEqual => SyntaxKind::GreaterThanEqual,
            TokenKind::LessThan => SyntaxKind::LessThan,
            TokenKind::LessThanEqual => SyntaxKind::LessThanEqual,
            TokenKind::AmpersandAmpersand => SyntaxKind::AmpersandAmpersand,
            TokenKind::BarBar => SyntaxKind::BarBar,
            TokenKind::FuncKeyword => SyntaxKind::FuncKeyword,
            TokenKind::CompKeyword => SyntaxKind::CompKeyword,
            TokenKind::LetKeyword => SyntaxKind::LetKeyword,
            TokenKind::StateKeyword => SyntaxKind::StateKeyword,
            TokenKind::MutKeyword => SyntaxKind::MutKeyword,
            TokenKind::EffectKeyword => SyntaxKind::EffectKeyword,
            TokenKind::OnMountKeyword => SyntaxKind::OnMountKeyword,
            TokenKind::OnUpdateKeyword => SyntaxKind::OnUpdateKeyword,
            TokenKind::OnDestroyKeyword => SyntaxKind::OnDestroyKeyword,
            TokenKind::Error => SyntaxKind::Error,
        }
    }

    /// The name of this kind as printed in the debug dump of a tree.
    pub fn kind_name(self) -> (r: &'static str)
        ensures
            r@ == spec_kind_name(self),
    {
        match self {
            SyntaxKind::Root => "Root",
            SyntaxKind::Tombstone => "Tombstone",
            SyntaxKind::Error => "Error",
            SyntaxKind::Whitespace => "Whitespace",
            SyntaxKind::Comment => "Comment",
            SyntaxKind::Comma => "Comma",
            SyntaxKind::Colon => "Colon",
            SyntaxKind::Semicolon => "Semicolon",
            SyntaxKind::True => "True",
            SyntaxKind::False => "False",
            SyntaxKind::Ident => "Ident",
            SyntaxKind::Plus => "Plus",
            SyntaxKind::Minus => "Minus",
            SyntaxKind::Star => "Star",
            SyntaxKind::Slash => "Slash",
            SyntaxKind::Equals => "Equals",
            SyntaxKind::EqualsEquals => "EqualsEquals",
            SyntaxKind::BangEquals => "BangEquals",
            SyntaxKind::Percent => "Percent",
            SyntaxKind::LessThan => "LessThan",
            SyntaxKind::LessThanEqual => "LessThanEqual",
            SyntaxKind::GreaterThan => "GreaterThan",
            SyntaxKind::GreaterThanEqual => "GreaterThanEqual",
            SyntaxKind::AmpersandAmpersand => "AmpersandAmpersand",
            SyntaxKind::BarBar => "BarBar",
            SyntaxKind::Bang => "Bang",
            SyntaxKind::LParen => "LParen",
            SyntaxKind::RParen => "RParen",
            SyntaxKind::LBrace => "LBrace",
            SyntaxKind::RBrace => "RBrace",
            SyntaxKind::LBracket => "LBracket",
            SyntaxKind::RBracket => "RBracket",
            SyntaxKind::Literal => "Literal",
            SyntaxKind::Integer => "Integer",
            SyntaxKind::Float => "Float",
            SyntaxKind::String => "String",
            SyntaxKind::FuncKeyword => "FuncKeyword",
            SyntaxKind::CompKeyword => "CompKeyword",
            SyntaxKind::LetKeyword => "LetKeyword",
            SyntaxKind::StateKeyword => "StateKeyword",
            SyntaxKind::MutKeyword => "MutKeyword",
            SyntaxKind::EffectKeyword => "EffectKeyword",
            SyntaxKind::OnMountKeyword => "OnMountKeyword",
            SyntaxKind::OnUpdateKeyword => "OnUpdateKeyword",
            SyntaxKind::OnDestroyKeyword => "OnDestroyKeyword",
            SyntaxKind::BlockStmt => "BlockStmt",
            SyntaxKind::FunctionDecl => "FunctionDecl",
            SyntaxKind::InfixExpr => "InfixExpr",
            SyntaxKind::ParamList => "ParamList",
            SyntaxKind::ParenExpr => "ParenExpr",
            SyntaxKind::PrefixExpr => "PrefixExpr",
            SyntaxKind::VariableDef => "VariableDef",
            SyntaxKind::VariableRef => "VariableRef",
        }
    }
}

/// The name of each kind as printed in the debug dump of a tree.
pub open spec fn spec_kind_name(kind: SyntaxKind) -> Seq<char> {
    match kind {
        SyntaxKind::Root => "Root"@,
        SyntaxKind::Tombstone => "Tombstone"@,
        SyntaxKind::Error => "Error"@,
        SyntaxKind::Whitespace => "Whitespace"@,
        SyntaxKind::Comment => "Comment"@,
        SyntaxKind::Comma => "Comma"@,
        SyntaxKind::Colon => "Colon"@,
        SyntaxKind::Semicolon => "Semicolon"@,
        SyntaxKind::True => "True"@,
        SyntaxKind::False => "False"@,
        SyntaxKind::Ident => "Ident"@,
        SyntaxKind::Plus => "Plus"@,
        SyntaxKind::Minus => "Minus"@,
        SyntaxKind::Star => "Star"@,
        SyntaxKind::Slash => "Slash"@,
        SyntaxKind::Equals => "Equals"@,
        SyntaxKind::EqualsEquals => "EqualsEquals"@,
        SyntaxKind::BangEquals => "BangEquals"@,
        SyntaxKind::Percent => "Percent"@,
        SyntaxKind::LessThan => "LessThan"@,
        SyntaxKind::LessThanEqual => "LessThanEqual"@,
        SyntaxKind::GreaterThan => "GreaterThan"@,
        SyntaxKind::GreaterThanEqual => "GreaterThanEqual"@,
        SyntaxKind::AmpersandAmpersand => "AmpersandAmpersand"@,
        SyntaxKind::BarBar => "BarBar"@,
        SyntaxKind::Bang => "Bang"@,
        SyntaxKind::LParen => "LParen"@,
        SyntaxKind::RParen => "RParen"@,
        SyntaxKind::LBrace => "LBrace"@,
        SyntaxKind::RBrace => "RBrace"@,
        SyntaxKind::LBracket => "LBracket"@,
        SyntaxKind::RBracket => "RBracket"@,
        SyntaxKind::Literal => "Literal"@,
        SyntaxKind::Integer => "Integer"@,
        SyntaxKind::Float => "Float"@,
        SyntaxKind::String => "String"@,
        SyntaxKind::FuncKeyword => "FuncKeyword"@,
        SyntaxKind::CompKeyword => "CompKeyword"@,
        SyntaxKind::LetKeyword => "LetKeyword"@,
        SyntaxKind::StateKeyword => "StateKeyword"@,
        SyntaxKind::MutKeyword => "MutKeyword"@,
        SyntaxKind::EffectKeyword => "EffectKeyword"@,
        SyntaxKind::OnMountKeyword => "OnMountKeyword"@,
        SyntaxKind::OnUpdateKeyword => "OnUpdateKeyword"@,
        SyntaxKind::OnDestroyKeyword => "OnDestroyKeyword"@,
        SyntaxKind::BlockStmt => "BlockStmt"@,
        SyntaxKind::FunctionDecl => "FunctionDecl"@,
        SyntaxKind::InfixExpr => "InfixExpr"@,
        SyntaxKind::ParamList => "ParamList"@,
        SyntaxKind::ParenExpr => "ParenExpr"@,
        SyntaxKind::PrefixExpr => "PrefixExpr"@,
        SyntaxKind::VariableDef => "VariableDef"@,
        SyntaxKind::VariableRef => "VariableRef"@,
    }
}

} // verus!
