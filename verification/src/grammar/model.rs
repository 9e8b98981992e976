//! The mathematical model of parsing: a state machine over the token
//! stream whose transitions mirror the parser primitives exactly, and
//! recursive functions over it that define what event log the grammar
//! produces for any input. The executable grammar ensures it computes
//! exactly these functions.
use vstd::prelude::*;
use crate::event::{GEvent, evs_view};
use crate::grammar::expr::{spec_binding_power, spec_unary_binding_power, BinaryOp, UnaryOp};
use crate::lexer::Token;
use crate::parser::Parser;
use crate::source::{spec_next_nt, spec_peek, nt_count};
use crate::syntax_kind::SyntaxKind;
use crate::token_kind::TokenKind;

verus! {

/// The parser state the grammar acts on: the viewed event log, the token
/// cursor, and the recorded expected kinds.
#[verifier::ext_equal]
pub struct PState {
    pub evs: Seq<GEvent>,
    pub cur: int,
    pub expected: Seq<TokenKind>,
}

/// The model state of a parser.
pub open spec fn pstate(p: Parser<'_, '_>) -> PState {
    PState { evs: evs_view(p.evs()), cur: p.cur(), expected: p.expected() }
}

/// Kind of a `Start` entry of the viewed log.
pub open spec fn gstart_kind(e: GEvent) -> SyntaxKind {
    e->Start_kind
}

/// Forward parent of a `Start` entry of the viewed log.
pub open spec fn gstart_fp(e: GEvent) -> Option<usize> {
    e->Start_forward_parent
}

/// How many significant tokens remain at the model state's cursor.
pub open spec fn sp_remaining(toks: Seq<Token<'_>>, s: PState) -> int {
    nt_count(toks, toks.len() as int) - nt_count(toks, s.cur)
}

// ---------------------------------------------------------------------------
// The primitive transitions.
// ---------------------------------------------------------------------------
/// `start`: a tombstone start entry is appended; its position is the old
/// log length.
pub open spec fn sp_start(s: PState) -> PState {
    PState {
        evs: s.evs.push(GEvent::Start { kind: SyntaxKind::Tombstone, forward_parent: None }),
        cur: s.cur,
        expected: s.expected,
    }
}

/// `bump`: the next significant token is consumed into an `AddToken`
/// entry and the expected set is cleared.
pub open spec fn sp_bump(toks: Seq<Token<'_>>, s: PState) -> PState {
    PState {
        evs: s.evs.push(GEvent::AddToken),
        cur: spec_next_nt(toks, s.cur) + 1,
        expected: Seq::empty(),
    }
}

/// `at`: the tried kind is recorded as expected; nothing else changes.
pub open spec fn sp_at(s: PState, kind: TokenKind) -> PState {
    PState { evs: s.evs, cur: s.cur, expected: s.expected.push(kind) }
}

/// `eat`: a conditional bump.
pub open spec fn sp_eat(toks: Seq<Token<'_>>, s: PState, kind: TokenKind) -> PState {
    if spec_peek(toks, s.cur) == Some(kind) {
        sp_bump(toks, s)
    } else {
        s
    }
}

/// `error`: an `Error` entry carrying the expected set and the offending
/// token's kind and span (or the last token's span at end of input); then,
/// unless the offending token is the recovery keyword `let` or the input
/// is exhausted, that one token is consumed inside a completed
/// `Error`-kind node.
pub open spec fn sp_error(toks: Seq<Token<'_>>, s: PState) -> PState {
    let nnt = spec_next_nt(toks, s.cur);
    let diagnosed = PState {
        evs: s.evs.push(
            if nnt < toks.len() {
                GEvent::Error {
                    expected: s.expected,
                    found: Some(toks[nnt].kind),
                    start: toks[nnt].start as int,
                    end: toks[nnt].end as int,
                }
            } else {
                GEvent::Error {
                    expected: s.expected,
                    found: None,
                    start: toks.last().start as int,
                    end: toks.last().end as int,
                }
            },
        ),
        cur: s.cur,
        expected: Seq::empty(),
    };
    if nnt < toks.len() && toks[nnt].kind != TokenKind::LetKeyword {
        PState {
            evs: diagnosed.evs + seq![
                GEvent::Start { kind: SyntaxKind::Error, forward_parent: None },
                GEvent::AddToken,
                GEvent::Finish,
            ],
            cur: nnt + 1,
            expected: Seq::empty(),
        }
    } else {
        diagnosed
    }
}

/// `expect`: record the kind, then bump on a match and report an error
/// otherwise.
pub open spec fn sp_expect(toks: Seq<Token<'_>>, s: PState, kind: TokenKind) -> PState {
    let tried = sp_at(s, kind);
    if spec_peek(toks, s.cur) == Some(kind) {
        sp_bump(toks, tried)
    } else {
        sp_error(toks, tried)
    }
}

/// `complete`: the start entry at `pos` receives its kind and a `Finish`
/// entry closes the node.
pub open spec fn sp_complete(s: PState, pos: int, kind: SyntaxKind) -> PState {
    PState {
        evs: s.evs.update(
            pos,
            GEvent::Start { kind, forward_parent: gstart_fp(s.evs[pos]) },
        ).push(GEvent::Finish),
        cur: s.cur,
        expected: s.expected,
    }
}

/// `precede`: a fresh tombstone start entry is appended and the completed
/// node at `pos` records the forward offset to it.
pub open spec fn sp_precede(s: PState, pos: int) -> PState {
    let newpos = s.evs.len() as int;
    PState {
        evs: s.evs.push(GEvent::Start { kind: SyntaxKind::Tombstone, forward_parent: None }).update(
            pos,
            GEvent::Start {
                kind: gstart_kind(s.evs[pos]),
                forward_parent: Some((newpos - pos) as usize),
            },
        ),
        cur: s.cur,
        expected: s.expected,
    }
}

// ---------------------------------------------------------------------------
// Well-foundedness scaffolding.
// ---------------------------------------------------------------------------
/// The parser only ever moves forward; this bound states that fact in the
/// definition itself so the recursion is visibly well founded. For the
/// states the grammar actually produces the bound never changes anything.
pub open spec fn advanced(base: PState, s: PState) -> PState {
    if s.cur >= base.cur {
        s
    } else {
        PState { evs: s.evs, cur: base.cur, expected: s.expected }
    }
}

/// Like `advanced`, but past the first significant token of `base`: one
/// statement always consumes at least that token.
pub open spec fn advanced_past(toks: Seq<Token<'_>>, base: PState, s: PState) -> PState {
    if s.cur >= spec_next_nt(toks, base.cur) + 1 {
        s
    } else {
        PState { evs: s.evs, cur: spec_next_nt(toks, base.cur) + 1, expected: s.expected }
    }
}

/// The count never falls as the cursor moves forward.
pub proof fn lemma_sp_remaining(toks: Seq<Token<'_>>, a: int, b: int)
    requires
        a <= b,
    ensures
        nt_count(toks, a) <= nt_count(toks, b),
    decreases b - a,
{
    if a < b {
        lemma_sp_remaining(toks, a, b - 1);
    }
}

/// Beyond the end of the stream the count no longer changes.
proof fn lemma_nt_count_above(toks: Seq<Token<'_>>, b: int)
    requires
        b >= toks.len(),
    ensures
        nt_count(toks, b) == nt_count(toks, toks.len() as int),
    decreases b - toks.len(),
{
    if b > toks.len() {
        lemma_nt_count_above(toks, b - 1);
    }
}

/// The count up to any position never exceeds the whole count.
pub proof fn lemma_nt_count_cap(toks: Seq<Token<'_>>, b: int)
    ensures
        nt_count(toks, b) <= nt_count(toks, toks.len() as int),
{
    if b >= toks.len() {
        lemma_nt_count_above(toks, b);
    } else if b >= 0 {
        lemma_sp_remaining(toks, b, toks.len() as int);
    } else {
        lemma_sp_remaining(toks, 0, toks.len() as int);
    }
}

// ---------------------------------------------------------------------------
// The expression grammar.
// ---------------------------------------------------------------------------
/// The operator scan at the head of the infix loop: each kind is tried in
/// order until one matches, every tried kind being recorded as expected.
pub open spec fn sp_op_scan(toks: Seq<Token<'_>>, s: PState) -> (PState, Option<BinaryOp>) {
    let pk = spec_peek(toks, s.cur);
    if pk == Some(TokenKind::Plus) {
        (sp_at(s, TokenKind::Plus), Some(BinaryOp::Add))
    } else {
        let s1 = sp_at(s, TokenKind::Plus);
        if pk == Some(TokenKind::Minus) {
            (sp_at(s1, TokenKind::Minus), Some(BinaryOp::Sub))
        } else {
            let s2 = sp_at(s1, TokenKind::Minus);
            if pk == Some(TokenKind::Star) {
                (sp_at(s2, TokenKind::Star), Some(BinaryOp::Mul))
            } else {
                let s3 = sp_at(s2, TokenKind::Star);
                if pk == Some(TokenKind::Slash) {
                    (sp_at(s3, TokenKind::Slash), Some(BinaryOp::Div))
                } else {
                    let s4 = sp_at(s3, TokenKind::Slash);
                    if pk == Some(TokenKind::Percent) {
                        (sp_at(s4, TokenKind::Percent), Some(BinaryOp::Rem))
                    } else {
                        let s5 = sp_at(s4, TokenKind::Percent);
                        if pk == Some(TokenKind::AmpersandAmpersand) {
                            (sp_at(s5, TokenKind::AmpersandAmpersand), Some(BinaryOp::And))
                        } else {
                            let s6 = sp_at(s5, TokenKind::AmpersandAmpersand);
                            if pk == Some(TokenKind::BarBar) {
                                (sp_at(s6, TokenKind::BarBar), Some(BinaryOp::Or))
                            } else {
                                let s7 = sp_at(s6, TokenKind::BarBar);
                                if pk == Some(TokenKind::EqualsEquals) {
                                    (sp_at(s7, TokenKind::EqualsEquals), Some(BinaryOp::Eq))
                                } else {
                                    let s8 = sp_at(s7, TokenKind::EqualsEquals);
                                    if pk == Some(TokenKind::BangEquals) {
                                        (sp_at(s8, TokenKind::BangEquals), Some(BinaryOp::Ne))
                                    } else {
                                        let s9 = sp_at(s8, TokenKind::BangEquals);
                                        if pk == Some(TokenKind::LessThan) {
                                            (sp_at(s9, TokenKind::LessThan), Some(BinaryOp::Lt))
                                        } else {
                                            let s10 = sp_at(s9, TokenKind::LessThan);
                                            if pk == Some(TokenKind::LessThanEqual) {
                                                (
                                                    sp_at(s10, TokenKind::LessThanEqual),
                                                    Some(BinaryOp::Le),
                                                )
                                            } else {
                                                let s11 = sp_at(s10, TokenKind::LessThanEqual);
                                                if pk == Some(TokenKind::GreaterThan) {
                                                    (
                                                        sp_at(s11, TokenKind::GreaterThan),
                                                        Some(BinaryOp::Gt),
                                                    )
                                                } else {
                                                    let s12 = sp_at(s11, TokenKind::GreaterThan);
                                                    if pk == Some(TokenKind::GreaterThanEqual) {
                                                        (
                                                            sp_at(
                                                                s12,
                                                                TokenKind::GreaterThanEqual,
                                                            ),
                                                            Some(BinaryOp::Ge),
                                                        )
                                                    } else {
                                                        (
                                                            sp_at(
                                                                s12,
                                                                TokenKind::GreaterThanEqual,
                                                            ),
                                                            None,
                                                        )
                                                    }
                                                }
                                            }
                                        }
                                    }
                                }
                            }
                        }
                    }
                }
            }
        }
    }
}

/// A literal: one start, the literal token, one finish.
pub open spec fn sp_parse_literal(toks: Seq<Token<'_>>, s: PState) -> (PState, int) {
    let pos = s.evs.len() as int;
    (sp_complete(sp_bump(toks, sp_start(s)), pos, SyntaxKind::Literal), pos)
}

/// A variable reference: one start, the identifier token, one finish.
pub open spec fn sp_parse_variable_ref(toks: Seq<Token<'_>>, s: PState) -> (PState, int) {
    let pos = s.evs.len() as int;
    (sp_complete(sp_bump(toks, sp_start(s)), pos, SyntaxKind::VariableRef), pos)
}

/// A prefix expression: the minus token, then the operand at the unary
/// binding power, wrapped in a `PrefixExpr` node.
pub open spec fn sp_parse_prefix_expression(toks: Seq<Token<'_>>, s: PState) -> (PState, int)
    decreases sp_remaining(toks, s), 1int,
    via sp_parse_prefix_expression_decreases
{
    let pos = s.evs.len() as int;
    if spec_peek(toks, s.cur) == Some(TokenKind::Minus) {
        let opened = sp_bump(toks, sp_start(s));
        let operand = sp_parse_expression_bp(
            toks,
            opened,
            spec_unary_binding_power(UnaryOp::Negate),
        );
        (sp_complete(advanced(opened, operand.0), pos, SyntaxKind::PrefixExpr), pos)
    } else {
        (s, pos)
    }
}

#[via_fn]
proof fn sp_parse_prefix_expression_decreases(toks: Seq<Token<'_>>, s: PState) {
    sp_grammar_decreases(toks, s);
}

/// A parenthesized expression: the opening token, the inner expression at
/// the lowest binding power, the expected closing token, wrapped in a
/// `ParenExpr` node.
pub open spec fn sp_parse_paren_expression(toks: Seq<Token<'_>>, s: PState) -> (PState, int)
    decreases sp_remaining(toks, s), 1int,
    via sp_parse_paren_expression_decreases
{
    let pos = s.evs.len() as int;
    if spec_peek(toks, s.cur) == Some(TokenKind::LParen) {
        let opened = sp_bump(toks, sp_start(s));
        let inner = sp_parse_expression_bp(toks, opened, 0);
        let closed = sp_expect(toks, advanced(opened, inner.0), TokenKind::RParen);
        (sp_complete(closed, pos, SyntaxKind::ParenExpr), pos)
    } else {
        (s, pos)
    }
}

#[via_fn]
proof fn sp_parse_paren_expression_decreases(toks: Seq<Token<'_>>, s: PState) {
    sp_grammar_decreases(toks, s);
}

/// The left hand side of an expression: each starter kind is tried in
/// order (recording it as expected); failing them all raises an error and
/// produces nothing.
pub open spec fn sp_parse_left_hand_side(toks: Seq<Token<'_>>, s: PState) -> (PState, Option<int>)
    decreases sp_remaining(toks, s), 2int,
    via sp_parse_left_hand_side_decreases
{
    let pk = spec_peek(toks, s.cur);
    let s1 = sp_at(s, TokenKind::Integer);
    if pk == Some(TokenKind::Integer) {
        let done = sp_parse_literal(toks, s1);
        (done.0, Some(done.1))
    } else {
        let s2 = sp_at(s1, TokenKind::String);
        if pk == Some(TokenKind::String) {
            let done = sp_parse_literal(toks, s2);
            (done.0, Some(done.1))
        } else {
            let s3 = sp_at(s2, TokenKind::True);
            if pk == Some(TokenKind::True) {
                let done = sp_parse_literal(toks, s3);
                (done.0, Some(done.1))
            } else {
                let s4 = sp_at(s3, TokenKind::False);
                if pk == Some(TokenKind::False) {
                    let done = sp_parse_literal(toks, s4);
                    (done.0, Some(done.1))
                } else {
                    let s5 = sp_at(s4, TokenKind::Ident);
                    if pk == Some(TokenKind::Ident) {
                        let done = sp_parse_variable_ref(toks, s5);
                        (done.0, Some(done.1))
                    } else {
                        let s6 = sp_at(s5, TokenKind::Minus);
                        if pk == Some(TokenKind::Minus) {
                            let done = sp_parse_prefix_expression(toks, s6);
                            (done.0, Some(done.1))
                        } else {
                            let s7 = sp_at(s6, TokenKind::LParen);
                            if pk == Some(TokenKind::LParen) {
                                let done = sp_parse_paren_expression(toks, s7);
                                (done.0, Some(done.1))
                            } else {
                                (sp_error(toks, s7), None)
                            }
                        }
                    }
                }
            }
        }
    }
}

#[via_fn]
proof fn sp_parse_left_hand_side_decreases(toks: Seq<Token<'_>>, s: PState) {
    sp_grammar_decreases(toks, s);
}

/// The infix loop: while the next token is an operator whose left power
/// reaches the threshold, consume it, open an `InfixExpr` node preceding
/// the finished left operand, parse the right operand at the operator's
/// right power, and carry on with the completed node as the new left
/// operand; a failed right operand still completes the node and stops.
pub open spec fn sp_infix_loop(toks: Seq<Token<'_>>, s: PState, min_bp: u8, lhs_pos: int) -> (
    PState,
    Option<int>,
)
    decreases sp_remaining(toks, s), 0int,
    via sp_infix_loop_decreases
{
    let scanned = sp_op_scan(toks, s);
    match scanned.1 {
        None => (scanned.0, Some(lhs_pos)),
        Some(op) => {
            if spec_binding_power(op).0 < min_bp {
                (scanned.0, Some(lhs_pos))
            } else {
                let bumped = sp_bump(toks, scanned.0);
                let marker_pos = bumped.evs.len() as int;
                let preceded = sp_precede(bumped, lhs_pos);
                let rhs = sp_parse_expression_bp(toks, preceded, spec_binding_power(op).1);
                let closed = sp_complete(
                    advanced(preceded, rhs.0),
                    marker_pos,
                    SyntaxKind::InfixExpr,
                );
                if rhs.1 is None {
                    (closed, Some(marker_pos))
                } else {
                    sp_infix_loop(toks, closed, min_bp, marker_pos)
                }
            }
        },
    }
}

#[via_fn]
proof fn sp_infix_loop_decreases(toks: Seq<Token<'_>>, s: PState, min_bp: u8, lhs_pos: int) {
    sp_grammar_decreases(toks, s);
}

/// An expression at a binding-power threshold: a left hand side, then the
/// infix loop.
pub open spec fn sp_parse_expression_bp(toks: Seq<Token<'_>>, s: PState, min_bp: u8) -> (
    PState,
    Option<int>,
)
    decreases sp_remaining(toks, s), 3int,
    via sp_parse_expression_bp_decreases
{
    let lhs = sp_parse_left_hand_side(toks, s);
    match lhs.1 {
        None => lhs,
        Some(pos) => sp_infix_loop(toks, advanced(s, lhs.0), min_bp, pos),
    }
}

#[via_fn]
proof fn sp_parse_expression_bp_decreases(toks: Seq<Token<'_>>, s: PState, min_bp: u8) {
    sp_grammar_decreases(toks, s);
}

/// The common well-foundedness argument: the remaining count is bounded
/// below by zero, never rises as the cursor moves forward, and drops by
/// one whenever the token at the cursor is consumed.
proof fn sp_grammar_decreases(toks: Seq<Token<'_>>, s: PState)
    ensures
        forall|c: int| #[trigger] nt_count(toks, c) <= nt_count(toks, toks.len() as int),
        forall|a: int, b: int|
            a <= b ==> #[trigger] nt_count(toks, a) <= #[trigger] nt_count(toks, b),
        spec_next_nt(toks, s.cur) < toks.len() ==> nt_count(
            toks,
            spec_next_nt(toks, s.cur) + 1,
        ) == nt_count(toks, s.cur) + 1,
        spec_next_nt(toks, s.cur) <= toks.len(),
{
    if 0 <= s.cur && s.cur <= toks.len() {
        crate::source::lemma_next_nt(toks, s.cur);
    }
    assert forall|c: int| #[trigger] nt_count(toks, c) <= nt_count(toks, toks.len() as int) by {
        lemma_nt_count_cap(toks, c);
    }
    assert forall|a: int, b: int| a <= b implies #[trigger] nt_count(toks, a)
        <= #[trigger] nt_count(toks, b) by {
        lemma_sp_remaining(toks, a, b);
    }
    let nnt = spec_next_nt(toks, s.cur);
    if nnt < toks.len() {
        assert(0 <= s.cur);
        crate::source::lemma_nt_count_step(toks, s.cur);
    }
}

// ---------------------------------------------------------------------------
// The statement grammar.
// ---------------------------------------------------------------------------
/// A variable definition: the `let` keyword, an optional `mut`, the
/// expected name and equals sign, then the value expression, wrapped in a
/// `VariableDef` node.
pub open spec fn sp_parse_variable_def(toks: Seq<Token<'_>>, s: PState) -> (PState, int) {
    let pos = s.evs.len() as int;
    let after_let = sp_bump(toks, sp_start(s));
    let after_mut = sp_eat(toks, after_let, TokenKind::MutKeyword);
    let after_name = sp_expect(toks, after_mut, TokenKind::Ident);
    let after_eq = sp_expect(toks, after_name, TokenKind::Equals);
    let value = sp_parse_expression_bp(toks, after_eq, 0);
    (sp_complete(value.0, pos, SyntaxKind::VariableDef), pos)
}

/// A parameter list: `(` then the expected `)`, wrapped in a `ParamList`
/// node.
pub open spec fn sp_parse_param_list(toks: Seq<Token<'_>>, s: PState) -> (PState, int) {
    let pos = s.evs.len() as int;
    let opened = sp_bump(toks, sp_start(s));
    (sp_complete(sp_expect(toks, opened, TokenKind::RParen), pos, SyntaxKind::ParamList), pos)
}

/// A block statement: `{` then the expected `}`, wrapped in a `BlockStmt`
/// node.
pub open spec fn sp_parse_block_stmt(toks: Seq<Token<'_>>, s: PState) -> (PState, int) {
    let pos = s.evs.len() as int;
    let opened = sp_bump(toks, sp_start(s));
    (sp_complete(sp_expect(toks, opened, TokenKind::RBrace), pos, SyntaxKind::BlockStmt), pos)
}

/// A function declaration: the `func` keyword, then the name, the
/// parameter list and the block, each tried and reported as an error when
/// absent, wrapped in a `FunctionDecl` node.
pub open spec fn sp_parse_func(toks: Seq<Token<'_>>, s: PState) -> (PState, int) {
    let pos = s.evs.len() as int;
    let after_func = sp_bump(toks, sp_start(s));
    let tried_name = sp_at(after_func, TokenKind::Ident);
    let after_name = if spec_peek(toks, after_func.cur) == Some(TokenKind::Ident) {
        sp_parse_variable_ref(toks, tried_name).0
    } else {
        sp_error(toks, tried_name)
    };
    let tried_params = sp_at(after_name, TokenKind::LParen);
    let after_params = if spec_peek(toks, after_name.cur) == Some(TokenKind::LParen) {
        sp_parse_param_list(toks, tried_params).0
    } else {
        sp_error(toks, tried_params)
    };
    let tried_block = sp_at(after_params, TokenKind::LBrace);
    let after_block = if spec_peek(toks, after_params.cur) == Some(TokenKind::LBrace) {
        sp_parse_block_stmt(toks, tried_block).0
    } else {
        sp_error(toks, tried_block)
    };
    (sp_complete(after_block, pos, SyntaxKind::FunctionDecl), pos)
}

/// One statement: a `let` definition, a `func` declaration, or an
/// expression statement, each keyword tried in order.
pub open spec fn sp_parse_statement(toks: Seq<Token<'_>>, s: PState) -> (PState, Option<int>) {
    let tried_let = sp_at(s, TokenKind::LetKeyword);
    if spec_peek(toks, s.cur) == Some(TokenKind::LetKeyword) {
        let done = sp_parse_variable_def(toks, tried_let);
        (done.0, Some(done.1))
    } else {
        let tried_func = sp_at(tried_let, TokenKind::FuncKeyword);
        if spec_peek(toks, s.cur) == Some(TokenKind::FuncKeyword) {
            let done = sp_parse_func(toks, tried_func);
            (done.0, Some(done.1))
        } else {
            sp_parse_expression_bp(toks, tried_func, 0)
        }
    }
}

/// Statements are parsed until the significant tokens are exhausted.
pub open spec fn sp_stmt_loop(toks: Seq<Token<'_>>, s: PState) -> PState
    decreases sp_remaining(toks, s),
    via sp_stmt_loop_decreases
{
    if spec_next_nt(toks, s.cur) == toks.len() {
        s
    } else {
        sp_stmt_loop(toks, advanced_past(toks, s, sp_parse_statement(toks, s).0))
    }
}

#[via_fn]
proof fn sp_stmt_loop_decreases(toks: Seq<Token<'_>>, s: PState) {
    sp_grammar_decreases(toks, s);
}

/// The whole input: every statement, wrapped in one `Root` node.
#[verifier::opaque]
pub open spec fn sp_root(toks: Seq<Token<'_>>, s: PState) -> (PState, int) {
    let pos = s.evs.len() as int;
    (sp_complete(sp_stmt_loop(toks, sp_start(s)), pos, SyntaxKind::Root), pos)
}

/// Once the count has grown, the cursor has passed the first significant
/// token.
pub proof fn lemma_progress_floor(toks: Seq<Token<'_>>, c1: int, c2: int)
    requires
        0 <= c1 <= toks.len(),
        nt_count(toks, c2) > nt_count(toks, c1),
    ensures
        c2 >= spec_next_nt(toks, c1) + 1,
{
    let nnt = spec_next_nt(toks, c1);
    if c2 < nnt + 1 {
        if c2 <= c1 {
            lemma_sp_remaining(toks, c2, c1);
        } else {
            crate::source::lemma_next_nt(toks, c1);
            crate::source::lemma_nt_count_trivia_range(toks, c1, c2);
        }
        assert(false);
    }
}

} // verus!
