//! Expression grammar: Pratt parsing with binding powers, producing
//! left-nested infix trees through the precede mechanism.
use vstd::prelude::*;
use crate::event::is_start;
use crate::grammar::model::{
    pstate,
    advanced,
    sp_parse_literal,
    sp_parse_variable_ref,
    sp_parse_prefix_expression,
    sp_parse_paren_expression,
    sp_parse_left_hand_side,
    sp_parse_expression_bp,
    sp_infix_loop,
    sp_op_scan,
    sp_bump,
    sp_precede,
    sp_complete,
    sp_error,
    sp_at,
};
use crate::parser::{Parser, evolves, lemma_evolves_trans, lemma_remaining_nonneg};
use crate::parser::marker::CompletedMarker;
use crate::syntax_kind::SyntaxKind;
use crate::token_kind::TokenKind;

verus! {

/// A prefix operator.
pub enum UnaryOp {
    Negate,
}

/// Binding power of each prefix operator: no left operand, and a right
/// power that binds tighter than every infix operator.
pub open spec fn spec_unary_binding_power(op: UnaryOp) -> u8 {
    13
}

impl UnaryOp {
    /// The binding power of this prefix operator.
    pub fn binding_power(&self) -> (r: ((), u8))
        ensures
            r.1 == spec_unary_binding_power(*self),
    {
        match self {
            UnaryOp::Negate => ((), 13),
        }
    }
}

/// An infix operator.
pub enum BinaryOp {
    Add,
    Sub,
    Mul,
    Div,
    Rem,
    And,
    Or,
    Eq,
    Ne,
    Lt,
    Le,
    Gt,
    Ge,
}

/// The precedence table, as left and right binding powers per tier:
/// multiplicative over additive over relational over equality over
/// logical-and over logical-or; left associativity comes from the right
/// power exceeding the left.
pub open spec fn spec_binding_power(op: BinaryOp) -> (u8, u8) {
    match op {
        BinaryOp::Or => (1, 2),
        BinaryOp::And => (3, 4),
        BinaryOp::Eq => (5, 6),
        BinaryOp::Ne => (5, 6),
        BinaryOp::Lt => (7, 8),
        BinaryOp::Le => (7, 8),
        BinaryOp::Gt => (7, 8),
        BinaryOp::Ge => (7, 8),
        BinaryOp::Add => (9, 10),
        BinaryOp::Sub => (9, 10),
        BinaryOp::Mul => (11, 12),
        BinaryOp::Div => (11, 12),
        BinaryOp::Rem => (11, 12),
    }
}

impl BinaryOp {
    /// The left and right binding powers of this infix operator.
    pub fn binding_power(&self) -> (r: (u8, u8))
        ensures
            r == spec_binding_power(*self),
    {
        match self {
            BinaryOp::Or => (1, 2),
            BinaryOp::And => (3, 4),
            BinaryOp::Eq | BinaryOp::Ne => (5, 6),
            BinaryOp::Lt | BinaryOp::Le | BinaryOp::Gt | BinaryOp::Ge => (7, 8),
            BinaryOp::Add | BinaryOp::Sub => (9, 10),
            BinaryOp::Mul | BinaryOp::Div | BinaryOp::Rem => (11, 12),
        }
    }
}

/// Parses an expression.
pub fn parse_expression(parser: &mut Parser<'_, '_>) -> (r: Option<CompletedMarker>)
    requires
        old(parser).wf(),
        old(parser).toks().len() > 0,
    ensures
        final(parser).wf(),
        evolves(*old(parser), *final(parser)),
        final(parser).remaining_nt() <= old(parser).remaining_nt(),
        r is Some ==> final(parser).remaining_nt() < old(parser).remaining_nt(),
        r is None ==> final(parser).remaining_nt() < old(parser).remaining_nt() || old(parser).peek_spec() is None || old(parser).peek_spec() == Some(TokenKind::LetKeyword),
        ({
            let lowered = sp_parse_expression_bp(old(parser).toks(), pstate(*old(parser)), 0);
            pstate(*final(parser)) == lowered.0 && match r {
                Some(cm) => lowered.1 == Some(cm.pos as int),
                None => lowered.1 is None,
            }
        }),
{
    parse_expression_bp(parser, 0)
}

/// Parses an expression whose operators all bind at least as tightly as
/// `minimum_binding_power`.
pub fn parse_expression_bp(parser: &mut Parser<'_, '_>, minimum_binding_power: u8) -> (r: Option<
    CompletedMarker,
>)
    requires
        old(parser).wf(),
        old(parser).toks().len() > 0,
    ensures
        final(parser).wf(),
        evolves(*old(parser), *final(parser)),
        final(parser).remaining_nt() <= old(parser).remaining_nt(),
        r is Some ==> final(parser).remaining_nt() < old(parser).remaining_nt(),
        r is None ==> final(parser).remaining_nt() < old(parser).remaining_nt() || old(parser).peek_spec() is None || old(parser).peek_spec() == Some(TokenKind::LetKeyword),
        ({
            let lowered = sp_parse_expression_bp(
                old(parser).toks(),
                pstate(*old(parser)),
                minimum_binding_power,
            );
            pstate(*final(parser)) == lowered.0 && match r {
                Some(cm) => lowered.1 == Some(cm.pos as int),
                None => lowered.1 is None,
            }
        }),
    decreases old(parser).remaining_nt(), 3int,
{
    let ghost orig = *parser;
    let ghost toks0 = old(parser).toks();
    let mut lhs: CompletedMarker = match parse_left_hand_side(parser) {
        Some(l) => l,
        None => {
            return None;
        },
    };
    proof {
        lemma_remaining_nonneg(*parser);
        assert(advanced(pstate(orig), pstate(*parser)) == pstate(*parser));
    }
    let ghost target = sp_parse_expression_bp(toks0, pstate(orig), minimum_binding_power);
    loop
        invariant_except_break
            target == sp_infix_loop(toks0, pstate(*parser), minimum_binding_power, lhs.pos as int),
        invariant
            orig == *old(parser),
            toks0 == orig.toks(),
            target == sp_parse_expression_bp(toks0, pstate(orig), minimum_binding_power),
            parser.wf(),
            evolves(orig, *parser),
            parser.toks() == toks0,
            parser.toks().len() > 0,
            parser.remaining_nt() < orig.remaining_nt(),
            parser.remaining_nt() >= 0,
            lhs.pos < parser.evs().len(),
            is_start(parser.evs()[lhs.pos as int]),
        ensures
            parser.wf(),
            evolves(orig, *parser),
            parser.toks() == toks0,
            parser.remaining_nt() < orig.remaining_nt(),
            lhs.pos < parser.evs().len(),
            is_start(parser.evs()[lhs.pos as int]),
            target == (pstate(*parser), Some(lhs.pos as int)),
        decreases parser.remaining_nt(),
    {
        let ghost turn = *parser;
        let ghost prev_pos = lhs.pos as int;
        let op = if parser.at(TokenKind::Plus) {
            BinaryOp::Add
        } else if parser.at(TokenKind::Minus) {
            BinaryOp::Sub
        } else if parser.at(TokenKind::Star) {
            BinaryOp::Mul
        } else if parser.at(TokenKind::Slash) {
            BinaryOp::Div
        } else if parser.at(TokenKind::Percent) {
            BinaryOp::Rem
        } else if parser.at(TokenKind::AmpersandAmpersand) {
            BinaryOp::And
        } else if parser.at(TokenKind::BarBar) {
            BinaryOp::Or
        } else if parser.at(TokenKind::EqualsEquals) {
            BinaryOp::Eq
        } else if parser.at(TokenKind::BangEquals) {
            BinaryOp::Ne
        } else if parser.at(TokenKind::LessThan) {
            BinaryOp::Lt
        } else if parser.at(TokenKind::LessThanEqual) {
            BinaryOp::Le
        } else if parser.at(TokenKind::GreaterThan) {
            BinaryOp::Gt
        } else if parser.at(TokenKind::GreaterThanEqual) {
            BinaryOp::Ge
        } else {
            proof {
                assert(pstate(*parser) == sp_op_scan(toks0, pstate(turn)).0);
                assert(sp_op_scan(toks0, pstate(turn)).1 is None);
                assert(target == (pstate(*parser), Some(lhs.pos as int)));
            }
            break ;
        };
        proof {
            assert(pstate(*parser) == sp_op_scan(toks0, pstate(turn)).0);
            assert(sp_op_scan(toks0, pstate(turn)).1 == Some(op));
        }
        let (left_binding_power, right_binding_power) = op.binding_power();
        if left_binding_power < minimum_binding_power {
            proof {
                assert(target == (pstate(*parser), Some(lhs.pos as int)));
            }
            break ;
        }
        let ghost t1 = *parser;
        proof {
            assert(evolves(turn, t1));
            lemma_evolves_trans(orig, turn, t1);
        }
        // Eat the operator's token.
        parser.bump();
        let ghost t2 = *parser;
        proof {
            lemma_evolves_trans(orig, t1, t2);
            assert(is_start(t2.evs()[lhs.pos as int]));
            assert(pstate(t2) == sp_bump(toks0, sp_op_scan(toks0, pstate(turn)).0));
        }
        let marker = lhs.precede(parser);
        let ghost t3 = *parser;
        proof {
            lemma_evolves_trans(orig, t2, t3);
            lemma_remaining_nonneg(*parser);
            assert(marker.pos as int == pstate(t2).evs.len());
            assert(pstate(t3) == sp_precede(pstate(t2), prev_pos));
        }
        let parsed_rhs = parse_expression_bp(parser, right_binding_power).is_some();
        let ghost t4 = *parser;
        proof {
            lemma_evolves_trans(orig, t3, t4);
            assert(marker.pos < t4.evs().len());
            assert(is_start(t4.evs()[marker.pos as int]));
            assert(advanced(pstate(t3), pstate(t4)) == pstate(t4));
            assert(pstate(t4) == sp_parse_expression_bp(toks0, pstate(t3), right_binding_power).0);
            assert(parsed_rhs == (sp_parse_expression_bp(
                toks0,
                pstate(t3),
                right_binding_power,
            ).1 is Some));
        }
        lhs = marker.complete(parser, SyntaxKind::InfixExpr);
        proof {
            lemma_evolves_trans(orig, t4, *parser);
            lemma_remaining_nonneg(*parser);
            assert(pstate(*parser) == sp_complete(
                pstate(t4),
                marker.pos as int,
                SyntaxKind::InfixExpr,
            ));
            assert(target == sp_infix_loop(toks0, pstate(turn), minimum_binding_power, prev_pos));
            if !parsed_rhs {
                assert(target == (pstate(*parser), Some(lhs.pos as int)));
            } else {
                assert(target == sp_infix_loop(
                    toks0,
                    pstate(*parser),
                    minimum_binding_power,
                    lhs.pos as int,
                ));
            }
        }
        if !parsed_rhs {
            break ;
        }
    }
    Some(lhs)
}

/// Parses the left hand side of an expression: a literal, a variable
/// reference, a prefix negation, or a parenthesized expression; raises an
/// error when none of those can start here.
fn parse_left_hand_side(parser: &mut Parser<'_, '_>) -> (r: Option<CompletedMarker>)
    requires
        old(parser).wf(),
        old(parser).toks().len() > 0,
    ensures
        final(parser).wf(),
        evolves(*old(parser), *final(parser)),
        final(parser).remaining_nt() <= old(parser).remaining_nt(),
        r matches Some(cm) ==> final(parser).remaining_nt() < old(parser).remaining_nt() && cm.pos
            < final(parser).evs().len() && is_start(final(parser).evs()[cm.pos as int]),
        r is None ==> final(parser).remaining_nt() < old(parser).remaining_nt() || old(parser).peek_spec() is None || old(parser).peek_spec() == Some(TokenKind::LetKeyword),
        ({
            let lowered = sp_parse_left_hand_side(old(parser).toks(), pstate(*old(parser)));
            pstate(*final(parser)) == lowered.0 && match r {
                Some(cm) => lowered.1 == Some(cm.pos as int),
                None => lowered.1 is None,
            }
        }),
    decreases old(parser).remaining_nt(), 2int,
{
    let is_int = parser.at(TokenKind::Integer);
    let is_string = if is_int { false } else { parser.at(TokenKind::String) };
    let is_true = if is_int || is_string { false } else { parser.at(TokenKind::True) };
    let is_false = if is_int || is_string || is_true { false } else { parser.at(TokenKind::False) };
    let is_ident = if is_int || is_string || is_true || is_false {
        false
    } else {
        parser.at(TokenKind::Ident)
    };
    let is_minus = if is_int || is_string || is_true || is_false || is_ident {
        false
    } else {
        parser.at(TokenKind::Minus)
    };
    let is_lparen = if is_int || is_string || is_true || is_false || is_ident || is_minus {
        false
    } else {
        parser.at(TokenKind::LParen)
    };
    let ghost pre = *parser;
    proof {
        assert(evolves(*old(parser), pre));
    }
    let ghost p0 = pstate(*old(parser));
    let ghost toks0 = old(parser).toks();
    let cm = if is_int || is_string || is_true || is_false {
        parse_literal(parser)
    } else if is_ident {
        parse_variable_ref(parser)
    } else if is_minus {
        parse_prefix_expression(parser)
    } else if is_lparen {
        parse_paren_expression(parser)
    } else {
        parser.error();
        proof {
            lemma_evolves_trans(*old(parser), pre, *parser);
            assert(pstate(pre) == sp_at(
                sp_at(
                    sp_at(
                        sp_at(
                            sp_at(
                                sp_at(sp_at(p0, TokenKind::Integer), TokenKind::String),
                                TokenKind::True,
                            ),
                            TokenKind::False,
                        ),
                        TokenKind::Ident,
                    ),
                    TokenKind::Minus,
                ),
                TokenKind::LParen,
            ));
            assert(pstate(*parser) == sp_error(toks0, pstate(pre)));
            assert(pstate(*parser) == sp_parse_left_hand_side(toks0, p0).0);
        }
        return None;
    };
    proof {
        lemma_evolves_trans(*old(parser), pre, *parser);
        if is_int {
            assert(pstate(pre) == sp_at(p0, TokenKind::Integer));
            assert(pstate(*parser) == sp_parse_literal(toks0, pstate(pre)).0);
        } else if is_string {
            assert(pstate(pre) == sp_at(sp_at(p0, TokenKind::Integer), TokenKind::String));
            assert(pstate(*parser) == sp_parse_literal(toks0, pstate(pre)).0);
        } else if is_true {
            assert(pstate(*parser) == sp_parse_literal(toks0, pstate(pre)).0);
        } else if is_false {
            assert(pstate(*parser) == sp_parse_literal(toks0, pstate(pre)).0);
        } else if is_ident {
            assert(pstate(*parser) == sp_parse_variable_ref(toks0, pstate(pre)).0);
        } else if is_minus {
            assert(pstate(*parser) == sp_parse_prefix_expression(toks0, pstate(pre)).0);
        } else {
            assert(pstate(*parser) == sp_parse_paren_expression(toks0, pstate(pre)).0);
        }
        assert(pstate(*parser) == sp_parse_left_hand_side(toks0, p0).0);
        assert(sp_parse_left_hand_side(toks0, p0).1 == Some(cm.pos as int));
    }
    Some(cm)
}

/// Parses a literal expression: a number, a string, `true` or `false`.
fn parse_literal(parser: &mut Parser<'_, '_>) -> (r: CompletedMarker)
    requires
        old(parser).wf(),
        old(parser).peek_spec() matches Some(k) && (k == TokenKind::Integer || k
            == TokenKind::String || k == TokenKind::True || k == TokenKind::False),
    ensures
        final(parser).wf(),
        evolves(*old(parser), *final(parser)),
        final(parser).remaining_nt() < old(parser).remaining_nt(),
        r.pos < final(parser).evs().len(),
        is_start(final(parser).evs()[r.pos as int]),
        ({
            let lowered = sp_parse_literal(old(parser).toks(), pstate(*old(parser)));
            pstate(*final(parser)) == lowered.0 && r.pos as int == lowered.1
        }),
{
    let marker = parser.start();
    let ghost s1 = *parser;
    parser.bump();
    let ghost s2 = *parser;
    proof {
        lemma_evolves_trans(*old(parser), s1, s2);
        assert(is_start(s2.evs()[marker.pos as int]));
        assert(pstate(*old(parser)).evs.len() == old(parser).evs().len());
    }
    let cm = marker.complete(parser, SyntaxKind::Literal);
    proof {
        lemma_evolves_trans(*old(parser), s2, *parser);
    }
    cm
}

/// Parses a variable reference: a single identifier.
pub fn parse_variable_ref(parser: &mut Parser<'_, '_>) -> (r: CompletedMarker)
    requires
        old(parser).wf(),
        old(parser).peek_spec() == Some(TokenKind::Ident),
    ensures
        final(parser).wf(),
        evolves(*old(parser), *final(parser)),
        final(parser).remaining_nt() < old(parser).remaining_nt(),
        r.pos < final(parser).evs().len(),
        is_start(final(parser).evs()[r.pos as int]),
        ({
            let lowered = sp_parse_variable_ref(old(parser).toks(), pstate(*old(parser)));
            pstate(*final(parser)) == lowered.0 && r.pos as int == lowered.1
        }),
{
    let marker = parser.start();
    let ghost s1 = *parser;
    parser.bump();
    let ghost s2 = *parser;
    proof {
        lemma_evolves_trans(*old(parser), s1, s2);
        assert(is_start(s2.evs()[marker.pos as int]));
        assert(pstate(*old(parser)).evs.len() == old(parser).evs().len());
    }
    let cm = marker.complete(parser, SyntaxKind::VariableRef);
    proof {
        lemma_evolves_trans(*old(parser), s2, *parser);
    }
    cm
}

/// Parses a prefix negation expression.
fn parse_prefix_expression(parser: &mut Parser<'_, '_>) -> (r: CompletedMarker)
    requires
        old(parser).wf(),
        old(parser).peek_spec() == Some(TokenKind::Minus),
    ensures
        final(parser).wf(),
        evolves(*old(parser), *final(parser)),
        final(parser).remaining_nt() < old(parser).remaining_nt(),
        r.pos < final(parser).evs().len(),
        is_start(final(parser).evs()[r.pos as int]),
        ({
            let lowered = sp_parse_prefix_expression(old(parser).toks(), pstate(*old(parser)));
            pstate(*final(parser)) == lowered.0 && r.pos as int == lowered.1
        }),
    decreases old(parser).remaining_nt(), 1int,
{
    let marker = parser.start();
    let ghost s1 = *parser;
    let op = UnaryOp::Negate;
    let ((), right_binding_power) = op.binding_power();
    parser.bump();
    let ghost s2 = *parser;
    proof {
        lemma_evolves_trans(*old(parser), s1, s2);
    }
    proof {
        lemma_remaining_nonneg(*parser);
    }
    parse_expression_bp(parser, right_binding_power);
    let ghost s3 = *parser;
    proof {
        lemma_evolves_trans(*old(parser), s2, s3);
        assert(is_start(s3.evs()[marker.pos as int]));
        assert(advanced(pstate(s2), pstate(s3)) == pstate(s3));
        assert(pstate(*old(parser)).evs.len() == old(parser).evs().len());
    }
    let cm = marker.complete(parser, SyntaxKind::PrefixExpr);
    proof {
        lemma_evolves_trans(*old(parser), s3, *parser);
    }
    cm
}

/// Parses a parenthesized sub-expression.
fn parse_paren_expression(parser: &mut Parser<'_, '_>) -> (r: CompletedMarker)
    requires
        old(parser).wf(),
        old(parser).peek_spec() == Some(TokenKind::LParen),
    ensures
        final(parser).wf(),
        evolves(*old(parser), *final(parser)),
        final(parser).remaining_nt() < old(parser).remaining_nt(),
        r.pos < final(parser).evs().len(),
        is_start(final(parser).evs()[r.pos as int]),
        ({
            let lowered = sp_parse_paren_expression(old(parser).toks(), pstate(*old(parser)));
            pstate(*final(parser)) == lowered.0 && r.pos as int == lowered.1
        }),
    decreases old(parser).remaining_nt(), 1int,
{
    let marker = parser.start();
    let ghost s1 = *parser;
    parser.bump();
    let ghost s2 = *parser;
    proof {
        lemma_evolves_trans(*old(parser), s1, s2);
    }
    proof {
        lemma_remaining_nonneg(*parser);
    }
    parse_expression_bp(parser, 0);
    let ghost s3 = *parser;
    proof {
        lemma_evolves_trans(*old(parser), s2, s3);
        assert(advanced(pstate(s2), pstate(s3)) == pstate(s3));
    }
    parser.expect(TokenKind::RParen);
    let ghost s4 = *parser;
    proof {
        lemma_evolves_trans(*old(parser), s3, s4);
        assert(is_start(s4.evs()[marker.pos as int]));
        assert(pstate(*old(parser)).evs.len() == old(parser).evs().len());
    }
    let cm = marker.complete(parser, SyntaxKind::ParenExpr);
    proof {
        lemma_evolves_trans(*old(parser), s4, *parser);
    }
    cm
}

} // verus!
