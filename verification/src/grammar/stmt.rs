//! Statement grammar: variable definitions, function declarations, and
//! expression statements.
use vstd::prelude::*;
use crate::event::is_start;
use crate::grammar::expr;
use vstd::prelude::*;
use crate::grammar::model::{
    pstate,
    sp_parse_statement,
    sp_parse_variable_def,
    sp_parse_func,
    sp_parse_param_list,
    sp_parse_block_stmt,
    sp_parse_variable_ref,
    sp_parse_expression_bp,
    sp_at,
    sp_error,
};
use crate::parser::{Parser, evolves, lemma_evolves_trans};
use crate::source::lemma_next_nt;
use crate::parser::marker::CompletedMarker;
use crate::syntax_kind::SyntaxKind;
use crate::token_kind::TokenKind;

verus! {

/// Parses one statement: a `let` definition, a `func` declaration, or an
/// expression statement. Always consumes at least one token.
pub fn parse_statement(parser: &mut Parser<'_, '_>) -> (r: Option<CompletedMarker>)
    requires
        old(parser).wf(),
        !old(parser).at_end_spec(),
    ensures
        final(parser).wf(),
        evolves(*old(parser), *final(parser)),
        final(parser).remaining_nt() < old(parser).remaining_nt(),
        ({
            let lowered = sp_parse_statement(old(parser).toks(), pstate(*old(parser)));
            pstate(*final(parser)) == lowered.0 && match r {
                Some(cm) => lowered.1 == Some(cm.pos as int),
                None => lowered.1 is None,
            }
        }),
{
    let ghost p0 = pstate(*old(parser));
    let ghost toks0 = old(parser).toks();
    let at_let = parser.at(TokenKind::LetKeyword);
    let at_func = if at_let { false } else { parser.at(TokenKind::FuncKeyword) };
    let ghost pre = *parser;
    proof {
        assert(evolves(*old(parser), pre));
    }
    let r = if at_let {
        Some(parse_variable_def(parser))
    } else if at_func {
        Some(parse_func(parser))
    } else {
        proof {
            lemma_next_nt(parser.toks(), parser.cur());
            assert(parser.peek_spec() is Some);
        }
        expr::parse_expression(parser)
    };
    proof {
        lemma_evolves_trans(*old(parser), pre, *parser);
        if at_let {
            assert(pstate(pre) == sp_at(p0, TokenKind::LetKeyword));
            assert(pstate(*parser) == sp_parse_variable_def(toks0, pstate(pre)).0);
        } else if at_func {
            assert(pstate(pre) == sp_at(sp_at(p0, TokenKind::LetKeyword), TokenKind::FuncKeyword));
            assert(pstate(*parser) == sp_parse_func(toks0, pstate(pre)).0);
        } else {
            assert(pstate(*parser) == sp_parse_expression_bp(toks0, pstate(pre), 0).0);
        }
        assert(pstate(*parser) == sp_parse_statement(toks0, p0).0);
    }
    r
}

/// Parses `let [mut] name = expression`, recovering when parts are missing.
pub fn parse_variable_def(parser: &mut Parser<'_, '_>) -> (r: CompletedMarker)
    requires
        old(parser).wf(),
        old(parser).peek_spec() == Some(TokenKind::LetKeyword),
    ensures
        final(parser).wf(),
        evolves(*old(parser), *final(parser)),
        final(parser).remaining_nt() < old(parser).remaining_nt(),
        ({
            let lowered = sp_parse_variable_def(old(parser).toks(), pstate(*old(parser)));
            pstate(*final(parser)) == lowered.0 && r.pos as int == lowered.1
        }),
{
    let ghost orig = *parser;
    let marker = parser.start();
    let ghost s1 = *parser;
    // Eat the let keyword
    parser.bump();
    let ghost s2 = *parser;
    proof {
        lemma_evolves_trans(orig, s1, s2);
    }
    // Eat the mut keyword if present
    parser.eat(TokenKind::MutKeyword);
    let ghost s3 = *parser;
    proof {
        lemma_evolves_trans(orig, s2, s3);
    }
    parser.expect(TokenKind::Ident);
    let ghost s4 = *parser;
    proof {
        lemma_evolves_trans(orig, s3, s4);
    }
    parser.expect(TokenKind::Equals);
    let ghost s5 = *parser;
    proof {
        lemma_evolves_trans(orig, s4, s5);
    }
    expr::parse_expression(parser);
    let ghost s6 = *parser;
    proof {
        lemma_evolves_trans(orig, s5, s6);
        assert(marker.pos < parser.evs().len() && is_start(parser.evs()[marker.pos as int]));
        assert(pstate(orig).evs.len() == orig.evs().len());
        assert(pstate(s6) == sp_parse_expression_bp(orig.toks(), pstate(s5), 0).0);
    }
    let cm = marker.complete(parser, SyntaxKind::VariableDef);
    proof {
        lemma_evolves_trans(orig, s6, *parser);
        assert(pstate(*parser) == sp_parse_variable_def(orig.toks(), pstate(orig)).0);
    }
    cm
}

/// Parses `func name() {}`: the keyword, the declared name, an empty-only
/// parameter list and an empty-only block.
pub fn parse_func(parser: &mut Parser<'_, '_>) -> (r: CompletedMarker)
    requires
        old(parser).wf(),
        old(parser).peek_spec() == Some(TokenKind::FuncKeyword),
    ensures
        final(parser).wf(),
        evolves(*old(parser), *final(parser)),
        final(parser).remaining_nt() < old(parser).remaining_nt(),
        ({
            let lowered = sp_parse_func(old(parser).toks(), pstate(*old(parser)));
            pstate(*final(parser)) == lowered.0 && r.pos as int == lowered.1
        }),
{
    let ghost orig = *parser;
    let ghost toks0 = old(parser).toks();
    let marker = parser.start();
    let ghost s1 = *parser;
    // Eat the func keyword
    parser.bump();
    let ghost s2 = *parser;
    proof {
        lemma_evolves_trans(orig, s1, s2);
    }
    let has_name = parser.at(TokenKind::Ident);
    let ghost s2a = *parser;
    if has_name {
        expr::parse_variable_ref(parser);
    } else {
        parser.error();
    }
    let ghost s3 = *parser;
    proof {
        lemma_evolves_trans(orig, s2, s3);
        assert(pstate(s2a) == sp_at(pstate(s2), TokenKind::Ident));
        if has_name {
            assert(pstate(s3) == sp_parse_variable_ref(toks0, pstate(s2a)).0);
        } else {
            assert(pstate(s3) == sp_error(toks0, pstate(s2a)));
        }
    }
    let has_params = parser.at(TokenKind::LParen);
    let ghost s3a = *parser;
    if has_params {
        parse_param_list(parser);
    } else {
        parser.error();
    }
    let ghost s4 = *parser;
    proof {
        lemma_evolves_trans(orig, s3, s4);
        assert(pstate(s3a) == sp_at(pstate(s3), TokenKind::LParen));
        if has_params {
            assert(pstate(s4) == sp_parse_param_list(toks0, pstate(s3a)).0);
        } else {
            assert(pstate(s4) == sp_error(toks0, pstate(s3a)));
        }
    }
    let has_block = parser.at(TokenKind::LBrace);
    let ghost s4a = *parser;
    if has_block {
        parse_block_stmt(parser);
    } else {
        parser.error();
    }
    let ghost s5 = *parser;
    proof {
        lemma_evolves_trans(orig, s4, s5);
        assert(pstate(s4a) == sp_at(pstate(s4), TokenKind::LBrace));
        if has_block {
            assert(pstate(s5) == sp_parse_block_stmt(toks0, pstate(s4a)).0);
        } else {
            assert(pstate(s5) == sp_error(toks0, pstate(s4a)));
        }
        assert(marker.pos < parser.evs().len() && is_start(parser.evs()[marker.pos as int]));
        assert(pstate(orig).evs.len() == orig.evs().len());
    }
    let cm = marker.complete(parser, SyntaxKind::FunctionDecl);
    proof {
        lemma_evolves_trans(orig, s5, *parser);
        assert(pstate(*parser) == sp_parse_func(toks0, pstate(orig)).0);
    }
    cm
}

/// Parses a parameter list, currently `()` only.
pub fn parse_param_list(parser: &mut Parser<'_, '_>) -> (r: CompletedMarker)
    requires
        old(parser).wf(),
        old(parser).peek_spec() == Some(TokenKind::LParen),
    ensures
        final(parser).wf(),
        evolves(*old(parser), *final(parser)),
        final(parser).remaining_nt() < old(parser).remaining_nt(),
        ({
            let lowered = sp_parse_param_list(old(parser).toks(), pstate(*old(parser)));
            pstate(*final(parser)) == lowered.0 && r.pos as int == lowered.1
        }),
{
    let ghost orig = *parser;
    let marker = parser.start();
    let ghost s1 = *parser;
    // Consume the leading paren
    parser.bump();
    let ghost s2 = *parser;
    proof {
        lemma_evolves_trans(orig, s1, s2);
    }
    parser.expect(TokenKind::RParen);
    let ghost s3 = *parser;
    proof {
        lemma_evolves_trans(orig, s2, s3);
        assert(marker.pos < parser.evs().len() && is_start(parser.evs()[marker.pos as int]));
        assert(pstate(orig).evs.len() == orig.evs().len());
    }
    let cm = marker.complete(parser, SyntaxKind::ParamList);
    proof {
        lemma_evolves_trans(orig, s3, *parser);
    }
    cm
}

/// Parses a block statement, currently `{}` only.
pub fn parse_block_stmt(parser: &mut Parser<'_, '_>) -> (r: CompletedMarker)
    requires
        old(parser).wf(),
        old(parser).peek_spec() == Some(TokenKind::LBrace),
    ensures
        final(parser).wf(),
        evolves(*old(parser), *final(parser)),
        final(parser).remaining_nt() < old(parser).remaining_nt(),
        ({
            let lowered = sp_parse_block_stmt(old(parser).toks(), pstate(*old(parser)));
            pstate(*final(parser)) == lowered.0 && r.pos as int == lowered.1
        }),
{
    let ghost orig = *parser;
    let marker = parser.start();
    let ghost s1 = *parser;
    // Consume the leading brace
    parser.bump();
    let ghost s2 = *parser;
    proof {
        lemma_evolves_trans(orig, s1, s2);
    }
    parser.expect(TokenKind::RBrace);
    let ghost s3 = *parser;
    proof {
        lemma_evolves_trans(orig, s2, s3);
        assert(marker.pos < parser.evs().len() && is_start(parser.evs()[marker.pos as int]));
        assert(pstate(orig).evs.len() == orig.evs().len());
    }
    let cm = marker.complete(parser, SyntaxKind::BlockStmt);
    proof {
        lemma_evolves_trans(orig, s3, *parser);
    }
    cm
}

} // verus!
