//! The grammar: dispatches statements over the whole input and wraps them
//! in one root node.
pub mod expr;
pub mod model;
pub mod stmt;

use vstd::prelude::*;
use crate::event::is_start;
use crate::grammar::model::{
    pstate,
    advanced_past,
    sp_root,
    sp_stmt_loop,
    sp_parse_statement,
    lemma_progress_floor,
};
use crate::parser::{Parser, evolves, lemma_evolves_trans, lemma_remaining_nonneg};
use crate::parser::marker::CompletedMarker;
use crate::syntax_kind::SyntaxKind;

verus! {

/// Parses the whole stream as a sequence of statements inside a `Root`
/// node, consuming every significant token.
pub fn root(parser: &mut Parser<'_, '_>) -> (r: CompletedMarker)
    requires
        old(parser).wf(),
    ensures
        final(parser).wf(),
        evolves(*old(parser), *final(parser)),
        final(parser).at_end_spec(),
        final(parser).evs().len() > old(parser).evs().len(),
        is_start(final(parser).evs()[old(parser).evs().len() as int]),
        ({
            let lowered = sp_root(old(parser).toks(), pstate(*old(parser)));
            pstate(*final(parser)) == lowered.0 && r.pos as int == lowered.1
        }),
{
    let ghost orig = *parser;
    let ghost toks0 = old(parser).toks();
    let marker = parser.start();
    let ghost opened = *parser;
    while !parser.at_end()
        invariant
            orig == *old(parser),
            toks0 == orig.toks(),
            parser.wf(),
            evolves(orig, *parser),
            evolves(opened, *parser),
            marker.pos == orig.evs().len(),
            marker.pos < parser.evs().len(),
            is_start(parser.evs()[marker.pos as int]),
            sp_stmt_loop(toks0, pstate(opened)) == sp_stmt_loop(toks0, pstate(*parser)),
        decreases parser.remaining_nt(),
    {
        let ghost before = *parser;
        stmt::parse_statement(parser);
        proof {
            lemma_evolves_trans(orig, before, *parser);
            lemma_evolves_trans(opened, before, *parser);
            lemma_remaining_nonneg(*parser);
            assert(is_start(parser.evs()[marker.pos as int]));
            assert(pstate(*parser) == sp_parse_statement(toks0, pstate(before)).0);
            lemma_progress_floor(toks0, before.cur(), parser.cur());
            assert(advanced_past(toks0, pstate(before), pstate(*parser)) == pstate(*parser));
            assert(sp_stmt_loop(toks0, pstate(before)) == sp_stmt_loop(toks0, pstate(*parser)));
        }
    }
    let ghost before_complete = *parser;
    proof {
        assert(sp_stmt_loop(toks0, pstate(before_complete)) == pstate(before_complete));
        assert(pstate(orig).evs.len() == orig.evs().len());
    }
    let cm = marker.complete(parser, SyntaxKind::Root);
    proof {
        lemma_evolves_trans(orig, before_complete, *parser);
        assert(pstate(*parser) == sp_root(toks0, pstate(orig)).0) by {
            reveal(sp_root);
        }
        assert(cm.pos as int == sp_root(toks0, pstate(orig)).1) by {
            reveal(sp_root);
        }
    }
    cm
}

} // verus!
