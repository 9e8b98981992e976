//! Markers: handles into the event log for nodes whose kind is decided
//! later, and the precede mechanism for retroactive re-nesting.
use vstd::prelude::*;
use crate::event::{
    Event,
    is_start,
    start_kind,
    start_fp,
    lemma_count_addtok_push,
    lemma_count_addtok_update,
};
use crate::grammar::model::{pstate, sp_complete, sp_precede};
use crate::parser::{Parser, evolves};
use crate::syntax_kind::SyntaxKind;

verus! {

/// A handle to an unfinished `Start` event. Every marker must eventually be
/// completed; the grammar upholds this by construction.
pub struct Marker {
    pub pos: usize,
}

impl Marker {
    /// Assigns `kind` to the marker's start event and closes the node with
    /// a `Finish` event.
    pub fn complete(self, parser: &mut Parser<'_, '_>, kind: SyntaxKind) -> (r: CompletedMarker)
        requires
            old(parser).wf(),
            self.pos < old(parser).evs().len(),
            is_start(old(parser).evs()[self.pos as int]),
        ensures
            final(parser).wf(),
            evolves(*old(parser), *final(parser)),
            final(parser).toks() == old(parser).toks(),
            final(parser).cur() == old(parser).cur(),
            final(parser).expected() == old(parser).expected(),
            final(parser).evs().len() == old(parser).evs().len() + 1,
            final(parser).evs() == old(parser).evs().update(
                self.pos as int,
                Event::Start {
                    kind,
                    forward_parent: start_fp(old(parser).evs()[self.pos as int]),
                },
            ).push(Event::Finish),
            r.pos == self.pos,
            is_start(final(parser).evs()[r.pos as int]),
            pstate(*final(parser)) == sp_complete(pstate(*old(parser)), self.pos as int, kind),
    {
        let pos = self.pos;
        let fp: Option<usize> = match &parser.events[pos] {
            Event::Start { forward_parent, .. } => *forward_parent,
            _ => {
                proof {
                    assert(false);
                }
                None
            },
        };
        let replacement = Event::Start { kind, forward_parent: fp };
        proof {
            lemma_count_addtok_update(parser.events@, pos as int, replacement);
        }
        parser.events[pos] = replacement;
        proof {
            lemma_count_addtok_push(parser.events@, Event::Finish);
        }
        parser.events.push(Event::Finish);
        CompletedMarker { pos }
    }
}

/// A handle to a node that has been completed, enabling `precede`.
pub struct CompletedMarker {
    pub pos: usize,
}

impl CompletedMarker {
    /// Opens a new node that will become this node's parent, even though
    /// this node is already closed: a fresh start event is appended and the
    /// completed node's start event records the offset to it as its forward
    /// parent, resolved when the log is replayed.
    pub fn precede(self, parser: &mut Parser<'_, '_>) -> (m: Marker)
        requires
            old(parser).wf(),
            self.pos < old(parser).evs().len(),
            is_start(old(parser).evs()[self.pos as int]),
        ensures
            final(parser).wf(),
            evolves(*old(parser), *final(parser)),
            final(parser).toks() == old(parser).toks(),
            final(parser).cur() == old(parser).cur(),
            final(parser).expected() == old(parser).expected(),
            m.pos == old(parser).evs().len(),
            final(parser).evs().len() == old(parser).evs().len() + 1,
            final(parser).evs() == old(parser).evs().push(
                Event::Start { kind: SyntaxKind::Tombstone, forward_parent: None::<usize> },
            ).update(
                self.pos as int,
                Event::Start {
                    kind: start_kind(old(parser).evs()[self.pos as int]),
                    forward_parent: Some((m.pos - self.pos) as usize),
                },
            ),
            is_start(final(parser).evs()[m.pos as int]),
            is_start(final(parser).evs()[self.pos as int]),
            pstate(*final(parser)) == sp_precede(pstate(*old(parser)), self.pos as int),
    {
        let new_m = parser.start();
        let pos = self.pos;
        let kind: SyntaxKind = match &parser.events[pos] {
            Event::Start { kind, .. } => *kind,
            _ => {
                proof {
                    assert(false);
                }
                SyntaxKind::Tombstone
            },
        };
        let replacement = Event::Start { kind, forward_parent: Some(new_m.pos - pos) };
        proof {
            lemma_count_addtok_update(parser.events@, pos as int, replacement);
        }
        parser.events[pos] = replacement;
        new_m
    }
}

} // verus!
