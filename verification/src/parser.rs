//! The event-based parser: consumes the token stream and produces a flat
//! log of structural events, with single-token panic-mode error recovery.
pub mod marker;

use vstd::prelude::*;
use crate::event::{Event, is_start, count_addtok, lemma_count_addtok_push, lemma_evs_view_push, evs_view};
use crate::grammar::model::{pstate, sp_start, sp_bump, sp_at, sp_eat, sp_expect, sp_error};
use crate::grammar;
use crate::lexer::Token;
use crate::parse_error::ParseError;
use crate::source::{
    Source,
    spec_next_nt,
    spec_peek,
    nt_count,
    lemma_next_nt,
    lemma_nt_count_step,
    lemma_nt_count_mono,
    lemma_nt_count_at_end,
};
use crate::syntax_kind::SyntaxKind;
use crate::token_kind::TokenKind;

verus! {

/// The parser state: the trivia-skipping token cursor, the event log built
/// so far, and the token kinds tried since the last token was consumed
/// (the expected set reported when an error is raised).
pub struct Parser<'t, 'input> {
    pub source: Source<'t, 'input>,
    pub events: Vec<Event>,
    pub expected_kinds: Vec<TokenKind>,
}

impl<'t, 'input> Parser<'t, 'input> {
    /// The token stream being parsed.
    pub open spec fn toks(self) -> Seq<Token<'input>> {
        self.source.tokens@
    }

    /// The cursor into the token stream.
    pub open spec fn cur(self) -> int {
        self.source.cursor as int
    }

    /// The event log so far.
    pub open spec fn evs(self) -> Seq<Event> {
        self.events@
    }

    /// The recorded expected kinds.
    pub open spec fn expected(self) -> Seq<TokenKind> {
        self.expected_kinds@
    }

    /// The parser's invariant: the cursor is in range and the log holds one
    /// `AddToken` for every non-trivia token consumed so far.
    pub open spec fn wf(self) -> bool {
        &&& self.cur() <= self.toks().len()
        &&& count_addtok(self.evs()) == nt_count(self.toks(), self.cur())
    }

    /// The kind of the next significant token, if any.
    pub open spec fn peek_spec(self) -> Option<TokenKind> {
        spec_peek(self.toks(), self.cur())
    }

    /// No significant tokens remain.
    pub open spec fn at_end_spec(self) -> bool {
        spec_next_nt(self.toks(), self.cur()) == self.toks().len()
    }

    /// How many significant tokens remain to be consumed.
    pub open spec fn remaining_nt(self) -> int {
        nt_count(self.toks(), self.toks().len() as int) - nt_count(self.toks(), self.cur())
    }

    /// Opens a parser over a lexed token stream.
    pub fn new(tokens: &'t Vec<Token<'input>>) -> (r: Parser<'t, 'input>)
        ensures
            r.wf(),
            r.toks() == tokens@,
            r.cur() == 0,
            r.evs().len() == 0,
            r.expected().len() == 0,
    {
        Parser { source: Source::new(tokens), events: Vec::new(), expected_kinds: Vec::new() }
    }

    /// Runs the grammar over the whole stream and returns the event log.
    ///
    /// The log accounts for every significant token of the stream, and its
    /// first entry is the start of the root node.
    pub fn parse(self) -> (r: Vec<Event>)
        requires
            self.wf(),
            self.cur() == 0,
            self.evs().len() == 0,
            self.expected().len() == 0,
        ensures
            count_addtok(r@) == nt_count(self.toks(), self.toks().len() as int),
            r@.len() > 0,
            is_start(r@[0]),
            evs_view(r@) == crate::grammar::model::sp_root(
                self.toks(),
                crate::grammar::model::PState {
                    evs: Seq::empty(),
                    cur: 0,
                    expected: Seq::empty(),
                },
            ).0.evs,
    {
        let mut parser = self;
        proof {
            assert(pstate(parser) =~= (crate::grammar::model::PState {
                evs: Seq::empty(),
                cur: 0,
                expected: Seq::empty(),
            }));
        }
        grammar::root(&mut parser);
        proof {
            lemma_nt_count_at_end(parser.toks(), parser.cur());
        }
        parser.events
    }

    /// Places a new tombstone `Start` event and returns its marker, to be
    /// completed once the node's kind is known.
    pub fn start(&mut self) -> (m: marker::Marker)
        requires
            old(self).wf(),
        ensures
            final(self).wf(),
            final(self).toks() == old(self).toks(),
            final(self).cur() == old(self).cur(),
            final(self).expected() == old(self).expected(),
            final(self).evs() == old(self).evs().push(
                Event::Start { kind: SyntaxKind::Tombstone, forward_parent: None::<usize> },
            ),
            m.pos == old(self).evs().len(),
            is_start(final(self).evs()[m.pos as int]),
            evolves(*old(self), *final(self)),
            pstate(*final(self)) == sp_start(pstate(*old(self))),
    {
        let pos = self.events.len();
        let e = Event::tombstone();
        proof {
            lemma_count_addtok_push(self.events@, e);
            lemma_evs_view_push(self.events@, e);
        }
        self.events.push(e);
        proof {
            assert(pstate(*self) =~= sp_start(pstate(*old(self))));
        }
        proof {
            assert forall|i: int| 0 <= i < old(self).evs().len() implies is_start(
                #[trigger] self.evs()[i],
            ) == is_start(old(self).evs()[i]) by {
                assert(self.evs()[i] == old(self).evs()[i]);
            }
        }
        marker::Marker { pos }
    }

    /// Consumes the next significant token, emitting an `AddToken` event and
    /// clearing the expected set.
    pub fn bump(&mut self)
        requires
            old(self).wf(),
            !old(self).at_end_spec(),
        ensures
            final(self).wf(),
            final(self).toks() == old(self).toks(),
            final(self).evs() == old(self).evs().push(Event::AddToken),
            final(self).expected().len() == 0,
            final(self).cur() == spec_next_nt(old(self).toks(), old(self).cur()) + 1,
            final(self).remaining_nt() == old(self).remaining_nt() - 1,
            evolves(*old(self), *final(self)),
            pstate(*final(self)) == sp_bump(old(self).toks(), pstate(*old(self))),
    {
        self.expected_kinds.clear();
        let taken = self.source.next_token();
        proof {
            lemma_count_addtok_push(self.events@, Event::AddToken);
            lemma_nt_count_step(old(self).toks(), old(self).cur());
            lemma_next_nt(old(self).toks(), old(self).cur());
            lemma_evs_view_push(self.events@, Event::AddToken);
        }
        self.events.push(Event::AddToken);
        proof {
            assert(pstate(*self) =~= sp_bump(old(self).toks(), pstate(*old(self))));
        }
        proof {
            assert forall|i: int| 0 <= i < old(self).evs().len() implies is_start(
                #[trigger] self.evs()[i],
            ) == is_start(old(self).evs()[i]) by {
                assert(self.evs()[i] == old(self).evs()[i]);
            }
        }
    }

    /// The kind of the next significant token.
    fn peek(&self) -> (r: Option<TokenKind>)
        requires
            self.wf(),
        ensures
            r == self.peek_spec(),
    {
        self.source.peek_kind()
    }

    /// Records `kind` as expected, and reports whether the next significant
    /// token has that kind.
    pub fn at(&mut self, kind: TokenKind) -> (r: bool)
        requires
            old(self).wf(),
        ensures
            final(self).wf(),
            final(self).toks() == old(self).toks(),
            final(self).cur() == old(self).cur(),
            final(self).evs() == old(self).evs(),
            final(self).expected() == old(self).expected().push(kind),
            r == (old(self).peek_spec() == Some(kind)),
            evolves(*old(self), *final(self)),
            pstate(*final(self)) == sp_at(pstate(*old(self)), kind),
    {
        self.expected_kinds.push(kind);
        proof {
            assert(pstate(*self) =~= sp_at(pstate(*old(self)), kind));
        }
        match self.peek() {
            Some(k) => k == kind,
            None => false,
        }
    }

    /// Consumes the next token if it has the given kind.
    pub fn eat(&mut self, kind: TokenKind) -> (r: bool)
        requires
            old(self).wf(),
        ensures
            final(self).wf(),
            final(self).toks() == old(self).toks(),
            r == (old(self).peek_spec() == Some(kind)),
            r ==> final(self).evs() == old(self).evs().push(Event::AddToken)
                && final(self).expected().len() == 0 && final(self).remaining_nt() == old(self).remaining_nt() - 1,
            !r ==> *final(self) == *old(self),
            final(self).cur() >= old(self).cur(),
            final(self).remaining_nt() <= old(self).remaining_nt(),
            evolves(*old(self), *final(self)),
            pstate(*final(self)) == sp_eat(old(self).toks(), pstate(*old(self)), kind),
    {
        let hit = match self.peek() {
            Some(k) => k == kind,
            None => false,
        };
        if hit {
            self.bump();
            true
        } else {
            false
        }
    }

    /// Reports whether the next significant token's kind is in `set`,
    /// without recording anything.
    pub fn at_set(&self, set: &[TokenKind]) -> (r: bool)
        requires
            self.wf(),
        ensures
            r == (self.peek_spec() matches Some(k) && set@.contains(k)),
    {
        match self.peek() {
            Some(k) => kind_in(set, k),
            None => false,
        }
    }

    /// No significant tokens remain.
    pub fn at_end(&self) -> (r: bool)
        requires
            self.wf(),
        ensures
            r == self.at_end_spec(),
    {
        proof {
            lemma_next_nt(self.toks(), self.cur());
        }
        match self.peek() {
            Some(_) => false,
            None => true,
        }
    }

    /// Consumes the next token if it has the given kind, and raises an
    /// error otherwise.
    pub fn expect(&mut self, kind: TokenKind)
        requires
            old(self).wf(),
            old(self).toks().len() > 0,
        ensures
            final(self).wf(),
            final(self).toks() == old(self).toks(),
            evolves(*old(self), *final(self)),
            final(self).remaining_nt() <= old(self).remaining_nt(),
            old(self).peek_spec() == Some(kind) ==> final(self).remaining_nt() == old(self).remaining_nt() - 1,
            pstate(*final(self)) == sp_expect(old(self).toks(), pstate(*old(self)), kind),
    {
        if self.at(kind) {
            self.bump();
            proof {
                lemma_evs_push_evolves(old(self).evs(), final(self).evs());
            }
        } else {
            self.error();
        }
    }

    /// Raises a syntax error at the next significant token (or at the last
    /// token of the stream when at the end), carrying the kinds recorded as
    /// expected. Unless the offending token opens a statement that can be
    /// recovered at (the `let` keyword) or the input is exhausted, exactly
    /// one token is consumed into an `Error` node so that parsing makes
    /// progress.
    pub fn error(&mut self)
        requires
            old(self).wf(),
            old(self).toks().len() > 0,
        ensures
            final(self).wf(),
            final(self).toks() == old(self).toks(),
            evolves(*old(self), *final(self)),
            final(self).expected().len() == 0,
            final(self).remaining_nt() <= old(self).remaining_nt(),
            forall|i: int|
                0 <= i < old(self).evs().len() ==> #[trigger] final(self).evs()[i] == old(
                    self,
                ).evs()[i],
            final(self).evs()[old(self).evs().len() as int] matches Event::Error(pe) && {
                &&& pe.expected@ == old(self).expected()
                &&& match old(self).peek_spec() {
                    Some(k) => pe.found == Some(k) && pe.start == old(self).toks()[spec_next_nt(
                        old(self).toks(),
                        old(self).cur(),
                    )].start && pe.end == old(self).toks()[spec_next_nt(
                        old(self).toks(),
                        old(self).cur(),
                    )].end,
                    None => pe.found is None && pe.start == old(self).toks().last().start && pe.end
                        == old(self).toks().last().end,
                }
            },
            (old(self).peek_spec() matches Some(k) && k != TokenKind::LetKeyword) ==> {
                &&& final(self).evs().len() == old(self).evs().len() + 4
                &&& final(self).evs()[old(self).evs().len() as int + 1] == (Event::Start {
                    kind: SyntaxKind::Error,
                    forward_parent: None::<usize>,
                })
                &&& final(self).evs()[old(self).evs().len() as int + 2] == Event::AddToken
                &&& final(self).evs()[old(self).evs().len() as int + 3] == Event::Finish
                &&& final(self).cur() == spec_next_nt(old(self).toks(), old(self).cur()) + 1
                &&& final(self).remaining_nt() == old(self).remaining_nt() - 1
            },
            (old(self).peek_spec() is None || old(self).peek_spec() == Some(
                TokenKind::LetKeyword,
            )) ==> final(self).evs().len() == old(self).evs().len() + 1 && final(self).cur() == old(
                self,
            ).cur(),
            pstate(*final(self)) == sp_error(old(self).toks(), pstate(*old(self))),
    {
        let current = self.source.peek_token();
        let (found, start, end): (Option<TokenKind>, usize, usize) = match current {
            Some(t) => (Some(t.kind), t.start, t.end),
            None => {
                match self.source.last_token_range() {
                    Some((s, e)) => (None, s, e),
                    None => {
                        proof {
                            assert(false);
                        }
                        (None, 0, 0)
                    },
                }
            },
        };
        let mut taken: Vec<TokenKind> = Vec::new();
        core::mem::swap(&mut taken, &mut self.expected_kinds);
        let err_event = Event::Error(ParseError { expected: taken, found, start, end });
        proof {
            lemma_count_addtok_push(self.events@, err_event);
        }
        self.events.push(err_event);
        let recovery: [TokenKind; 1] = [TokenKind::LetKeyword];
        let at_recovery = self.at_set(&recovery);
        proof {
            assert(recovery@.contains(TokenKind::LetKeyword) && recovery@[0]
                == TokenKind::LetKeyword);
        }
        if !at_recovery && !self.at_end() {
            let m = self.start();
            self.bump();
            let completed = m.complete(self, SyntaxKind::Error);
        }
    }
}

/// Membership of a kind in a fixed set of kinds.
fn kind_in(set: &[TokenKind], kind: TokenKind) -> (r: bool)
    ensures
        r == set@.contains(kind),
{
    let mut i: usize = 0;
    while i < set.len()
        invariant
            0 <= i <= set@.len(),
            forall|j: int| 0 <= j < i ==> set@[j] != kind,
        decreases set@.len() - i,
    {
        if set[i] == kind {
            return true;
        }
        i = i + 1;
    }
    false
}

/// How one parser state may follow from another under grammar calls: the
/// tokens are the same, the event log only grows, entries that were `Start`
/// events stay `Start` events (and conversely), and the cursor does not move
/// backwards.
pub open spec fn evolves(a: Parser<'_, '_>, b: Parser<'_, '_>) -> bool {
    &&& b.toks() == a.toks()
    &&& a.evs().len() <= b.evs().len()
    &&& forall|i: int|
        0 <= i < a.evs().len() ==> is_start(#[trigger] b.evs()[i]) == is_start(a.evs()[i])
    &&& a.cur() <= b.cur()
}

/// Pushing entries preserves the start positions of an event log.
pub proof fn lemma_evs_push_evolves(a: Seq<Event>, b: Seq<Event>)
    requires
        a.len() <= b.len(),
        forall|i: int| 0 <= i < a.len() ==> b[i] == a[i],
    ensures
        forall|i: int| 0 <= i < a.len() ==> is_start(#[trigger] b[i]) == is_start(a[i]),
{
}

/// Under the parser invariant the remaining-token measure is non-negative.
pub proof fn lemma_remaining_nonneg(p: Parser<'_, '_>)
    requires
        p.wf(),
    ensures
        p.remaining_nt() >= 0,
{
    lemma_nt_count_mono(p.toks(), p.cur(), p.toks().len() as int);
}

/// `evolves` composes.
pub proof fn lemma_evolves_trans(a: Parser<'_, '_>, b: Parser<'_, '_>, c: Parser<'_, '_>)
    requires
        evolves(a, b),
        evolves(b, c),
    ensures
        evolves(a, c),
{
    assert forall|i: int| 0 <= i < a.evs().len() implies is_start(#[trigger] c.evs()[i])
        == is_start(a.evs()[i]) by {
        assert(is_start(b.evs()[i]) == is_start(a.evs()[i]));
        assert(is_start(c.evs()[i]) == is_start(b.evs()[i]));
    }
}

} // verus!
