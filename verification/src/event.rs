//! The flat, append-only log of structural events the parser emits, replayed
//! later by the tree sink.
use vstd::prelude::*;
use crate::syntax_kind::SyntaxKind;
use crate::parse_error::ParseError;
use crate::token_kind::TokenKind;

verus! {

/// One entry of the event log.
///
/// `Start` may carry a `forward_parent` offset: the start event that many
/// slots ahead becomes this node's parent when the log is replayed, which is
/// how a node gains a parent that was decided after it was closed.
#[derive(Debug)]
pub enum Event {
    Start { kind: SyntaxKind, forward_parent: Option<usize> },
    Finish,
    AddToken,
    Error(ParseError),
}

impl Event {
    /// The placeholder entry a fresh marker leaves in the log until it is
    /// completed with a real kind.
    pub fn tombstone() -> (r: Event)
        ensures
            r == (Event::Start { kind: SyntaxKind::Tombstone, forward_parent: None::<usize> }),
    {
        Event::Start { kind: SyntaxKind::Tombstone, forward_parent: None }
    }
}

/// True for `Start` entries.
pub open spec fn is_start(e: Event) -> bool {
    e is Start
}

/// The kind of a `Start` entry.
pub open spec fn start_kind(e: Event) -> SyntaxKind {
    e->Start_kind
}

/// The forward-parent offset of a `Start` entry.
pub open spec fn start_fp(e: Event) -> Option<usize> {
    e->Start_forward_parent
}

/// How many `AddToken` entries the log holds.
pub open spec fn count_addtok(evs: Seq<Event>) -> int
    decreases evs.len(),
{
    if evs.len() == 0 {
        0
    } else {
        count_addtok(evs.drop_last()) + if evs.last() is AddToken {
            1int
        } else {
            0int
        }
    }
}

/// The parse errors recorded in the log, in order.
pub open spec fn errors_of(evs: Seq<Event>) -> Seq<ParseError>
    decreases evs.len(),
{
    if evs.len() == 0 {
        Seq::empty()
    } else {
        errors_of(evs.drop_last()) + match evs.last() {
            Event::Error(pe) => seq![pe],
            _ => Seq::empty(),
        }
    }
}

/// Appending an entry adds one to the token count exactly when it is an
/// `AddToken`.
pub proof fn lemma_count_addtok_push(evs: Seq<Event>, e: Event)
    ensures
        count_addtok(evs.push(e)) == count_addtok(evs) + if e is AddToken {
            1int
        } else {
            0int
        },
{
    assert(evs.push(e).drop_last() =~= evs);
    assert(evs.push(e).last() == e);
}

/// Replacing one entry by another that is not an `AddToken` leaves the
/// token count unchanged.
pub proof fn lemma_count_addtok_update(evs: Seq<Event>, i: int, e: Event)
    requires
        0 <= i < evs.len(),
        !(evs[i] is AddToken),
        !(e is AddToken),
    ensures
        count_addtok(evs.update(i, e)) == count_addtok(evs),
    decreases evs.len(),
{
    let upd = evs.update(i, e);
    if i == evs.len() - 1 {
        assert(upd.drop_last() =~= evs.drop_last());
    } else {
        assert(upd.drop_last() =~= evs.drop_last().update(i, e));
        lemma_count_addtok_update(evs.drop_last(), i, e);
        assert(upd.last() == evs.last());
    }
}

/// Replacing a non-error entry by a non-error entry keeps the errors.
pub proof fn lemma_errors_of_update(evs: Seq<Event>, i: int, e: Event)
    requires
        0 <= i < evs.len(),
        !(evs[i] is Error),
        !(e is Error),
    ensures
        errors_of(evs.update(i, e)) == errors_of(evs),
    decreases evs.len(),
{
    let upd = evs.update(i, e);
    if i == evs.len() - 1 {
        assert(upd.drop_last() =~= evs.drop_last());
        assert(errors_of(upd) =~= errors_of(evs));
    } else {
        assert(upd.drop_last() =~= evs.drop_last().update(i, e));
        lemma_errors_of_update(evs.drop_last(), i, e);
        assert(upd.last() == evs.last());
        assert(errors_of(upd) =~= errors_of(evs));
    }
}

// ---------------------------------------------------------------------------
// The mathematical view of the log.
// ---------------------------------------------------------------------------
/// The mathematical view of one event: as `Event`, with the diagnostic's
/// fields as mathematical values.
pub enum GEvent {
    Start { kind: SyntaxKind, forward_parent: Option<usize> },
    Finish,
    AddToken,
    Error { expected: Seq<TokenKind>, found: Option<TokenKind>, start: int, end: int },
}

/// View of one event.
pub open spec fn ev_view(e: Event) -> GEvent {
    match e {
        Event::Start { kind, forward_parent } => GEvent::Start { kind, forward_parent },
        Event::Finish => GEvent::Finish,
        Event::AddToken => GEvent::AddToken,
        Event::Error(pe) => GEvent::Error {
            expected: pe.expected@,
            found: pe.found,
            start: pe.start as int,
            end: pe.end as int,
        },
    }
}

/// View of a whole log.
pub open spec fn evs_view(evs: Seq<Event>) -> Seq<GEvent> {
    evs.map_values(|e: Event| ev_view(e))
}

/// The view commutes with appending.
pub proof fn lemma_evs_view_push(evs: Seq<Event>, e: Event)
    ensures
        evs_view(evs.push(e)) == evs_view(evs).push(ev_view(e)),
{
    assert(evs_view(evs.push(e)) =~= evs_view(evs).push(ev_view(e)));
}

/// The view commutes with replacing one entry.
pub proof fn lemma_evs_view_update(evs: Seq<Event>, i: int, e: Event)
    requires
        0 <= i < evs.len(),
    ensures
        evs_view(evs.update(i, e)) == evs_view(evs).update(i, ev_view(e)),
{
    assert(evs_view(evs.update(i, e)) =~= evs_view(evs).update(i, ev_view(e)));
}

/// The view of one diagnostic as an `Error` entry.
pub open spec fn perr_view(pe: ParseError) -> GEvent {
    GEvent::Error {
        expected: pe.expected@,
        found: pe.found,
        start: pe.start as int,
        end: pe.end as int,
    }
}

/// The `Error` entries of a viewed log, in order.
pub open spec fn g_errors_of(evs: Seq<GEvent>) -> Seq<GEvent>
    decreases evs.len(),
{
    if evs.len() == 0 {
        Seq::empty()
    } else {
        g_errors_of(evs.drop_last()) + match evs.last() {
            GEvent::Error { expected, found, start, end } => seq![evs.last()],
            _ => Seq::empty(),
        }
    }
}

/// Collecting the errors commutes with taking the view.
pub proof fn lemma_errors_of_view(evs: Seq<Event>)
    ensures
        errors_of(evs).map_values(|pe: ParseError| perr_view(pe)) == g_errors_of(evs_view(evs)),
    decreases evs.len(),
{
    if evs.len() == 0 {
        assert(evs_view(evs).len() == 0);
        assert(errors_of(evs).map_values(|pe: ParseError| perr_view(pe)) =~= g_errors_of(
            evs_view(evs),
        ));
    } else {
        lemma_errors_of_view(evs.drop_last());
        assert(evs_view(evs).drop_last() =~= evs_view(evs.drop_last()));
        assert(evs_view(evs).last() == ev_view(evs.last()));
        assert(errors_of(evs).map_values(|pe: ParseError| perr_view(pe)) =~= g_errors_of(
            evs_view(evs),
        ));
    }
}

} // verus!
