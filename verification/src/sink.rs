//! The tree sink: replays the parser's event log against the tree builder,
//! resolving forward-parent chains, weaving trivia tokens back in, and
//! collecting the recorded errors.
use vstd::prelude::*;
use crate::event::{
    Event,
    count_addtok,
    errors_of,
    lemma_count_addtok_update,
    lemma_errors_of_update,
};
use crate::lexer::{Token, concat_texts};
use crate::parse_error::ParseError;
use crate::source::{nt_count, lemma_nt_count_mono};
use crate::syntax_kind::SyntaxKind;
use crate::token_kind::spec_is_trivia;
use crate::event::{GEvent, ev_view, evs_view, lemma_evs_view_update};
use crate::replay::{
    RState,
    GFrame,
    GElem,
    rp_token,
    rp_act,
    rp_eat_trivia,
    rp_chain,
    rp_open,
    rp_step,
    rp_run_to,
    sp_replay,
    tviews,
    builder_gframes,
    node_gview,
};
use crate::syntax_kind::spec_from_token;
use crate::tree::{
    GreenNodeBuilder,
    SyntaxNode,
    builder_wf,
    builder_text,
    builder_leaves,
    node_wf,
    node_text,
    node_leaves,
};

verus! {

/// The spans of the token stream are non-empty, adjacent and agree with the
/// token texts, starting from position zero.
pub open spec fn tokens_chained(toks: Seq<Token<'_>>) -> bool {
    forall|j: int|
        0 <= j < toks.len() ==> {
            &&& (#[trigger] toks[j]).start < toks[j].end
            &&& toks[j].text@.len() == toks[j].end - toks[j].start
            &&& toks[j].start == if j == 0 {
                0int
            } else {
                toks[j - 1].end as int
            }
        }
}

/// The leaf views a token stream turns into: each token's tree tag, text,
/// and span, in order.
pub open spec fn token_leaf_views(toks: Seq<Token<'_>>) -> Seq<(SyntaxKind, Seq<char>, int, int)> {
    toks.map_values(
        |t: Token<'_>| (spec_from_token(t.kind), t.text@, t.start as int, t.end as int),
    )
}

/// The position where the token at `cursor` begins (the end of the stream
/// once all tokens are consumed).
pub open spec fn pos_at(toks: Seq<Token<'_>>, cursor: int) -> int {
    if cursor == 0 {
        0
    } else {
        toks[cursor - 1].end as int
    }
}

/// The token count is never negative.
pub proof fn lemma_count_addtok_nonneg(evs: Seq<Event>)
    ensures
        count_addtok(evs) >= 0,
    decreases evs.len(),
{
    if evs.len() > 0 {
        lemma_count_addtok_nonneg(evs.drop_last());
    }
}

/// The token count distributes over concatenation.
pub proof fn lemma_count_addtok_concat(a: Seq<Event>, b: Seq<Event>)
    ensures
        count_addtok(a + b) == count_addtok(a) + count_addtok(b),
    decreases b.len(),
{
    if b.len() == 0 {
        assert(a + b =~= a);
    } else {
        lemma_count_addtok_concat(a, b.drop_last());
        assert((a + b).drop_last() =~= a + b.drop_last());
        assert((a + b).last() == b.last());
    }
}

/// The recorded errors distribute over concatenation.
pub proof fn lemma_errors_of_concat(a: Seq<Event>, b: Seq<Event>)
    ensures
        errors_of(a + b) == errors_of(a) + errors_of(b),
    decreases b.len(),
{
    if b.len() == 0 {
        assert(a + b =~= a);
        assert(errors_of(a + b) =~= errors_of(a) + errors_of(b));
    } else {
        lemma_errors_of_concat(a, b.drop_last());
        assert((a + b).drop_last() =~= a + b.drop_last());
        assert((a + b).last() == b.last());
        assert(errors_of(a + b) =~= errors_of(a) + errors_of(b));
    }
}

/// Splitting off the last token splits its text off the end.
pub proof fn lemma_concat_texts_push(s: Seq<Token<'_>>)
    requires
        s.len() > 0,
    ensures
        concat_texts(s) == concat_texts(s.drop_last()) + s.last().text@,
    decreases s.len(),
{
    assert(concat_texts(s) == s[0].text@ + concat_texts(s.drop_first()));
    if s.len() == 1 {
        assert(concat_texts(s.drop_first()) =~= Seq::<char>::empty());
        assert(concat_texts(s.drop_last()) =~= Seq::<char>::empty());
        assert(s.last() == s[0]);
        assert(concat_texts(s) =~= concat_texts(s.drop_last()) + s.last().text@);
    } else {
        lemma_concat_texts_push(s.drop_first());
        assert(s.drop_first().drop_last() == s.drop_last().drop_first());
        assert(s.drop_first().last() == s.last());
        assert(concat_texts(s.drop_last()) == s.drop_last()[0].text@ + concat_texts(
            s.drop_last().drop_first(),
        ));
        assert(s.drop_last()[0] == s[0]);
        assert(concat_texts(s) =~= concat_texts(s.drop_last()) + s.last().text@);
    }
}

/// A lexed token stream (its views matching the mathematical tokenization)
/// is chained: the spans partition the source from position zero on.
#[verifier::rlimit(100)]
pub proof fn lemma_lexed_chained(toks: Seq<Token<'_>>, s: Seq<char>)
    requires
        crate::lexer::tok_views(toks) == crate::lexer::spec_tokens(s, 0),
        crate::lexer::lexed_wf(toks, s),
    ensures
        tokens_chained(toks),
{
    crate::lexer::lemma_token_spans_partition(toks, s);
    assert forall|j: int| 0 <= j < toks.len() implies {
        &&& (#[trigger] toks[j]).start < toks[j].end
        &&& toks[j].text@.len() == toks[j].end - toks[j].start
        &&& toks[j].start == if j == 0 {
            0int
        } else {
            toks[j - 1].end as int
        }
    } by {
        assert(0 <= toks[j].start < toks[j].end <= s.len());
        assert(toks[j].text@ == s.subrange(toks[j].start as int, toks[j].end as int));
    }
}

/// The replay-model state of a sink.
pub open spec fn rstate(s: Sink<'_, '_>) -> RState {
    RState {
        gevs: evs_view(s.events@),
        frames: builder_gframes(s.builder),
        pos: s.builder.pos as int,
        cursor: s.cursor as int,
    }
}

/// Replays a parse's event log into a lossless tree.
pub struct Sink<'t, 'input> {
    pub builder: GreenNodeBuilder,
    pub tokens: &'t Vec<Token<'input>>,
    pub events: Vec<Event>,
    pub cursor: usize,
    pub errors: Vec<ParseError>,
}

impl<'t, 'input> Sink<'t, 'input> {
    /// Opens a sink over the token stream and the event log of one parse.
    pub fn new(tokens: &'t Vec<Token<'input>>, events: Vec<Event>) -> (r: Sink<'t, 'input>)
        ensures
            r.tokens@ == tokens@,
            r.events@ == events@,
            r.cursor == 0,
            r.errors@.len() == 0,
            builder_wf(r.builder),
            r.builder.pos == 0,
            builder_text(r.builder) == Seq::<char>::empty(),
            builder_leaves(r.builder) == Seq::<(SyntaxKind, Seq<char>, int, int)>::empty(),
            r.builder.frames@.len() == 1,
            rstate(r) == (RState {
                gevs: evs_view(events@),
                frames: seq![
                    GFrame { kind: SyntaxKind::Root, open: 0, children: Seq::empty() },
                ],
                pos: 0,
                cursor: 0,
            }),
    {
        let r = Sink {
            builder: GreenNodeBuilder::new(),
            tokens,
            events,
            cursor: 0,
            errors: Vec::new(),
        };
        proof {
            assert(rstate(r) =~= (RState {
                gevs: evs_view(r.events@),
                frames: seq![
                    GFrame { kind: SyntaxKind::Root, open: 0, children: Seq::<GElem>::empty() },
                ],
                pos: 0,
                cursor: 0,
            }));
        }
        r
    }

    /// Appends the token at the cursor to the tree as a leaf.
    #[verifier::rlimit(100)]
    fn token(&mut self)
        requires
            builder_wf(old(self).builder),
            tokens_chained(old(self).tokens@),
            old(self).cursor < old(self).tokens@.len(),
            old(self).builder.pos == pos_at(old(self).tokens@, old(self).cursor as int),
            builder_text(old(self).builder) == concat_texts(
                old(self).tokens@.take(old(self).cursor as int),
            ),
            builder_leaves(old(self).builder) == token_leaf_views(
                old(self).tokens@.take(old(self).cursor as int),
            ),
        ensures
            builder_wf(final(self).builder),
            final(self).tokens@ == old(self).tokens@,
            final(self).events@ == old(self).events@,
            final(self).errors@ == old(self).errors@,
            final(self).cursor == old(self).cursor + 1,
            final(self).builder.pos == pos_at(final(self).tokens@, final(self).cursor as int),
            builder_text(final(self).builder) == concat_texts(
                final(self).tokens@.take(final(self).cursor as int),
            ),
            builder_leaves(final(self).builder) == token_leaf_views(
                final(self).tokens@.take(final(self).cursor as int),
            ),
            rstate(*final(self)) == rp_token(tviews(old(self).tokens@), rstate(*old(self))),
            final(self).builder.frames@.len() == old(self).builder.frames@.len(),
    {
        let n = self.tokens.len();
        let t = &self.tokens[self.cursor];
        let len = t.end - t.start;
        let text = t.text.to_owned();
        let kind = SyntaxKind::from_token(t.kind);
        proof {
            assert(self.builder.pos + len == t.end);
        }
        self.builder.token(kind, text, len);
        self.cursor = self.cursor + 1;
        proof {
            let toks = self.tokens@;
            let c = self.cursor as int;
            assert(toks.take(c).drop_last() =~= toks.take(c - 1));
            assert(toks.take(c).last() == toks[c - 1]);
            lemma_concat_texts_push(toks.take(c));
            assert(token_leaf_views(toks.take(c)) =~= token_leaf_views(toks.take(c - 1)).push(
                (
                    spec_from_token(toks[c - 1].kind),
                    toks[c - 1].text@,
                    toks[c - 1].start as int,
                    toks[c - 1].end as int,
                ),
            ));
            assert(tviews(toks)[c - 1] == (
                toks[c - 1].kind,
                toks[c - 1].text@,
                toks[c - 1].start as int,
                toks[c - 1].end as int,
            ));
            assert(rstate(*self) =~= rp_token(tviews(toks), rstate(*old(self))));
        }
    }

    /// Appends every trivia token waiting at the cursor.
    #[verifier::rlimit(100)]
    fn eat_trivia(&mut self)
        requires
            builder_wf(old(self).builder),
            tokens_chained(old(self).tokens@),
            old(self).cursor <= old(self).tokens@.len(),
            old(self).builder.pos == pos_at(old(self).tokens@, old(self).cursor as int),
            builder_text(old(self).builder) == concat_texts(
                old(self).tokens@.take(old(self).cursor as int),
            ),
            builder_leaves(old(self).builder) == token_leaf_views(
                old(self).tokens@.take(old(self).cursor as int),
            ),
        ensures
            builder_wf(final(self).builder),
            final(self).tokens@ == old(self).tokens@,
            final(self).events@ == old(self).events@,
            final(self).errors@ == old(self).errors@,
            old(self).cursor <= final(self).cursor <= final(self).tokens@.len(),
            final(self).builder.pos == pos_at(final(self).tokens@, final(self).cursor as int),
            builder_text(final(self).builder) == concat_texts(
                final(self).tokens@.take(final(self).cursor as int),
            ),
            builder_leaves(final(self).builder) == token_leaf_views(
                final(self).tokens@.take(final(self).cursor as int),
            ),
            final(self).cursor == final(self).tokens@.len() || !spec_is_trivia(
                final(self).tokens@[final(self).cursor as int].kind,
            ),
            nt_count(final(self).tokens@, final(self).cursor as int) == nt_count(
                old(self).tokens@,
                old(self).cursor as int,
            ),
            rstate(*final(self)) == rp_eat_trivia(tviews(old(self).tokens@), rstate(*old(self))),
            final(self).builder.frames@.len() == old(self).builder.frames@.len(),
        decreases old(self).tokens@.len() - old(self).cursor,
    {
        let n = self.tokens.len();
        proof {
            if self.cursor < n {
                assert(tviews(self.tokens@)[self.cursor as int].0
                    == self.tokens@[self.cursor as int].kind);
            }
        }
        if self.cursor < n && self.tokens[self.cursor].kind.is_trivia() {
            self.token();
            proof {
                assert(nt_count(self.tokens@, self.cursor as int) == nt_count(
                    self.tokens@,
                    self.cursor - 1,
                ));
            }
            self.eat_trivia();
        }
    }
}

/// Decomposes the suffix of an event log at `idx` into its first entry and
/// the rest, with the token count and errors split accordingly.
proof fn lemma_skip_decompose(evs: Seq<Event>, idx: int)
    requires
        0 <= idx < evs.len(),
    ensures
        count_addtok(evs.skip(idx)) == count_addtok(evs.skip(idx + 1)) + if evs[idx]
            is AddToken {
            1int
        } else {
            0int
        },
        errors_of(evs.skip(idx)) == (match evs[idx] {
            Event::Error(pe) => seq![pe],
            _ => Seq::<ParseError>::empty(),
        }) + errors_of(evs.skip(idx + 1)),
        count_addtok(evs.skip(idx + 1)) >= 0,
{
    let single = seq![evs[idx]];
    assert(evs.skip(idx) =~= single + evs.skip(idx + 1));
    lemma_count_addtok_concat(single, evs.skip(idx + 1));
    lemma_errors_of_concat(single, evs.skip(idx + 1));
    lemma_count_addtok_nonneg(evs.skip(idx + 1));
    assert(single.drop_last() =~= Seq::<Event>::empty());
    assert(single.last() == evs[idx]);
    assert(count_addtok(Seq::<Event>::empty()) == 0);
    assert(errors_of(Seq::<Event>::empty()) =~= Seq::<ParseError>::empty());
}

impl<'t, 'input> Sink<'t, 'input> {
    /// Handles one `Start` event: collects its kind and every kind on its
    /// forward-parent chain (consuming those chained starts), then opens
    /// the collected nodes outermost first, skipping tombstones.
    #[verifier::rlimit(100)]
    fn process_start(&mut self, idx: usize, kind: SyntaxKind, forward_parent: Option<usize>)
        requires
            idx < old(self).events@.len(),
            builder_wf(old(self).builder),
            evs_view(old(self).events@)[idx as int] == (GEvent::Start { kind, forward_parent }),
        ensures
            final(self).tokens@ == old(self).tokens@,
            final(self).cursor == old(self).cursor,
            final(self).errors@ == old(self).errors@,
            final(self).events@.len() == old(self).events@.len(),
            builder_wf(final(self).builder),
            final(self).builder.pos == old(self).builder.pos,
            builder_text(final(self).builder) == builder_text(old(self).builder),
            builder_leaves(final(self).builder) == builder_leaves(old(self).builder),
            count_addtok(final(self).events@.skip(idx + 1)) == count_addtok(
                old(self).events@.skip(idx + 1),
            ),
            errors_of(final(self).events@.skip(idx + 1)) == errors_of(
                old(self).events@.skip(idx + 1),
            ),
            ({
                let walked = rp_chain(
                    evs_view(old(self).events@),
                    idx as int,
                    forward_parent,
                    seq![kind],
                );
                evs_view(final(self).events@) == walked.0 && builder_gframes(final(self).builder)
                    == rp_open(
                    builder_gframes(old(self).builder),
                    old(self).builder.pos as int,
                    walked.1,
                )
            }),
    {
        let ghost pre = *old(self);
        let ghost target_chain = rp_chain(
            evs_view(pre.events@),
            idx as int,
            forward_parent,
            seq![kind],
        );
        let n = self.events.len();
        let mut kinds: Vec<SyntaxKind> = Vec::new();
        kinds.push(kind);
        proof {
            assert(kinds@ =~= seq![kind]);
            assert(evs_view(self.events@).len() == n);
        }
        let mut idx2 = idx;
        let mut fp = forward_parent;
        loop
            invariant_except_break
                target_chain == rp_chain(evs_view(self.events@), idx2 as int, fp, kinds@),
            invariant
                n == self.events@.len(),
                idx <= idx2 < n,
                self.tokens@ == pre.tokens@,
                self.cursor == pre.cursor,
                self.errors@ == pre.errors@,
                self.builder == pre.builder,
                count_addtok(self.events@.skip(idx + 1)) == count_addtok(
                    pre.events@.skip(idx + 1),
                ),
                errors_of(self.events@.skip(idx + 1)) == errors_of(pre.events@.skip(idx + 1)),
            ensures
                n == self.events@.len(),
                self.tokens@ == pre.tokens@,
                self.cursor == pre.cursor,
                self.errors@ == pre.errors@,
                self.builder == pre.builder,
                count_addtok(self.events@.skip(idx + 1)) == count_addtok(
                    pre.events@.skip(idx + 1),
                ),
                errors_of(self.events@.skip(idx + 1)) == errors_of(pre.events@.skip(idx + 1)),
                target_chain == (evs_view(self.events@), kinds@),
            decreases n - idx2,
        {
            proof {
                assert(evs_view(self.events@).len() == n);
            }
            match fp {
                Some(f) => {
                    if f == 0 || f > n - 1 - idx2 {
                        break ;
                    }
                    idx2 = idx2 + f;
                    let next_info: Option<(SyntaxKind, Option<usize>)> = match &self.events[idx2] {
                        Event::Start { kind, forward_parent } => Some((*kind, *forward_parent)),
                        _ => None,
                    };
                    proof {
                        assert(evs_view(self.events@)[idx2 as int] == ev_view(
                            self.events@[idx2 as int],
                        ));
                    }
                    match next_info {
                        Some((k2, f2)) => {
                            kinds.push(k2);
                            let ghost before = self.events@;
                            self.events[idx2] = Event::tombstone();
                            proof {
                                let tomb = Event::Start {
                                    kind: SyntaxKind::Tombstone,
                                    forward_parent: None::<usize>,
                                };
                                assert(self.events@.skip(idx + 1) =~= before.skip(idx + 1).update(
                                    idx2 - (idx + 1),
                                    tomb,
                                ));
                                lemma_count_addtok_update(
                                    before.skip(idx + 1),
                                    idx2 - (idx + 1),
                                    tomb,
                                );
                                lemma_errors_of_update(
                                    before.skip(idx + 1),
                                    idx2 - (idx + 1),
                                    tomb,
                                );
                                lemma_evs_view_update(before, idx2 as int, tomb);
                                assert(ev_view(tomb) == (GEvent::Start {
                                    kind: SyntaxKind::Tombstone,
                                    forward_parent: None::<usize>,
                                }));
                            }
                            fp = f2;
                        },
                        None => {
                            break ;
                        },
                    }
                },
                None => {
                    break ;
                },
            }
        }
        // Open the collected nodes, outermost (last-found) first.
        let ghost frames0 = builder_gframes(self.builder);
        let ghost pos0 = self.builder.pos as int;
        let mut ki = kinds.len();
        proof {
            assert(kinds@.take(ki as int) =~= kinds@);
        }
        while ki > 0
            invariant
                builder_wf(self.builder),
                self.builder.pos == pre.builder.pos,
                builder_text(self.builder) == builder_text(pre.builder),
                builder_leaves(self.builder) == builder_leaves(pre.builder),
                self.tokens@ == pre.tokens@,
                self.cursor == pre.cursor,
                self.errors@ == pre.errors@,
                count_addtok(self.events@.skip(idx + 1)) == count_addtok(
                    pre.events@.skip(idx + 1),
                ),
                errors_of(self.events@.skip(idx + 1)) == errors_of(pre.events@.skip(idx + 1)),
                n == self.events@.len(),
                ki <= kinds@.len(),
                target_chain == (evs_view(self.events@), kinds@),
                pos0 == self.builder.pos as int,
                rp_open(frames0, pos0, kinds@) == rp_open(
                    builder_gframes(self.builder),
                    pos0,
                    kinds@.take(ki as int),
                ),
            decreases ki,
        {
            ki = ki - 1;
            let k = kinds[ki];
            proof {
                assert(kinds@.take(ki + 1).last() == kinds@[ki as int]);
                assert(kinds@.take(ki + 1).drop_last() =~= kinds@.take(ki as int));
            }
            let is_tomb = matches!(k, SyntaxKind::Tombstone);
            if !is_tomb {
                self.builder.start_node(k);
            }
        }
        proof {
            assert(kinds@.take(0) =~= Seq::<SyntaxKind>::empty());
            assert(rp_open(frames0, pos0, kinds@) == builder_gframes(self.builder));
        }
    }

    /// Replays one `AddToken` event: appends the significant token waiting
    /// at the cursor.
    #[verifier::rlimit(100)]
    #[verifier::spinoff_prover]
    fn process_token(&mut self, idx: usize)
        requires
            idx < old(self).events@.len(),
            old(self).events@[idx as int] is AddToken,
            tokens_chained(old(self).tokens@),
            builder_wf(old(self).builder),
            old(self).cursor <= old(self).tokens@.len(),
            old(self).builder.pos == pos_at(old(self).tokens@, old(self).cursor as int),
            builder_text(old(self).builder) == concat_texts(
                old(self).tokens@.take(old(self).cursor as int),
            ),
            builder_leaves(old(self).builder) == token_leaf_views(
                old(self).tokens@.take(old(self).cursor as int),
            ),
            count_addtok(old(self).events@.skip(idx as int)) == nt_count(
                old(self).tokens@,
                old(self).tokens@.len() as int,
            ) - nt_count(old(self).tokens@, old(self).cursor as int),
            old(self).cursor == old(self).tokens@.len() || !spec_is_trivia(
                old(self).tokens@[old(self).cursor as int].kind,
            ),
        ensures
            final(self).tokens@ == old(self).tokens@,
            final(self).events@ == old(self).events@,
            final(self).errors@ == old(self).errors@,
            builder_wf(final(self).builder),
            final(self).cursor == old(self).cursor + 1 <= final(self).tokens@.len(),
            final(self).builder.pos == pos_at(final(self).tokens@, final(self).cursor as int),
            builder_text(final(self).builder) == concat_texts(
                final(self).tokens@.take(final(self).cursor as int),
            ),
            builder_leaves(final(self).builder) == token_leaf_views(
                final(self).tokens@.take(final(self).cursor as int),
            ),
            nt_count(final(self).tokens@, final(self).cursor as int) == nt_count(
                old(self).tokens@,
                old(self).cursor as int,
            ) + 1,
            rstate(*final(self)) == rp_token(tviews(old(self).tokens@), rstate(*old(self))),
    {
        let ghost toks = self.tokens@;
        proof {
            lemma_skip_decompose(self.events@, idx as int);
            assert(nt_count(toks, toks.len() as int) - nt_count(toks, self.cursor as int) >= 1);
            if self.cursor == toks.len() {
                assert(false);
            }
            assert(!spec_is_trivia(toks[self.cursor as int].kind));
        }
        self.token();
        proof {
            assert(nt_count(toks, self.cursor as int) == nt_count(toks, self.cursor - 1) + 1);
        }
    }

    /// Consumes one `Error` event, moving its diagnostic to the error list.
    fn take_error(&mut self, idx: usize)
        requires
            idx < old(self).events@.len(),
            old(self).events@[idx as int] is Error,
        ensures
            final(self).tokens@ == old(self).tokens@,
            final(self).cursor == old(self).cursor,
            final(self).builder == old(self).builder,
            final(self).events@ == old(self).events@.update(
                idx as int,
                Event::Start { kind: SyntaxKind::Tombstone, forward_parent: None::<usize> },
            ),
            final(self).errors@ == old(self).errors@ + errors_of(
                seq![old(self).events@[idx as int]],
            ),
            rstate(*final(self)) == (RState {
                gevs: evs_view(old(self).events@).update(
                    idx as int,
                    GEvent::Start { kind: SyntaxKind::Tombstone, forward_parent: None::<usize> },
                ),
                frames: builder_gframes(old(self).builder),
                pos: old(self).builder.pos as int,
                cursor: old(self).cursor as int,
            }),
    {
        let mut ev = Event::tombstone();
        core::mem::swap(&mut ev, &mut self.events[idx]);
        match ev {
            Event::Error(pe) => {
                proof {
                    let single = seq![old(self).events@[idx as int]];
                    assert(single.drop_last() =~= Seq::<Event>::empty());
                    assert(errors_of(Seq::<Event>::empty()) =~= Seq::<ParseError>::empty());
                    assert(errors_of(single) =~= seq![pe]);
                    assert(old(self).errors@.push(pe) =~= old(self).errors@ + seq![pe]);
                }
                self.errors.push(pe);
            },
            _ => {
                proof {
                    assert(false);
                }
            },
        }
        proof {
            lemma_evs_view_update(
                old(self).events@,
                idx as int,
                Event::Start { kind: SyntaxKind::Tombstone, forward_parent: None::<usize> },
            );
            assert(rstate(*self) =~= (RState {
                gevs: evs_view(old(self).events@).update(
                    idx as int,
                    GEvent::Start { kind: SyntaxKind::Tombstone, forward_parent: None::<usize> },
                ),
                frames: builder_gframes(old(self).builder),
                pos: old(self).builder.pos as int,
                cursor: old(self).cursor as int,
            }));
        }
    }

    /// Replays the event at `idx` and the trivia that follow it,
    /// maintaining the replay invariants.
    /// Acts on a `Start` event: the forward-parent chain is resolved and
    /// the collected nodes are opened.
    #[verifier::rlimit(100)]
    #[verifier::spinoff_prover]
    fn step_start(&mut self, idx: usize, kind: SyntaxKind, forward_parent: Option<usize>)
        requires
            idx < old(self).events@.len(),
            builder_wf(old(self).builder),
            evs_view(old(self).events@)[idx as int] == (GEvent::Start { kind, forward_parent }),
        ensures
            final(self).tokens@ == old(self).tokens@,
            final(self).cursor == old(self).cursor,
            final(self).errors@ == old(self).errors@,
            final(self).events@.len() == old(self).events@.len(),
            builder_wf(final(self).builder),
            final(self).builder.pos == old(self).builder.pos,
            builder_text(final(self).builder) == builder_text(old(self).builder),
            builder_leaves(final(self).builder) == builder_leaves(old(self).builder),
            count_addtok(final(self).events@.skip(idx + 1)) == count_addtok(
                old(self).events@.skip(idx + 1),
            ),
            errors_of(final(self).events@.skip(idx + 1)) == errors_of(
                old(self).events@.skip(idx + 1),
            ),
            final(self).errors@ + errors_of(final(self).events@.skip(idx + 1)) == old(self).errors@ + errors_of(old(self).events@.skip(idx as int)),
            rstate(*final(self)) == rp_act(
                tviews(old(self).tokens@),
                rstate(*old(self)),
                idx as int,
            ),
    {
        let ghost pre = *old(self);
        proof {
            lemma_skip_decompose(self.events@, idx as int);
        }
        self.process_start(idx, kind, forward_parent);
        proof {
            let single = seq![pre.events@[idx as int]];
            assert(single.drop_last() =~= Seq::<Event>::empty());
            assert(single.last() == pre.events@[idx as int]);
            assert(errors_of(Seq::<Event>::empty()) =~= Seq::<ParseError>::empty());
            assert(self.errors@ + errors_of(self.events@.skip(idx + 1)) =~= pre.errors@
                + errors_of(pre.events@.skip(idx as int)));
        }
        proof {
            assert(rstate(*self) =~= rp_act(
                tviews(pre.tokens@),
                rstate(pre),
                idx as int,
            )) by {
                reveal(rp_act);
            }
        }
    }

    /// Acts on an `AddToken` event.
    #[verifier::rlimit(100)]
    #[verifier::spinoff_prover]
    fn step_token(&mut self, idx: usize)
        requires
            idx < old(self).events@.len(),
            old(self).events@[idx as int] is AddToken,
            tokens_chained(old(self).tokens@),
            builder_wf(old(self).builder),
            old(self).cursor <= old(self).tokens@.len(),
            old(self).builder.pos == pos_at(old(self).tokens@, old(self).cursor as int),
            builder_text(old(self).builder) == concat_texts(
                old(self).tokens@.take(old(self).cursor as int),
            ),
            builder_leaves(old(self).builder) == token_leaf_views(
                old(self).tokens@.take(old(self).cursor as int),
            ),
            count_addtok(old(self).events@.skip(idx as int)) == nt_count(
                old(self).tokens@,
                old(self).tokens@.len() as int,
            ) - nt_count(old(self).tokens@, old(self).cursor as int),
            old(self).cursor == old(self).tokens@.len() || !spec_is_trivia(
                old(self).tokens@[old(self).cursor as int].kind,
            ),
        ensures
            final(self).tokens@ == old(self).tokens@,
            final(self).events@ == old(self).events@,
            final(self).errors@ == old(self).errors@,
            builder_wf(final(self).builder),
            final(self).cursor == old(self).cursor + 1 <= final(self).tokens@.len(),
            final(self).builder.pos == pos_at(final(self).tokens@, final(self).cursor as int),
            builder_text(final(self).builder) == concat_texts(
                final(self).tokens@.take(final(self).cursor as int),
            ),
            builder_leaves(final(self).builder) == token_leaf_views(
                final(self).tokens@.take(final(self).cursor as int),
            ),
            nt_count(final(self).tokens@, final(self).cursor as int) == nt_count(
                old(self).tokens@,
                old(self).cursor as int,
            ) + 1,
            final(self).errors@ + errors_of(final(self).events@.skip(idx + 1)) == old(self).errors@ + errors_of(old(self).events@.skip(idx as int)),
            rstate(*final(self)) == rp_act(
                tviews(old(self).tokens@),
                rstate(*old(self)),
                idx as int,
            ),
    {
        let ghost pre = *old(self);
        proof {
            lemma_skip_decompose(self.events@, idx as int);
        }
        self.process_token(idx);
        proof {
            let single = seq![pre.events@[idx as int]];
            assert(single.drop_last() =~= Seq::<Event>::empty());
            assert(single.last() == pre.events@[idx as int]);
            assert(errors_of(Seq::<Event>::empty()) =~= Seq::<ParseError>::empty());
            assert(self.errors@ + errors_of(self.events@.skip(idx + 1)) =~= pre.errors@
                + errors_of(pre.events@.skip(idx as int)));
        }
        proof {
            assert(evs_view(pre.events@)[idx as int] == ev_view(pre.events@[idx as int]));
            assert(rstate(*self) =~= rp_act(
                tviews(pre.tokens@),
                rstate(pre),
                idx as int,
            )) by {
                reveal(rp_act);
            }
        }
    }

    /// Acts on a `Finish` event: the innermost open node is closed.
    #[verifier::rlimit(100)]
    #[verifier::spinoff_prover]
    fn step_finish(&mut self, idx: usize)
        requires
            idx < old(self).events@.len(),
            old(self).events@[idx as int] is Finish,
            builder_wf(old(self).builder),
        ensures
            final(self).tokens@ == old(self).tokens@,
            final(self).events@ == old(self).events@,
            final(self).errors@ == old(self).errors@,
            final(self).cursor == old(self).cursor,
            builder_wf(final(self).builder),
            final(self).builder.pos == old(self).builder.pos,
            builder_text(final(self).builder) == builder_text(old(self).builder),
            builder_leaves(final(self).builder) == builder_leaves(old(self).builder),
            final(self).errors@ + errors_of(final(self).events@.skip(idx + 1)) == old(self).errors@ + errors_of(old(self).events@.skip(idx as int)),
            rstate(*final(self)) == rp_act(
                tviews(old(self).tokens@),
                rstate(*old(self)),
                idx as int,
            ),
    {
        let ghost pre = *old(self);
        proof {
            assert(builder_gframes(self.builder).len() == self.builder.frames@.len());
            assert(evs_view(pre.events@)[idx as int] == ev_view(pre.events@[idx as int]));
            lemma_skip_decompose(self.events@, idx as int);
        }
        self.builder.finish_node();
        proof {
            let single = seq![pre.events@[idx as int]];
            assert(single.drop_last() =~= Seq::<Event>::empty());
            assert(single.last() == pre.events@[idx as int]);
            assert(errors_of(Seq::<Event>::empty()) =~= Seq::<ParseError>::empty());
            assert(self.errors@ + errors_of(self.events@.skip(idx + 1)) =~= pre.errors@
                + errors_of(pre.events@.skip(idx as int)));
        }
        proof {
            assert(rstate(*self) =~= rp_act(
                tviews(pre.tokens@),
                rstate(pre),
                idx as int,
            )) by {
                reveal(rp_act);
            }
        }
    }

    /// Acts on an `Error` event: the diagnostic moves to the error list.
    #[verifier::rlimit(100)]
    #[verifier::spinoff_prover]
    fn step_error(&mut self, idx: usize)
        requires
            idx < old(self).events@.len(),
            old(self).events@[idx as int] is Error,
        ensures
            final(self).tokens@ == old(self).tokens@,
            final(self).events@.len() == old(self).events@.len(),
            final(self).cursor == old(self).cursor,
            final(self).builder == old(self).builder,
            final(self).events@.skip(idx + 1) == old(self).events@.skip(idx + 1),
            final(self).errors@ + errors_of(final(self).events@.skip(idx + 1)) == old(self).errors@ + errors_of(old(self).events@.skip(idx as int)),
            rstate(*final(self)) == rp_act(
                tviews(old(self).tokens@),
                rstate(*old(self)),
                idx as int,
            ),
    {
        let ghost pre = *old(self);
        proof {
            lemma_skip_decompose(self.events@, idx as int);
            assert(evs_view(pre.events@)[idx as int] == ev_view(pre.events@[idx as int]));
        }
        self.take_error(idx);
        proof {
            assert(self.events@.skip(idx + 1) =~= pre.events@.skip(idx + 1));
            let single = seq![pre.events@[idx as int]];
            assert(single.drop_last() =~= Seq::<Event>::empty());
            assert(single.last() == pre.events@[idx as int]);
            assert(errors_of(Seq::<Event>::empty()) =~= Seq::<ParseError>::empty());
            assert(self.errors@ + errors_of(self.events@.skip(idx + 1)) =~= pre.errors@
                + errors_of(pre.events@.skip(idx as int)));
            assert(rstate(*self) =~= rp_act(tviews(pre.tokens@), rstate(pre), idx as int)) by {
                reveal(rp_act);
            }
        }
    }

    /// Acts on the event at `idx`, maintaining the replay invariants;
    /// trivia handling follows separately.
    #[verifier::rlimit(100)]
    #[verifier::spinoff_prover]
    fn step_event(&mut self, idx: usize)
        requires
            idx < old(self).events@.len(),
            tokens_chained(old(self).tokens@),
            builder_wf(old(self).builder),
            old(self).cursor <= old(self).tokens@.len(),
            old(self).builder.pos == pos_at(old(self).tokens@, old(self).cursor as int),
            builder_text(old(self).builder) == concat_texts(
                old(self).tokens@.take(old(self).cursor as int),
            ),
            builder_leaves(old(self).builder) == token_leaf_views(
                old(self).tokens@.take(old(self).cursor as int),
            ),
            count_addtok(old(self).events@.skip(idx as int)) == nt_count(
                old(self).tokens@,
                old(self).tokens@.len() as int,
            ) - nt_count(old(self).tokens@, old(self).cursor as int),
            idx > 0 ==> (old(self).cursor == old(self).tokens@.len() || !spec_is_trivia(
                old(self).tokens@[old(self).cursor as int].kind,
            )),
            idx == 0 ==> old(self).cursor == 0 && !(old(self).events@[0] is AddToken),
        ensures
            final(self).tokens@ == old(self).tokens@,
            final(self).events@.len() == old(self).events@.len(),
            builder_wf(final(self).builder),
            final(self).cursor <= final(self).tokens@.len(),
            final(self).builder.pos == pos_at(final(self).tokens@, final(self).cursor as int),
            builder_text(final(self).builder) == concat_texts(
                final(self).tokens@.take(final(self).cursor as int),
            ),
            builder_leaves(final(self).builder) == token_leaf_views(
                final(self).tokens@.take(final(self).cursor as int),
            ),
            count_addtok(final(self).events@.skip(idx + 1)) == nt_count(
                final(self).tokens@,
                final(self).tokens@.len() as int,
            ) - nt_count(final(self).tokens@, final(self).cursor as int),
            final(self).errors@ + errors_of(final(self).events@.skip(idx + 1)) == old(self).errors@ + errors_of(old(self).events@.skip(idx as int)),
            rstate(*final(self)) == rp_act(
                tviews(old(self).tokens@),
                rstate(*old(self)),
                idx as int,
            ),
    {
        let ghost tv0 = tviews(old(self).tokens@);
        proof {
            lemma_skip_decompose(self.events@, idx as int);
            assert(evs_view(self.events@)[idx as int] == ev_view(self.events@[idx as int]));
        }
        let ghost pre = *old(self);
        let start_info: Option<(SyntaxKind, Option<usize>)> = match &self.events[idx] {
            Event::Start { kind, forward_parent } => Some((*kind, *forward_parent)),
            _ => None,
        };
        match start_info {
            Some((kind, forward_parent)) => {
                self.step_start(idx, kind, forward_parent);
                proof {
                    assert(!(pre.events@[idx as int] is AddToken));
                    assert(count_addtok(pre.events@.skip(idx as int)) == count_addtok(
                        pre.events@.skip(idx + 1),
                    ));
                    assert(count_addtok(self.events@.skip(idx + 1)) == count_addtok(
                        pre.events@.skip(idx + 1),
                    ));
                    assert(count_addtok(self.events@.skip(idx + 1)) == nt_count(
                        self.tokens@,
                        self.tokens@.len() as int,
                    ) - nt_count(self.tokens@, self.cursor as int));
                }
            },
            None => {
                let is_add = matches!(&self.events[idx], Event::AddToken);
                if is_add {
                    self.step_token(idx);
                    proof {
                        assert(pre.events@[idx as int] is AddToken);
                        assert(count_addtok(self.events@.skip(idx + 1)) == nt_count(
                            self.tokens@,
                            self.tokens@.len() as int,
                        ) - nt_count(self.tokens@, self.cursor as int));
                    }
                } else {
                    let is_fin = matches!(&self.events[idx], Event::Finish);
                    if is_fin {
                        self.step_finish(idx);
                        proof {
                            assert(!(pre.events@[idx as int] is AddToken));
                            assert(count_addtok(self.events@.skip(idx + 1)) == nt_count(
                                self.tokens@,
                                self.tokens@.len() as int,
                            ) - nt_count(self.tokens@, self.cursor as int));
                        }
                    } else {
                        self.step_error(idx);
                        proof {
                            assert(!(pre.events@[idx as int] is AddToken));
                            assert(self.events@.skip(idx + 1) =~= pre.events@.skip(idx + 1));
                            assert(count_addtok(self.events@.skip(idx + 1)) == nt_count(
                                self.tokens@,
                                self.tokens@.len() as int,
                            ) - nt_count(self.tokens@, self.cursor as int));
                        }
                    }
                }
            },
        }
    }

    /// Replays the event at `idx` and the trivia that follow it,
    /// maintaining the replay invariants.
    #[verifier::rlimit(100)]
    #[verifier::spinoff_prover]
    fn step(&mut self, idx: usize)
        requires
            idx < old(self).events@.len(),
            tokens_chained(old(self).tokens@),
            builder_wf(old(self).builder),
            old(self).cursor <= old(self).tokens@.len(),
            old(self).builder.pos == pos_at(old(self).tokens@, old(self).cursor as int),
            builder_text(old(self).builder) == concat_texts(
                old(self).tokens@.take(old(self).cursor as int),
            ),
            builder_leaves(old(self).builder) == token_leaf_views(
                old(self).tokens@.take(old(self).cursor as int),
            ),
            count_addtok(old(self).events@.skip(idx as int)) == nt_count(
                old(self).tokens@,
                old(self).tokens@.len() as int,
            ) - nt_count(old(self).tokens@, old(self).cursor as int),
            idx > 0 ==> (old(self).cursor == old(self).tokens@.len() || !spec_is_trivia(
                old(self).tokens@[old(self).cursor as int].kind,
            )),
            idx == 0 ==> old(self).cursor == 0 && !(old(self).events@[0] is AddToken),
        ensures
            final(self).tokens@ == old(self).tokens@,
            final(self).events@.len() == old(self).events@.len(),
            builder_wf(final(self).builder),
            final(self).cursor <= final(self).tokens@.len(),
            final(self).builder.pos == pos_at(final(self).tokens@, final(self).cursor as int),
            builder_text(final(self).builder) == concat_texts(
                final(self).tokens@.take(final(self).cursor as int),
            ),
            builder_leaves(final(self).builder) == token_leaf_views(
                final(self).tokens@.take(final(self).cursor as int),
            ),
            count_addtok(final(self).events@.skip(idx + 1)) == nt_count(
                final(self).tokens@,
                final(self).tokens@.len() as int,
            ) - nt_count(final(self).tokens@, final(self).cursor as int),
            final(self).errors@ + errors_of(final(self).events@.skip(idx + 1)) == old(self).errors@ + errors_of(old(self).events@.skip(idx as int)),
            final(self).cursor == final(self).tokens@.len() || !spec_is_trivia(
                final(self).tokens@[final(self).cursor as int].kind,
            ),
            rstate(*final(self)) == rp_step(
                tviews(old(self).tokens@),
                rstate(*old(self)),
                idx as int,
            ),
    {
        self.step_event(idx);
        self.eat_trivia();
    }

    /// Replays the whole event log and returns the finished tree together
    /// with the collected errors.
    ///
    /// Requires the guarantees the parser gives about its output: the log
    /// holds one `AddToken` entry per significant token of the stream, and
    /// does not begin with one. The tree that comes out is well formed and
    /// its leaves are exactly the token stream: its text is the
    /// concatenation of all token texts. The errors are those recorded in
    /// the log, in order.
    #[verifier::rlimit(100)]
    #[verifier::spinoff_prover]
    /// Replays every event of the log in order.
    #[verifier::rlimit(100)]
    #[verifier::spinoff_prover]
    fn run_events(&mut self)
        requires
            builder_wf(old(self).builder),
            old(self).builder.pos == 0,
            builder_text(old(self).builder) == Seq::<char>::empty(),
            builder_leaves(old(self).builder) == Seq::<
                (SyntaxKind, Seq<char>, int, int),
            >::empty(),
            rstate(*old(self)) == (RState {
                gevs: evs_view(old(self).events@),
                frames: seq![
                    GFrame { kind: SyntaxKind::Root, open: 0, children: Seq::empty() },
                ],
                pos: 0,
                cursor: 0,
            }),
            old(self).cursor == 0,
            old(self).errors@.len() == 0,
            tokens_chained(old(self).tokens@),
            count_addtok(old(self).events@) == nt_count(
                old(self).tokens@,
                old(self).tokens@.len() as int,
            ),
            old(self).events@.len() > 0,
            !(old(self).events@[0] is AddToken),
        ensures
            final(self).tokens@ == old(self).tokens@,
            builder_wf(final(self).builder),
            final(self).cursor == final(self).tokens@.len(),
            builder_text(final(self).builder) == concat_texts(final(self).tokens@),
            builder_leaves(final(self).builder) == token_leaf_views(final(self).tokens@),
            final(self).errors@ == errors_of(old(self).events@),
            rstate(*final(self)) == rp_run_to(
                tviews(old(self).tokens@),
                RState {
                    gevs: evs_view(old(self).events@),
                    frames: seq![
                        GFrame { kind: SyntaxKind::Root, open: 0, children: Seq::empty() },
                    ],
                    pos: 0,
                    cursor: 0,
                },
                old(self).events@.len() as int,
            ),
    {
        let ghost evs0 = self.events@;
        let ghost toks = self.tokens@;
        let ghost tv0 = tviews(self.tokens@);
        let ghost r0 = rstate(*self);
        let n = self.events.len();
        proof {
            assert(self.events@.skip(0) =~= evs0);
            assert(toks.take(0) =~= Seq::<Token<'_>>::empty());
            assert(concat_texts(toks.take(0)) =~= Seq::<char>::empty());
            assert(token_leaf_views(toks.take(0)) =~= Seq::<
                (SyntaxKind, Seq<char>, int, int),
            >::empty());
            assert(builder_leaves(self.builder) =~= token_leaf_views(toks.take(0)));
            assert(self.errors@ + errors_of(self.events@.skip(0)) =~= errors_of(evs0));
            assert(rstate(*self) == rp_run_to(tv0, r0, 0));
        }
        let mut idx: usize = 0;
        while idx < n
            invariant
                n == self.events@.len(),
                evs0.len() == n,
                n > 0,
                toks == self.tokens@,
                tv0 == tviews(toks),
                tokens_chained(toks),
                builder_wf(self.builder),
                self.cursor <= toks.len(),
                self.builder.pos == pos_at(toks, self.cursor as int),
                builder_text(self.builder) == concat_texts(toks.take(self.cursor as int)),
                builder_leaves(self.builder) == token_leaf_views(toks.take(self.cursor as int)),
                count_addtok(self.events@.skip(idx as int)) == nt_count(toks, toks.len() as int)
                    - nt_count(toks, self.cursor as int),
                self.errors@ + errors_of(self.events@.skip(idx as int)) == errors_of(evs0),
                rstate(*self) == rp_run_to(tv0, r0, idx as int),
                idx > 0 ==> (self.cursor == toks.len() || !spec_is_trivia(
                    toks[self.cursor as int].kind,
                )),
                idx == 0 ==> self.cursor == 0 && !(self.events@[0] is AddToken),
                idx <= n,
            decreases n - idx,
        {
            self.step(idx);
            idx = idx + 1;
            proof {
                assert(rstate(*self) == rp_run_to(tv0, r0, idx as int));
            }
        }
        proof {
            assert(self.events@.skip(n as int) =~= Seq::<Event>::empty());
            assert(count_addtok(Seq::<Event>::empty()) == 0);
            assert(errors_of(Seq::<Event>::empty()) =~= Seq::<ParseError>::empty());
            if self.cursor < toks.len() {
                assert(!spec_is_trivia(toks[self.cursor as int].kind));
                assert(nt_count(toks, self.cursor + 1) == nt_count(toks, self.cursor as int) + 1);
                lemma_nt_count_mono(toks, self.cursor + 1, toks.len() as int);
                assert(false);
            }
            assert(self.cursor == toks.len());
            assert(toks.take(toks.len() as int) =~= toks);
            assert(token_leaf_views(toks.take(toks.len() as int)) == token_leaf_views(toks));
            assert(self.errors@ + errors_of(self.events@.skip(n as int)) =~= self.errors@);
        }
    }

    /// Replays the whole event log and returns the finished tree together
    /// with the collected errors.
    ///
    /// Requires the guarantees the parser gives about its output: the log
    /// holds one `AddToken` entry per significant token of the stream, and
    /// does not begin with one. The tree that comes out is well formed,
    /// carries the `Root` tag, is exactly the replay of the event log over
    /// the token stream, and its leaves are exactly the token stream, so
    /// its text is the concatenation of all token texts. The errors are
    /// those recorded in the log, in order.
    #[verifier::rlimit(100)]
    #[verifier::spinoff_prover]
    pub fn finish(self) -> (r: (SyntaxNode, Vec<ParseError>))
        requires
            builder_wf(self.builder),
            self.builder.pos == 0,
            builder_text(self.builder) == Seq::<char>::empty(),
            builder_leaves(self.builder) == Seq::<(SyntaxKind, Seq<char>, int, int)>::empty(),
            rstate(self) == (RState {
                gevs: evs_view(self.events@),
                frames: seq![
                    GFrame { kind: SyntaxKind::Root, open: 0, children: Seq::empty() },
                ],
                pos: 0,
                cursor: 0,
            }),
            self.cursor == 0,
            self.errors@.len() == 0,
            tokens_chained(self.tokens@),
            count_addtok(self.events@) == nt_count(self.tokens@, self.tokens@.len() as int),
            self.events@.len() > 0,
            !(self.events@[0] is AddToken),
        ensures
            node_wf(r.0),
            r.0.kind == SyntaxKind::Root,
            r.0.start == 0,
            node_text(r.0) == concat_texts(self.tokens@),
            node_leaves(r.0) == token_leaf_views(self.tokens@),
            node_gview(r.0) == sp_replay(tviews(self.tokens@), evs_view(self.events@)),
            r.1@ == errors_of(self.events@),
    {
        let ghost evs0 = self.events@;
        let ghost tv0 = tviews(self.tokens@);
        let mut sink = self;
        sink.run_events();
        let root = sink.builder.finish();
        proof {
            assert(node_gview(root) == sp_replay(tv0, evs_view(evs0)));
        }
        (root, sink.errors)
    }
}

} // verus!
