//! The mathematical view of trees and of the builder, and the replay of an
//! event log into a tree: the structural analogue of the text and error
//! bookkeeping, defining exactly which tree a parse produces.
use vstd::prelude::*;
use crate::event::GEvent;
use crate::lexer::Token;
use crate::syntax_kind::{SyntaxKind, spec_from_token};
use crate::token_kind::{TokenKind, spec_is_trivia};
use crate::tree::{Frame, GreenNodeBuilder, SyntaxElement, SyntaxNode};

verus! {

// ---------------------------------------------------------------------------
// The mathematical view of a tree.
// ---------------------------------------------------------------------------
/// The mathematical view of one child: a token with its fields as
/// mathematical values, or a nested node.
pub enum GElem {
    Token { kind: SyntaxKind, text: Seq<char>, start: int, end: int },
    Node(GNode),
}

/// The mathematical view of a node.
pub struct GNode {
    pub kind: SyntaxKind,
    pub start: int,
    pub end: int,
    pub children: Seq<GElem>,
}

/// View of one element.
pub open spec fn elem_gview(e: SyntaxElement) -> GElem
    decreases e,
{
    match e {
        SyntaxElement::Token(t) => GElem::Token {
            kind: t.kind,
            text: t.text@,
            start: t.start as int,
            end: t.end as int,
        },
        SyntaxElement::Node(n) => GElem::Node(node_gview(n)),
    }
}

/// View of a sequence of elements.
pub open spec fn elems_gview(s: Seq<SyntaxElement>) -> Seq<GElem>
    decreases s,
{
    if s.len() == 0 {
        Seq::empty()
    } else {
        seq![elem_gview(s[0])] + elems_gview(s.drop_first())
    }
}

/// View of a whole node.
pub open spec fn node_gview(n: SyntaxNode) -> GNode
    decreases n,
{
    GNode {
        kind: n.kind,
        start: n.start as int,
        end: n.end as int,
        children: elems_gview(n.children@),
    }
}

/// The view of a sequence indexes elementwise.
pub proof fn lemma_elems_gview_index(s: Seq<SyntaxElement>, i: int)
    requires
        0 <= i < s.len(),
    ensures
        elems_gview(s).len() == s.len(),
        elems_gview(s)[i] == elem_gview(s[i]),
    decreases s.len(),
{
    lemma_elems_gview_len(s);
    if i > 0 {
        lemma_elems_gview_index(s.drop_first(), i - 1);
        assert(s.drop_first()[i - 1] == s[i]);
    }
}

/// The view preserves length.
pub proof fn lemma_elems_gview_len(s: Seq<SyntaxElement>)
    ensures
        elems_gview(s).len() == s.len(),
    decreases s.len(),
{
    if s.len() > 0 {
        lemma_elems_gview_len(s.drop_first());
    }
}

/// The view commutes with appending an element.
pub proof fn lemma_elems_gview_push(s: Seq<SyntaxElement>, e: SyntaxElement)
    ensures
        elems_gview(s.push(e)) == elems_gview(s).push(elem_gview(e)),
{
    lemma_elems_gview_len(s.push(e));
    lemma_elems_gview_len(s);
    assert forall|i: int| 0 <= i < s.push(e).len() implies elems_gview(s.push(e))[i]
        == elems_gview(s).push(elem_gview(e))[i] by {
        lemma_elems_gview_index(s.push(e), i);
        if i < s.len() {
            lemma_elems_gview_index(s, i);
            assert(s.push(e)[i] == s[i]);
        } else {
            assert(s.push(e)[i] == e);
        }
    }
    assert(elems_gview(s.push(e)) =~= elems_gview(s).push(elem_gview(e)));
}

// ---------------------------------------------------------------------------
// The mathematical view of the builder.
// ---------------------------------------------------------------------------
/// The mathematical view of one open frame.
pub struct GFrame {
    pub kind: SyntaxKind,
    pub open: int,
    pub children: Seq<GElem>,
}

/// View of one frame.
pub open spec fn frame_gview(f: Frame) -> GFrame {
    GFrame { kind: f.kind, open: f.open as int, children: elems_gview(f.children@) }
}

/// View of the builder's open frames, outermost first.
pub open spec fn builder_gframes(b: GreenNodeBuilder) -> Seq<GFrame> {
    b.frames@.map_values(|f: Frame| frame_gview(f))
}

/// One fold step of the frame stack: the top frame is wrapped into a node
/// appended to its parent.
pub open spec fn gfinish_node(frames: Seq<GFrame>, pos: int) -> Seq<GFrame> {
    let f = frames.last();
    let parent = frames[frames.len() - 2];
    frames.drop_last().update(
        frames.len() - 2,
        GFrame {
            kind: parent.kind,
            open: parent.open,
            children: parent.children.push(
                GElem::Node(GNode { kind: f.kind, start: f.open, end: pos, children: f.children }),
            ),
        },
    )
}

/// Folds the stack down to its base frame.
pub open spec fn gfold(frames: Seq<GFrame>, pos: int) -> Seq<GFrame>
    decreases frames.len(),
{
    if frames.len() <= 1 {
        frames
    } else {
        gfold(gfinish_node(frames, pos), pos)
    }
}

/// The tree a builder state finishes into: the stack folded to its base;
/// a lone completed `Root` child is the tree itself, anything else is
/// wrapped in a `Root` node.
pub open spec fn builder_final(frames: Seq<GFrame>, pos: int) -> GNode {
    let base = gfold(frames, pos)[0];
    if base.children.len() == 1 && base.children[0] is Node && base.children[0]->Node_0.kind
        == SyntaxKind::Root {
        base.children[0]->Node_0
    } else {
        GNode { kind: SyntaxKind::Root, start: 0, end: pos, children: base.children }
    }
}

/// Wrapping the top frame into its parent acts on the frame views as one
/// fold step.
pub proof fn lemma_gframes_wrap(old_fs: Seq<Frame>, new_fs: Seq<Frame>, n: SyntaxNode, pos: int)
    requires
        old_fs.len() >= 2,
        new_fs.len() == old_fs.len() - 1,
        new_fs.drop_last() == old_fs.drop_last().drop_last(),
        new_fs.last().kind == old_fs[old_fs.len() - 2].kind,
        new_fs.last().open == old_fs[old_fs.len() - 2].open,
        new_fs.last().children@ == old_fs[old_fs.len() - 2].children@.push(
            SyntaxElement::Node(n),
        ),
        n.kind == old_fs.last().kind,
        n.start == old_fs.last().open,
        n.end as int == pos,
        n.children@ == old_fs.last().children@,
    ensures
        new_fs.map_values(|f: Frame| frame_gview(f)) == gfinish_node(
            old_fs.map_values(|f: Frame| frame_gview(f)),
            pos,
        ),
{
    let old_g = old_fs.map_values(|f: Frame| frame_gview(f));
    let new_g = new_fs.map_values(|f: Frame| frame_gview(f));
    lemma_elems_gview_push(
        old_fs[old_fs.len() - 2].children@,
        SyntaxElement::Node(n),
    );
    assert(elem_gview(SyntaxElement::Node(n)) == GElem::Node(
        GNode {
            kind: old_g.last().kind,
            start: old_g.last().open,
            end: pos,
            children: old_g.last().children,
        },
    ));
    assert forall|i: int| 0 <= i < new_g.len() implies new_g[i] == gfinish_node(old_g, pos)[i] by {
        if i < new_g.len() - 1 {
            assert(new_fs[i] == new_fs.drop_last()[i]);
            assert(old_fs[i] == old_fs.drop_last().drop_last()[i]);
        }
    }
    assert(new_g =~= gfinish_node(old_g, pos));
}

/// Appending a token to the top frame acts on the frame views as a push
/// onto the top frame's children.
pub proof fn lemma_gframes_token(
    old_fs: Seq<Frame>,
    new_fs: Seq<Frame>,
    e: SyntaxElement,
    g: GElem,
)
    requires
        old_fs.len() >= 1,
        new_fs.len() == old_fs.len(),
        new_fs.drop_last() == old_fs.drop_last(),
        new_fs.last().kind == old_fs.last().kind,
        new_fs.last().open == old_fs.last().open,
        new_fs.last().children@ == old_fs.last().children@.push(e),
        elem_gview(e) == g,
    ensures
        new_fs.map_values(|f: Frame| frame_gview(f)) == old_fs.map_values(
            |f: Frame| frame_gview(f),
        ).update(
            old_fs.len() - 1,
            GFrame {
                kind: frame_gview(old_fs.last()).kind,
                open: frame_gview(old_fs.last()).open,
                children: frame_gview(old_fs.last()).children.push(g),
            },
        ),
{
    let old_g = old_fs.map_values(|f: Frame| frame_gview(f));
    let new_g = new_fs.map_values(|f: Frame| frame_gview(f));
    lemma_elems_gview_push(old_fs.last().children@, e);
    assert forall|i: int| 0 <= i < new_g.len() implies new_g[i] == old_g.update(
        old_fs.len() - 1,
        GFrame {
            kind: frame_gview(old_fs.last()).kind,
            open: frame_gview(old_fs.last()).open,
            children: frame_gview(old_fs.last()).children.push(g),
        },
    )[i] by {
        if i < new_g.len() - 1 {
            assert(new_fs[i] == new_fs.drop_last()[i]);
            assert(old_fs[i] == old_fs.drop_last()[i]);
        }
    }
    assert(new_g =~= old_g.update(
        old_fs.len() - 1,
        GFrame {
            kind: frame_gview(old_fs.last()).kind,
            open: frame_gview(old_fs.last()).open,
            children: frame_gview(old_fs.last()).children.push(g),
        },
    ));
}

// ---------------------------------------------------------------------------
// Replaying an event log into a tree.
// ---------------------------------------------------------------------------
/// The view of a token stream the replay consumes: kind, text, and span of
/// each token.
pub open spec fn tviews(toks: Seq<Token<'_>>) -> Seq<(TokenKind, Seq<char>, int, int)> {
    toks.map_values(|t: Token<'_>| (t.kind, t.text@, t.start as int, t.end as int))
}

/// The replay state: the event log (consumed chain entries become
/// tombstones), the open frames, the building position, and the token
/// cursor.
#[verifier::ext_equal]
pub struct RState {
    pub gevs: Seq<GEvent>,
    pub frames: Seq<GFrame>,
    pub pos: int,
    pub cursor: int,
}

/// One token is appended to the innermost open frame as a leaf.
pub open spec fn rp_token(tv: Seq<(TokenKind, Seq<char>, int, int)>, s: RState) -> RState {
    let t = tv[s.cursor];
    let top = s.frames.last();
    RState {
        gevs: s.gevs,
        frames: s.frames.update(
            s.frames.len() - 1,
            GFrame {
                kind: top.kind,
                open: top.open,
                children: top.children.push(
                    GElem::Token {
                        kind: spec_from_token(t.0),
                        text: t.1,
                        start: s.pos,
                        end: s.pos + (t.3 - t.2),
                    },
                ),
            },
        ),
        pos: s.pos + (t.3 - t.2),
        cursor: s.cursor + 1,
    }
}

/// Every trivia token waiting at the cursor is appended.
pub open spec fn rp_eat_trivia(tv: Seq<(TokenKind, Seq<char>, int, int)>, s: RState) -> RState
    decreases tv.len() - s.cursor,
{
    if 0 <= s.cursor < tv.len() && spec_is_trivia(tv[s.cursor].0) {
        rp_eat_trivia(tv, rp_token(tv, s))
    } else {
        s
    }
}

/// Walking a forward-parent chain: each hop consumes the start entry it
/// lands on (leaving a tombstone) and collects its kind; a zero or
/// out-of-range offset, or a slot that is not a start entry, ends the walk.
pub open spec fn rp_chain(
    gevs: Seq<GEvent>,
    idx: int,
    fp: Option<usize>,
    kinds: Seq<SyntaxKind>,
) -> (Seq<GEvent>, Seq<SyntaxKind>)
    decreases gevs.len() - idx,
{
    match fp {
        None => (gevs, kinds),
        Some(f) => {
            if f == 0 || idx + f >= gevs.len() || idx < 0 {
                (gevs, kinds)
            } else {
                let j = idx + f;
                match gevs[j] {
                    GEvent::Start { kind, forward_parent } => rp_chain(
                        gevs.update(
                            j,
                            GEvent::Start { kind: SyntaxKind::Tombstone, forward_parent: None },
                        ),
                        j,
                        forward_parent,
                        kinds.push(kind),
                    ),
                    _ => (gevs, kinds),
                }
            }
        },
    }
}

/// The collected kinds are opened in reverse order (outermost, i.e.
/// latest-collected, first), tombstones opening nothing.
pub open spec fn rp_open(frames: Seq<GFrame>, pos: int, kinds: Seq<SyntaxKind>) -> Seq<GFrame>
    decreases kinds.len(),
{
    if kinds.len() == 0 {
        frames
    } else {
        let k = kinds.last();
        rp_open(
            if k == SyntaxKind::Tombstone {
                frames
            } else {
                frames.push(GFrame { kind: k, open: pos, children: Seq::empty() })
            },
            pos,
            kinds.drop_last(),
        )
    }
}

/// The action of the event at `idx`, before trivia are appended.
#[verifier::opaque]
pub open spec fn rp_act(
    tv: Seq<(TokenKind, Seq<char>, int, int)>,
    s: RState,
    idx: int,
) -> RState {
    match s.gevs[idx] {
        GEvent::Start { kind, forward_parent } => {
            let walked = rp_chain(s.gevs, idx, forward_parent, seq![kind]);
            RState {
                gevs: walked.0,
                frames: rp_open(s.frames, s.pos, walked.1),
                pos: s.pos,
                cursor: s.cursor,
            }
        },
        GEvent::AddToken => rp_token(tv, s),
        GEvent::Finish => RState {
            gevs: s.gevs,
            frames: if s.frames.len() > 1 {
                gfinish_node(s.frames, s.pos)
            } else {
                s.frames
            },
            pos: s.pos,
            cursor: s.cursor,
        },
        GEvent::Error { expected, found, start, end } => RState {
            gevs: s.gevs.update(
                idx,
                GEvent::Start { kind: SyntaxKind::Tombstone, forward_parent: None },
            ),
            frames: s.frames,
            pos: s.pos,
            cursor: s.cursor,
        },
    }
}

/// One replay step: the event at `idx` is acted on, then waiting trivia
/// are appended.
pub open spec fn rp_step(
    tv: Seq<(TokenKind, Seq<char>, int, int)>,
    s: RState,
    idx: int,
) -> RState {
    rp_eat_trivia(tv, rp_act(tv, s, idx))
}

/// The first `k` replay steps, in order.
pub open spec fn rp_run_to(
    tv: Seq<(TokenKind, Seq<char>, int, int)>,
    s0: RState,
    k: int,
) -> RState
    decreases k,
{
    if k <= 0 {
        s0
    } else {
        rp_step(tv, rp_run_to(tv, s0, k - 1), k - 1)
    }
}

/// The tree an event log replays into over a token stream: every event is
/// acted on in order, and the finished frames fold into the root.
pub open spec fn sp_replay(
    tv: Seq<(TokenKind, Seq<char>, int, int)>,
    gevs: Seq<GEvent>,
) -> GNode {
    let s0 = RState {
        gevs,
        frames: seq![GFrame { kind: SyntaxKind::Root, open: 0, children: Seq::empty() }],
        pos: 0,
        cursor: 0,
    };
    let fin = rp_run_to(tv, s0, gevs.len() as int);
    builder_final(fin.frames, fin.pos)
}

} // verus!
