//! The lossless syntax tree: an immutable tree of nodes and tokens in which
//! every character of the source appears exactly once, plus the builder the
//! tree sink drives.
use vstd::prelude::*;
use vstd::string::StringExecFns;
use crate::replay::{
    GElem,
    GFrame,
    builder_final,
    frame_gview,
    node_gview,
    elem_gview,
    elems_gview,
    builder_gframes,
    gfinish_node,
    gfold,
};
use crate::syntax_kind::SyntaxKind;

verus! {

/// A leaf of the tree: a token with its text and character span.
#[derive(Debug)]
pub struct SyntaxToken {
    pub kind: SyntaxKind,
    pub text: String,
    pub start: usize,
    pub end: usize,
}

/// A child of a node: either a leaf token or a nested node.
#[derive(Debug)]
pub enum SyntaxElement {
    Token(SyntaxToken),
    Node(SyntaxNode),
}

/// An interior node: a kind tag, a character span, and the children that
/// tile that span.
#[derive(Debug)]
pub struct SyntaxNode {
    pub kind: SyntaxKind,
    pub start: usize,
    pub end: usize,
    pub children: Vec<SyntaxElement>,
}

// ---------------------------------------------------------------------------
// Text of a tree.
// ---------------------------------------------------------------------------
/// The source text covered by an element.
pub open spec fn elem_text(e: SyntaxElement) -> Seq<char>
    decreases e,
{
    match e {
        SyntaxElement::Token(t) => t.text@,
        SyntaxElement::Node(n) => node_text(n),
    }
}

/// The concatenated text of a sequence of elements.
pub open spec fn elems_text(s: Seq<SyntaxElement>) -> Seq<char>
    decreases s,
{
    if s.len() == 0 {
        Seq::empty()
    } else {
        elem_text(s[0]) + elems_text(s.drop_first())
    }
}

/// The source text covered by a node: the text of its children in order.
pub open spec fn node_text(n: SyntaxNode) -> Seq<char>
    decreases n,
{
    elems_text(n.children@)
}

/// Splitting off the last element splits its text off the end.
pub proof fn lemma_elems_text_push(s: Seq<SyntaxElement>)
    requires
        s.len() > 0,
    ensures
        elems_text(s) == elems_text(s.drop_last()) + elem_text(s.last()),
    decreases s.len(),
{
    assert(elems_text(s) == elem_text(s[0]) + elems_text(s.drop_first()));
    if s.len() == 1 {
        assert(elems_text(s.drop_first()) =~= Seq::<char>::empty());
        assert(elems_text(s.drop_last()) =~= Seq::<char>::empty());
        assert(s.last() == s[0]);
        assert(elems_text(s) =~= elems_text(s.drop_last()) + elem_text(s.last()));
    } else {
        lemma_elems_text_push(s.drop_first());
        assert(s.drop_first().drop_last() == s.drop_last().drop_first());
        assert(s.drop_first().last() == s.last());
        assert(elems_text(s.drop_last()) == elem_text(s.drop_last()[0]) + elems_text(
            s.drop_last().drop_first(),
        ));
        assert(s.drop_last()[0] == s[0]);
        assert(elems_text(s) =~= elems_text(s.drop_last()) + elem_text(s.last()));
    }
}

// ---------------------------------------------------------------------------
// Well-formedness: spans are consistent with texts and tile each node.
// ---------------------------------------------------------------------------
/// Start position of an element.
pub open spec fn elem_start(e: SyntaxElement) -> int {
    match e {
        SyntaxElement::Token(t) => t.start as int,
        SyntaxElement::Node(n) => n.start as int,
    }
}

/// End position of an element.
pub open spec fn elem_end(e: SyntaxElement) -> int {
    match e {
        SyntaxElement::Token(t) => t.end as int,
        SyntaxElement::Node(n) => n.end as int,
    }
}

/// An element is well formed: its span length equals its text length, and
/// a node's children tile its span.
pub open spec fn elem_wf(e: SyntaxElement) -> bool
    decreases e,
{
    match e {
        SyntaxElement::Token(t) => t.start <= t.end && t.text@.len() == t.end - t.start,
        SyntaxElement::Node(n) => node_wf(n),
    }
}

/// The elements of `s` are well formed and tile `[from, to)` exactly,
/// in order and without gaps.
pub open spec fn elems_wf_chain(s: Seq<SyntaxElement>, from: int, to: int) -> bool
    decreases s,
{
    if s.len() == 0 {
        from == to
    } else {
        &&& elem_wf(s[0])
        &&& elem_start(s[0]) == from
        &&& elems_wf_chain(s.drop_first(), elem_end(s[0]), to)
    }
}

/// A node is well formed: its children are well formed and tile its span.
pub open spec fn node_wf(n: SyntaxNode) -> bool
    decreases n,
{
    elems_wf_chain(n.children@, n.start as int, n.end as int)
}

/// A well-formed chain covers text of exactly its span's length.
pub proof fn lemma_chain_text_len(s: Seq<SyntaxElement>, from: int, to: int)
    requires
        elems_wf_chain(s, from, to),
    ensures
        from <= to,
        elems_text(s).len() == to - from,
    decreases s,
{
    if s.len() > 0 {
        lemma_elem_text_len(s[0]);
        lemma_chain_text_len(s.drop_first(), elem_end(s[0]), to);
    }
}

/// A well-formed element covers text of exactly its span's length.
pub proof fn lemma_elem_text_len(e: SyntaxElement)
    requires
        elem_wf(e),
    ensures
        elem_start(e) <= elem_end(e),
        elem_text(e).len() == elem_end(e) - elem_start(e),
    decreases e,
{
    match e {
        SyntaxElement::Token(t) => {},
        SyntaxElement::Node(n) => {
            lemma_chain_text_len(n.children@, n.start as int, n.end as int);
        },
    }
}

/// Extending a chain with one adjacent well-formed element keeps it a chain.
pub proof fn lemma_chain_push(s: Seq<SyntaxElement>, from: int, to: int, e: SyntaxElement)
    requires
        elems_wf_chain(s, from, to),
        elem_wf(e),
        elem_start(e) == to,
    ensures
        elems_wf_chain(s.push(e), from, elem_end(e)),
    decreases s,
{
    if s.len() == 0 {
        assert(from == to);
        assert(s.push(e)[0] == e);
        assert(s.push(e).drop_first() =~= Seq::<SyntaxElement>::empty());
        assert(elems_wf_chain(s.push(e).drop_first(), elem_end(e), elem_end(e)));
    } else {
        lemma_chain_push(s.drop_first(), elem_end(s[0]), to, e);
        assert(s.push(e)[0] == s[0]);
        assert(s.push(e).drop_first() =~= s.drop_first().push(e));
        assert(elems_wf_chain(s.push(e).drop_first(), elem_end(s[0]), elem_end(e)));
        assert(elem_wf(s.push(e)[0]));
        assert(elem_start(s.push(e)[0]) == from);
    }
}

/// Text splits off the end of a pushed chain.
pub proof fn lemma_elems_text_push_eq(s: Seq<SyntaxElement>, e: SyntaxElement)
    ensures
        elems_text(s.push(e)) == elems_text(s) + elem_text(e),
{
    lemma_elems_text_push(s.push(e));
    assert(s.push(e).drop_last() =~= s);
    assert(s.push(e).last() == e);
}

// ---------------------------------------------------------------------------
// Accessors.
// ---------------------------------------------------------------------------
impl SyntaxToken {
    /// The token's classification tag.
    pub fn kind(&self) -> (r: SyntaxKind)
        ensures
            r == self.kind,
    {
        self.kind
    }

    /// The token's text.
    pub fn text(&self) -> (r: &str)
        ensures
            r@ == self.text@,
    {
        self.text.as_str()
    }
}

impl SyntaxNode {
    /// The node's classification tag.
    pub fn kind(&self) -> (r: SyntaxKind)
        ensures
            r == self.kind,
    {
        self.kind
    }

    /// The node's children.
    pub fn children(&self) -> (r: &Vec<SyntaxElement>)
        ensures
            r@ == self.children@,
    {
        &self.children
    }

    /// The source text the node covers, rebuilt from its leaves.
    pub fn text(&self) -> (r: String)
        ensures
            r@ == node_text(*self),
        decreases *self,
    {
        let mut s = String::new();
        let mut i: usize = 0;
        while i < self.children.len()
            invariant
                0 <= i <= self.children.len(),
                s@ == elems_text(self.children@.take(i as int)),
            decreases self.children.len() - i,
        {
            match &self.children[i] {
                SyntaxElement::Token(t) => {
                    s.append(t.text.as_str());
                },
                SyntaxElement::Node(m) => {
                    let sub = m.text();
                    s.append(sub.as_str());
                },
            }
            proof {
                assert(self.children@.take(i + 1).drop_last() == self.children@.take(i as int));
                assert(self.children@.take(i + 1).last() == self.children@[i as int]);
                lemma_elems_text_push(self.children@.take(i + 1));
            }
            i = i + 1;
        }
        proof {
            assert(self.children@.take(self.children@.len() as int) == self.children@);
        }
        s
    }

    /// The first token leaf under this node, scanning left to right.
    pub fn first_token(&self) -> (r: Option<&SyntaxToken>)
        ensures
            match r {
                Some(t) => spec_first_token_of(*self) == Some(*t),
                None => spec_first_token_of(*self) is None,
            },
        decreases *self,
    {
        let mut i: usize = 0;
        proof {
            assert(self.children@.skip(0) =~= self.children@);
        }
        while i < self.children.len()
            invariant
                0 <= i <= self.children.len(),
                spec_first_token_in(self.children@) == spec_first_token_in(
                    self.children@.skip(i as int),
                ),
            decreases self.children.len() - i,
        {
            proof {
                assert(self.children@.skip(i as int)[0] == self.children@[i as int]);
                assert(self.children@.skip(i as int).drop_first() =~= self.children@.skip(i + 1));
            }
            match &self.children[i] {
                SyntaxElement::Token(t) => {
                    return Some(t);
                },
                SyntaxElement::Node(n) => {
                    let found = n.first_token();
                    match found {
                        Some(t) => {
                            return Some(t);
                        },
                        None => {},
                    }
                },
            }
            i = i + 1;
        }
        proof {
            assert(self.children@.skip(self.children@.len() as int).len() == 0);
        }
        None
    }
}

/// The first token leaf under a node, if any.
pub open spec fn spec_first_token_of(n: SyntaxNode) -> Option<SyntaxToken>
    decreases n,
{
    spec_first_token_in(n.children@)
}

/// The first token leaf within a sequence of elements, if any.
pub open spec fn spec_first_token_in(s: Seq<SyntaxElement>) -> Option<SyntaxToken>
    decreases s,
{
    if s.len() == 0 {
        None
    } else {
        match s[0] {
            SyntaxElement::Token(t) => Some(t),
            SyntaxElement::Node(n) => match spec_first_token_of(n) {
                Some(t) => Some(t),
                None => spec_first_token_in(s.drop_first()),
            },
        }
    }
}

// ---------------------------------------------------------------------------
// The builder.
// ---------------------------------------------------------------------------
/// One open node while the tree is being built: its kind, the position at
/// which it was opened, and the children collected so far.
pub struct Frame {
    pub kind: SyntaxKind,
    pub open: usize,
    pub children: Vec<SyntaxElement>,
}

/// Builds a lossless tree bottom-up from a stream of `start_node`, `token`
/// and `finish_node` calls, tracking character positions as it goes.
///
/// The builder is total: unbalanced call streams fold into a root node
/// rather than failing, and the text of the finished tree is always exactly
/// the concatenation of the token texts handed in.
pub struct GreenNodeBuilder {
    pub frames: Vec<Frame>,
    pub pos: usize,
}

/// The concatenated text of everything handed to the builder so far.
pub open spec fn builder_text(b: GreenNodeBuilder) -> Seq<char> {
    frames_text(b.frames@)
}

/// The concatenated text of a stack of frames, outermost first.
pub open spec fn frames_text(fs: Seq<Frame>) -> Seq<char>
    decreases fs,
{
    if fs.len() == 0 {
        Seq::empty()
    } else {
        elems_text(fs[0].children@) + frames_text(fs.drop_first())
    }
}

/// Text splits off the end of a frame stack.
pub proof fn lemma_frames_text_push(fs: Seq<Frame>)
    requires
        fs.len() > 0,
    ensures
        frames_text(fs) == frames_text(fs.drop_last()) + elems_text(fs.last().children@),
    decreases fs.len(),
{
    assert(frames_text(fs) == elems_text(fs[0].children@) + frames_text(fs.drop_first()));
    if fs.len() == 1 {
        assert(frames_text(fs.drop_first()) =~= Seq::<char>::empty());
        assert(frames_text(fs.drop_last()) =~= Seq::<char>::empty());
        assert(fs.last() == fs[0]);
        assert(frames_text(fs) =~= frames_text(fs.drop_last()) + elems_text(fs.last().children@));
    } else {
        lemma_frames_text_push(fs.drop_first());
        assert(fs.drop_first().drop_last() == fs.drop_last().drop_first());
        assert(fs.drop_first().last() == fs.last());
        assert(frames_text(fs.drop_last()) == elems_text(fs.drop_last()[0].children@)
            + frames_text(fs.drop_last().drop_first()));
        assert(fs.drop_last()[0] == fs[0]);
        assert(frames_text(fs) =~= frames_text(fs.drop_last()) + elems_text(fs.last().children@));
    }
}

/// The builder's invariant: there is always at least one frame, the frames
/// were opened at non-decreasing positions starting from zero, and each
/// frame's children tile the range from its own open position to the next
/// frame's open position (the topmost up to the current position).
pub open spec fn builder_wf(b: GreenNodeBuilder) -> bool {
    let fs = b.frames@;
    &&& fs.len() >= 1
    &&& fs[0].open == 0
    &&& forall|i: int|
        0 <= i < fs.len() ==> elems_wf_chain(
            (#[trigger] fs[i]).children@,
            fs[i].open as int,
            if i + 1 < fs.len() {
                fs[i + 1].open as int
            } else {
                b.pos as int
            },
        )
}

impl GreenNodeBuilder {
    /// A fresh builder with one root frame open at position zero.
    pub fn new() -> (r: GreenNodeBuilder)
        ensures
            builder_wf(r),
            r.pos == 0,
            builder_text(r) == Seq::<char>::empty(),
            builder_leaves(r) == Seq::<(SyntaxKind, Seq<char>, int, int)>::empty(),
            builder_gframes(r) == seq![
                GFrame { kind: SyntaxKind::Root, open: 0, children: Seq::empty() },
            ],
            r.frames@.len() == 1,
    {
        let base = Frame { kind: SyntaxKind::Root, open: 0, children: Vec::new() };
        let b = GreenNodeBuilder { frames: vec![base], pos: 0 };
        proof {
            assert(b.frames@[0].children@ =~= Seq::<SyntaxElement>::empty());
            assert(elems_text(b.frames@[0].children@) =~= Seq::<char>::empty());
            assert(elems_leaves(b.frames@[0].children@) =~= Seq::<
                (SyntaxKind, Seq<char>, int, int),
            >::empty());
            assert(b.frames@.drop_first() =~= Seq::<Frame>::empty());
            assert(frames_text(b.frames@.drop_first()) =~= Seq::<char>::empty());
            assert(frames_leaves(b.frames@.drop_first()) =~= Seq::<
                (SyntaxKind, Seq<char>, int, int),
            >::empty());
            assert(builder_text(b) =~= Seq::<char>::empty());
            assert(builder_leaves(b) =~= Seq::<(SyntaxKind, Seq<char>, int, int)>::empty());
            assert(elems_gview(b.frames@[0].children@) =~= Seq::<GElem>::empty());
            assert(builder_gframes(b) =~= seq![
                GFrame { kind: SyntaxKind::Root, open: 0, children: Seq::<GElem>::empty() },
            ]);
            assert(elems_wf_chain(b.frames@[0].children@, 0, 0));
        }
        b
    }

    /// Opens a new node of the given kind at the current position.
    #[verifier::rlimit(100)]
    pub fn start_node(&mut self, kind: SyntaxKind)
        requires
            builder_wf(*old(self)),
        ensures
            builder_wf(*final(self)),
            final(self).pos == old(self).pos,
            builder_text(*final(self)) == builder_text(*old(self)),
            builder_leaves(*final(self)) == builder_leaves(*old(self)),
            builder_gframes(*final(self)) == builder_gframes(*old(self)).push(
                GFrame { kind, open: old(self).pos as int, children: Seq::empty() },
            ),
            final(self).frames@.len() == old(self).frames@.len() + 1,
    {
        let frame = Frame { kind, open: self.pos, children: Vec::new() };
        self.frames.push(frame);
        proof {
            let fs = self.frames@;
            assert(fs.last().children@ =~= Seq::<SyntaxElement>::empty());
            lemma_frames_text_push(fs);
            lemma_frames_leaves_push(fs);
            assert(fs.drop_last() =~= old(self).frames@);
            assert(elems_leaves(fs.last().children@) =~= Seq::<
                (SyntaxKind, Seq<char>, int, int),
            >::empty());
            assert(builder_leaves(*self) =~= builder_leaves(*old(self)));
            assert(builder_text(*self) =~= builder_text(*old(self)));
            assert(elems_gview(fs.last().children@) =~= Seq::<GElem>::empty());
            assert(builder_gframes(*self) =~= builder_gframes(*old(self)).push(
                GFrame { kind, open: old(self).pos as int, children: Seq::<GElem>::empty() },
            ));
            assert forall|i: int|
                0 <= i < fs.len() implies elems_wf_chain(
                (#[trigger] fs[i]).children@,
                fs[i].open as int,
                if i + 1 < fs.len() {
                    fs[i + 1].open as int
                } else {
                    self.pos as int
                },
            ) by {
                if i < fs.len() - 1 {
                    assert(fs[i] == old(self).frames@[i]);
                }
            }
        }
    }

    /// Appends a token leaf to the innermost open node and advances the
    /// position by the token's length.
    #[verifier::rlimit(100)]
    pub fn token(&mut self, kind: SyntaxKind, text: String, len: usize)
        requires
            builder_wf(*old(self)),
            text@.len() == len,
            old(self).pos + len <= usize::MAX,
        ensures
            builder_wf(*final(self)),
            final(self).pos == old(self).pos + len,
            builder_text(*final(self)) == builder_text(*old(self)) + text@,
            builder_leaves(*final(self)) == builder_leaves(*old(self)).push(
                (kind, text@, old(self).pos as int, old(self).pos + len),
            ),
            ({
                let fs = builder_gframes(*old(self));
                let top = fs.last();
                builder_gframes(*final(self)) == fs.update(
                    fs.len() - 1,
                    GFrame {
                        kind: top.kind,
                        open: top.open,
                        children: top.children.push(
                            GElem::Token {
                                kind,
                                text: text@,
                                start: old(self).pos as int,
                                end: old(self).pos + len,
                            },
                        ),
                    },
                )
            }),
            final(self).frames@.len() == old(self).frames@.len(),
    {
        let ghost text_view = text@;
        let start = self.pos;
        let end = self.pos + len;
        let leaf = SyntaxToken { kind, text, start, end };
        let el = SyntaxElement::Token(leaf);
        let ghost el_view = el;
        let mut frame = self.frames.pop().unwrap();
        frame.children.push(el);
        self.frames.push(frame);
        self.pos = end;
        proof {
            let fs = self.frames@;
            let old_fs = old(self).frames@;
            assert(fs.drop_last() =~= old_fs.drop_last());
            assert(fs.last().children@ =~= old_fs.last().children@.push(el_view));
            assert(fs.last().open == old_fs.last().open);
            assert forall|i: int|
                0 <= i < fs.len() implies elems_wf_chain(
                (#[trigger] fs[i]).children@,
                fs[i].open as int,
                if i + 1 < fs.len() {
                    fs[i + 1].open as int
                } else {
                    self.pos as int
                },
            ) by {
                if i < fs.len() - 1 {
                    assert(fs[i] == old_fs[i]);
                    assert(old_fs[i + 1].open == fs[i + 1].open);
                } else {
                    assert(elem_wf(el_view));
                    assert(elem_start(el_view) == old(self).pos as int);
                    assert(elems_wf_chain(
                        old_fs[i].children@,
                        old_fs[i].open as int,
                        old(self).pos as int,
                    ));
                    lemma_chain_push(
                        old_fs[i].children@,
                        old_fs[i].open as int,
                        old(self).pos as int,
                        el_view,
                    );
                }
            }
            lemma_frames_text_push(fs);
            lemma_frames_text_push(old_fs);
            lemma_elems_text_push_eq(old_fs.last().children@, el_view);
            assert(elem_text(el_view) == text_view);
            assert(builder_text(*self) =~= builder_text(*old(self)) + text_view);
            lemma_frames_leaves_push(fs);
            lemma_frames_leaves_push(old_fs);
            lemma_elems_leaves_push(fs.last().children@);
            assert(fs.last().children@.drop_last() =~= old_fs.last().children@);
            assert(elem_leaves(el_view) =~= seq![
                (kind, text_view, old(self).pos as int, old(self).pos + len as int),
            ]);
            assert(builder_leaves(*self) =~= builder_leaves(*old(self)).push(
                (kind, text_view, old(self).pos as int, old(self).pos + len as int),
            ));
            assert(builder_gframes(*self) == builder_gframes(*old(self)).update(
                builder_gframes(*old(self)).len() - 1,
                GFrame {
                    kind: builder_gframes(*old(self)).last().kind,
                    open: builder_gframes(*old(self)).last().open,
                    children: builder_gframes(*old(self)).last().children.push(
                        GElem::Token {
                            kind,
                            text: text_view,
                            start: old(self).pos as int,
                            end: old(self).pos + len as int,
                        },
                    ),
                },
            )) by {
                assert(elem_gview(el_view) == (GElem::Token {
                    kind,
                    text: text_view,
                    start: old(self).pos as int,
                    end: old(self).pos + len as int,
                }));
                crate::replay::lemma_gframes_token(
                    old(self).frames@,
                    self.frames@,
                    el_view,
                    elem_gview(el_view),
                );
                assert(builder_gframes(*old(self)).last() == frame_gview(
                    old(self).frames@.last(),
                ));
            }
        }
    }

    /// Closes the innermost open node, wrapping its children into a node
    /// appended to its parent. With only the root frame open this is a
    /// no-op.
    #[verifier::rlimit(100)]
    #[verifier::spinoff_prover]
    pub fn finish_node(&mut self)
        requires
            builder_wf(*old(self)),
        ensures
            builder_wf(*final(self)),
            final(self).pos == old(self).pos,
            builder_text(*final(self)) == builder_text(*old(self)),
            builder_leaves(*final(self)) == builder_leaves(*old(self)),
            old(self).frames@.len() > 1 ==> builder_gframes(*final(self)) == gfinish_node(
                builder_gframes(*old(self)),
                old(self).pos as int,
            ),
            old(self).frames@.len() <= 1 ==> builder_gframes(*final(self)) == builder_gframes(
                *old(self),
            ),
            final(self).frames@.len() == if old(self).frames@.len() > 1 {
                (old(self).frames@.len() - 1) as int
            } else {
                1int
            },
    {
        if self.frames.len() <= 1 {
            return ;
        }
        let frame = self.frames.pop().unwrap();
        let node = SyntaxNode {
            kind: frame.kind,
            start: frame.open,
            end: self.pos,
            children: frame.children,
        };
        let ghost popped = old(self).frames@.last();
        let el = SyntaxElement::Node(node);
        let ghost el_view = el;
        let mut parent = self.frames.pop().unwrap();
        parent.children.push(el);
        self.frames.push(parent);
        proof {
            let fs = self.frames@;
            let old_fs = old(self).frames@;
            let mid = old_fs.drop_last();
            assert(fs.drop_last() =~= mid.drop_last());
            assert(fs.last().open == mid.last().open);
            assert(fs.last().children@ =~= mid.last().children@.push(el_view));
            assert(elems_wf_chain(popped.children@, popped.open as int, old(self).pos as int));
            assert(elem_wf(el_view));
            assert(elem_start(el_view) == popped.open as int);
            assert(elem_end(el_view) == old(self).pos as int);
            assert forall|i: int|
                0 <= i < fs.len() implies elems_wf_chain(
                (#[trigger] fs[i]).children@,
                fs[i].open as int,
                if i + 1 < fs.len() {
                    fs[i + 1].open as int
                } else {
                    self.pos as int
                },
            ) by {
                if i < fs.len() - 1 {
                    assert(fs[i] == old_fs[i]);
                    assert(old_fs[i + 1].open == fs[i + 1].open);
                } else {
                    assert(elems_wf_chain(
                        mid.last().children@,
                        mid.last().open as int,
                        popped.open as int,
                    ));
                    lemma_chain_push(
                        mid.last().children@,
                        mid.last().open as int,
                        popped.open as int,
                        el_view,
                    );
                }
            }
            lemma_frames_text_push(fs);
            lemma_frames_text_push(old_fs);
            lemma_frames_text_push(mid);
            lemma_elems_text_push_eq(mid.last().children@, el_view);
            assert(elem_text(el_view) == elems_text(popped.children@));
            assert(builder_text(*self) =~= builder_text(*old(self)));
            lemma_frames_leaves_push(fs);
            lemma_frames_leaves_push(old_fs);
            lemma_frames_leaves_push(mid);
            lemma_elems_leaves_push(fs.last().children@);
            assert(fs.last().children@.drop_last() =~= mid.last().children@);
            assert(elem_leaves(el_view) == elems_leaves(popped.children@));
            assert(builder_leaves(*self) =~= builder_leaves(*old(self)));
            assert(builder_gframes(*self) == gfinish_node(
                builder_gframes(*old(self)),
                old(self).pos as int,
            )) by {
                assert(el_view matches SyntaxElement::Node(nd) && {
                    &&& nd.kind == old(self).frames@.last().kind
                    &&& nd.start == old(self).frames@.last().open
                    &&& nd.end == old(self).pos
                    &&& nd.children@ == old(self).frames@.last().children@
                });
                crate::replay::lemma_gframes_wrap(
                    old(self).frames@,
                    self.frames@,
                    el_view->Node_0,
                    old(self).pos as int,
                );
            }
        }
    }

    /// Finishes building: closes any nodes still open and returns the root.
    ///
    /// In the balanced case (the event stream opened and closed one
    /// top-level node) that node is returned; otherwise the remaining
    /// children are wrapped in a `Root` node. Either way the tree is well
    /// formed, spans `[0, pos)`, and its text is everything handed in.
    pub fn finish(self) -> (r: SyntaxNode)
        requires
            builder_wf(self),
        ensures
            node_wf(r),
            r.kind == SyntaxKind::Root,
            r.start == 0,
            r.end == self.pos,
            node_text(r) == builder_text(self),
            node_leaves(r) == builder_leaves(self),
            node_gview(r) == builder_final(builder_gframes(self), self.pos as int),
    {
        let ghost orig = self;
        let mut b = self;
        while b.frames.len() > 1
            invariant
                builder_wf(b),
                b.pos == orig.pos,
                builder_text(b) == builder_text(orig),
                builder_leaves(b) == builder_leaves(orig),
                gfold(builder_gframes(orig), orig.pos as int) == gfold(
                    builder_gframes(b),
                    b.pos as int,
                ),
            decreases b.frames@.len(),
        {
            proof {
                assert(builder_gframes(b).len() == b.frames@.len());
            }
            b.finish_node();
        }
        proof {
            assert(builder_gframes(b).len() == 1);
            assert(gfold(builder_gframes(b), b.pos as int) == builder_gframes(b));
            assert(builder_gframes(b)[0] == frame_gview(b.frames@[0]));
        }
        proof {
            assert(b.frames@.len() == 1);
            lemma_frames_text_push(b.frames@);
            lemma_frames_leaves_push(b.frames@);
            assert(b.frames@.drop_last().len() == 0);
            assert(frames_text(b.frames@.drop_last()) =~= Seq::<char>::empty());
            assert(frames_leaves(b.frames@.drop_last()) =~= Seq::<
                (SyntaxKind, Seq<char>, int, int),
            >::empty());
            assert(builder_text(b) == elems_text(b.frames@[0].children@));
            assert(builder_leaves(b) == elems_leaves(b.frames@[0].children@));
        }
        let ghost base_children = b.frames@[0].children@;
        let mut frames = b.frames;
        let mut base = frames.pop().unwrap();
        if base.children.len() == 1 {
            let only = base.children.pop().unwrap();
            proof {
                assert(base_children[0] == only);
                assert(base_children.drop_first().len() == 0);
                assert(elems_wf_chain(base_children, 0, b.pos as int));
                assert(elem_wf(only));
                assert(elem_start(only) == 0);
                assert(elems_wf_chain(base_children.drop_first(), elem_end(only), b.pos as int));
                assert(elem_end(only) == b.pos as int);
                assert(elems_text(base_children) =~= elem_text(only) + elems_text(
                    base_children.drop_first(),
                ));
                assert(elems_text(base_children.drop_first()) =~= Seq::<char>::empty());
                assert(elems_text(base_children) =~= elem_text(only));
                assert(elems_leaves(base_children) =~= elem_leaves(only) + elems_leaves(
                    base_children.drop_first(),
                ));
                assert(elems_leaves(base_children.drop_first()) =~= Seq::<
                    (SyntaxKind, Seq<char>, int, int),
                >::empty());
                assert(elems_leaves(base_children) =~= elem_leaves(only));
            }
            match only {
                SyntaxElement::Node(n) => {
                    if matches!(n.kind, SyntaxKind::Root) {
                        proof {
                            assert(node_wf(n));
                            assert(n.start == 0 && n.end == b.pos);
                            assert(node_text(n) == elem_text(SyntaxElement::Node(n)));
                            assert(elems_gview(base_children.drop_first()) =~= Seq::<
                                GElem,
                            >::empty());
                            assert(elems_gview(base_children) =~= seq![elem_gview(only)]);
                            assert(node_gview(n) == builder_final(
                                builder_gframes(orig),
                                orig.pos as int,
                            ));
                        }
                        return n;
                    }
                    base.children.push(SyntaxElement::Node(n));
                    proof {
                        assert(base.children@ =~= base_children);
                    }
                },
                SyntaxElement::Token(t) => {
                    base.children.push(SyntaxElement::Token(t));
                    proof {
                        assert(base.children@ =~= base_children);
                    }
                },
            }
        }
        let root = SyntaxNode {
            kind: SyntaxKind::Root,
            start: 0,
            end: b.pos,
            children: base.children,
        };
        proof {
            assert(node_gview(root) == builder_final(builder_gframes(orig), orig.pos as int));
        }
        root
    }
}


// ---------------------------------------------------------------------------
// The leaves of a tree.
// ---------------------------------------------------------------------------
/// The view of one leaf: its tag, text, and span.
pub open spec fn leaf_view(t: SyntaxToken) -> (SyntaxKind, Seq<char>, int, int) {
    (t.kind, t.text@, t.start as int, t.end as int)
}

/// The leaf views of an element, left to right.
pub open spec fn elem_leaves(e: SyntaxElement) -> Seq<(SyntaxKind, Seq<char>, int, int)>
    decreases e,
{
    match e {
        SyntaxElement::Token(t) => seq![leaf_view(t)],
        SyntaxElement::Node(n) => node_leaves(n),
    }
}

/// The leaf views of a sequence of elements.
pub open spec fn elems_leaves(s: Seq<SyntaxElement>) -> Seq<(SyntaxKind, Seq<char>, int, int)>
    decreases s,
{
    if s.len() == 0 {
        Seq::empty()
    } else {
        elem_leaves(s[0]) + elems_leaves(s.drop_first())
    }
}

/// The leaf views of a node: every token under it, in order.
pub open spec fn node_leaves(n: SyntaxNode) -> Seq<(SyntaxKind, Seq<char>, int, int)>
    decreases n,
{
    elems_leaves(n.children@)
}

/// Splitting off the last element splits its leaves off the end.
pub proof fn lemma_elems_leaves_push(s: Seq<SyntaxElement>)
    requires
        s.len() > 0,
    ensures
        elems_leaves(s) == elems_leaves(s.drop_last()) + elem_leaves(s.last()),
    decreases s.len(),
{
    assert(elems_leaves(s) == elem_leaves(s[0]) + elems_leaves(s.drop_first()));
    if s.len() == 1 {
        assert(elems_leaves(s.drop_first()) =~= Seq::<(SyntaxKind, Seq<char>, int, int)>::empty());
        assert(elems_leaves(s.drop_last()) =~= Seq::<(SyntaxKind, Seq<char>, int, int)>::empty());
        assert(s.last() == s[0]);
        assert(elems_leaves(s) =~= elems_leaves(s.drop_last()) + elem_leaves(s.last()));
    } else {
        lemma_elems_leaves_push(s.drop_first());
        assert(s.drop_first().drop_last() == s.drop_last().drop_first());
        assert(s.drop_first().last() == s.last());
        assert(elems_leaves(s.drop_last()) == elem_leaves(s.drop_last()[0]) + elems_leaves(
            s.drop_last().drop_first(),
        ));
        assert(s.drop_last()[0] == s[0]);
        assert(elems_leaves(s) =~= elems_leaves(s.drop_last()) + elem_leaves(s.last()));
    }
}

/// The leaf views of everything handed to a builder, outermost frame first.
pub open spec fn frames_leaves(fs: Seq<Frame>) -> Seq<(SyntaxKind, Seq<char>, int, int)>
    decreases fs,
{
    if fs.len() == 0 {
        Seq::empty()
    } else {
        elems_leaves(fs[0].children@) + frames_leaves(fs.drop_first())
    }
}

/// The builder's leaves so far.
pub open spec fn builder_leaves(b: GreenNodeBuilder) -> Seq<(SyntaxKind, Seq<char>, int, int)> {
    frames_leaves(b.frames@)
}

/// Leaves split off the end of a frame stack.
pub proof fn lemma_frames_leaves_push(fs: Seq<Frame>)
    requires
        fs.len() > 0,
    ensures
        frames_leaves(fs) == frames_leaves(fs.drop_last()) + elems_leaves(fs.last().children@),
    decreases fs.len(),
{
    assert(frames_leaves(fs) == elems_leaves(fs[0].children@) + frames_leaves(fs.drop_first()));
    if fs.len() == 1 {
        assert(frames_leaves(fs.drop_first()) =~= Seq::<(SyntaxKind, Seq<char>, int, int)>::empty());
        assert(frames_leaves(fs.drop_last()) =~= Seq::<(SyntaxKind, Seq<char>, int, int)>::empty());
        assert(fs.last() == fs[0]);
        assert(frames_leaves(fs) =~= frames_leaves(fs.drop_last()) + elems_leaves(
            fs.last().children@,
        ));
    } else {
        lemma_frames_leaves_push(fs.drop_first());
        assert(fs.drop_first().drop_last() == fs.drop_last().drop_first());
        assert(fs.drop_first().last() == fs.last());
        assert(frames_leaves(fs.drop_last()) == elems_leaves(fs.drop_last()[0].children@)
            + frames_leaves(fs.drop_last().drop_first()));
        assert(fs.drop_last()[0] == fs[0]);
        assert(frames_leaves(fs) =~= frames_leaves(fs.drop_last()) + elems_leaves(
            fs.last().children@,
        ));
    }
}


} // verus!
