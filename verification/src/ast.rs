//! The typed syntax layer: thin, fallible, read-only views over the raw
//! lossless tree, selected by node kind.
pub mod expr;
pub mod stmt;
pub mod token;

use vstd::prelude::*;
use crate::syntax_kind::SyntaxKind;
use crate::tree::{SyntaxNode, SyntaxElement};
use crate::ast::stmt::{Stmt, spec_stmt_nodes, stmt_wraps, stmt_node};

verus! {

// ---------------------------------------------------------------------------
// A size measure for structural recursion over trees.
// ---------------------------------------------------------------------------
/// Size of an element: one per node and token, recursively.
pub open spec fn size_elem(e: SyntaxElement) -> nat
    decreases e,
{
    match e {
        SyntaxElement::Token(t) => 1,
        SyntaxElement::Node(n) => size_node(n),
    }
}

/// Total size of a sequence of elements.
pub open spec fn size_elems(s: Seq<SyntaxElement>) -> nat
    decreases s,
{
    if s.len() == 0 {
        0
    } else {
        size_elem(s[0]) + size_elems(s.drop_first())
    }
}

/// Size of a node: itself plus everything under it.
pub open spec fn size_node(n: SyntaxNode) -> nat
    decreases n,
{
    1 + size_elems(n.children@)
}

/// Element sizes are positive.
pub proof fn lemma_size_elem_pos(e: SyntaxElement)
    ensures
        size_elem(e) >= 1,
    decreases e,
{
}

/// Each element's size is bounded by its sequence's size.
pub proof fn lemma_size_elems_bound(s: Seq<SyntaxElement>, i: int)
    requires
        0 <= i < s.len(),
    ensures
        size_elem(s[i]) <= size_elems(s),
    decreases s.len(),
{
    lemma_size_elem_pos(s[0]);
    assert(size_elems(s) == size_elem(s[0]) + size_elems(s.drop_first()));
    if i > 0 {
        lemma_size_elems_bound(s.drop_first(), i - 1);
        assert(s.drop_first()[i - 1] == s[i]);
    }
}

// ---------------------------------------------------------------------------
// The root of a parsed file.
// ---------------------------------------------------------------------------
/// The typed view of a whole parse tree.
#[derive(Debug)]
pub struct Root(pub SyntaxNode);

impl Root {
    /// Views a raw node as a root, when it has the root tag.
    pub fn cast(node: SyntaxNode) -> (r: Option<Root>)
        ensures
            match r {
                Some(root) => node.kind == SyntaxKind::Root && root.0 == node,
                None => node.kind != SyntaxKind::Root,
            },
    {
        if matches!(node.kind, SyntaxKind::Root) {
            Some(Root(node))
        } else {
            None
        }
    }

    /// The top-level statements: every child node that can be viewed as a
    /// statement, in order.
    pub fn stmts(&self) -> (r: Vec<Stmt<'_>>)
        ensures
            r@.len() == spec_stmt_nodes(self.0.children@).len(),
            forall|j: int|
                0 <= j < r@.len() ==> stmt_wraps(
                    #[trigger] r@[j],
                    spec_stmt_nodes(self.0.children@)[j],
                ),
    {
        let children = &self.0.children;
        let count = children.len();
        let mut out: Vec<Stmt<'_>> = Vec::new();
        let mut i: usize = 0;
        proof {
            assert(children@.skip(0) =~= children@);
            assert(stmt_nodes_of(out@) =~= Seq::<SyntaxNode>::empty());
            assert(stmt_nodes_of(out@) + spec_stmt_nodes(children@.skip(0)) =~= spec_stmt_nodes(
                children@,
            ));
        }
        while i < count
            invariant
                count == children@.len(),
                0 <= i <= count,
                stmt_nodes_of(out@) + spec_stmt_nodes(children@.skip(i as int))
                    == spec_stmt_nodes(children@),
                forall|j: int|
                    0 <= j < out@.len() ==> stmt_wraps(
                        #[trigger] out@[j],
                        stmt_nodes_of(out@)[j],
                    ),
            decreases count - i,
        {
            proof {
                assert(children@.skip(i as int)[0] == children@[i as int]);
                assert(children@.skip(i as int).drop_first() =~= children@.skip(i + 1));
            }
            match &children[i] {
                SyntaxElement::Node(n) => {
                    proof {
                        assert(children@[i as int] == SyntaxElement::Node(*n));
                    }
                    match Stmt::cast(n) {
                        Some(s) => {
                            proof {
                                assert(stmt_nodes_of(out@.push(s)) =~= stmt_nodes_of(out@).push(
                                    *n,
                                ));
                                assert(stmt_nodes_of(out@.push(s)) + spec_stmt_nodes(
                                    children@.skip(i + 1),
                                ) =~= spec_stmt_nodes(children@));
                            }
                            out.push(s);
                        },
                        None => {},
                    }
                },
                SyntaxElement::Token(_) => {},
            }
            i = i + 1;
        }
        proof {
            assert(children@.skip(count as int).len() == 0);
            assert(stmt_nodes_of(out@) =~= spec_stmt_nodes(children@));
        }
        out
    }
}

/// The raw nodes behind a sequence of typed statements.
pub open spec fn stmt_nodes_of(v: Seq<Stmt<'_>>) -> Seq<SyntaxNode> {
    v.map_values(|s: Stmt<'_>| stmt_node(s))
}

} // verus!
