//! Typed views of statements: variable definitions and expression
//! statements.
use vstd::prelude::*;
use crate::ast::expr::{
    Expr,
    expr_node,
    expr_wraps,
    spec_expr_castable,
    spec_expr_nodes,
    spec_first_kind_token,
    first_kind_token,
    nth_expr_node,
};
use crate::syntax_kind::SyntaxKind;
use crate::tree::{SyntaxNode, SyntaxToken};

verus! {

/// A statement: a variable definition or an expression statement.
#[derive(Debug, Clone, Copy)]
pub enum Stmt<'a> {
    VariableDef(VariableDef<'a>),
    Expr(Expr<'a>),
}

/// A node that can be viewed as a statement.
pub open spec fn spec_stmt_castable(n: SyntaxNode) -> bool {
    n.kind == SyntaxKind::VariableDef || spec_expr_castable(n.kind)
}

/// The raw node behind a statement view.
pub open spec fn stmt_node(s: Stmt<'_>) -> SyntaxNode {
    match s {
        Stmt::VariableDef(d) => *d.0,
        Stmt::Expr(e) => expr_node(e),
    }
}

/// The statement view `s` is the right view of the node `n`.
pub open spec fn stmt_wraps(s: Stmt<'_>, n: SyntaxNode) -> bool {
    stmt_node(s) == n && match s {
        Stmt::VariableDef(_) => n.kind == SyntaxKind::VariableDef,
        Stmt::Expr(e) => expr_wraps(e, n),
    }
}

/// The statement-castable child nodes of an element sequence, in order.
pub open spec fn spec_stmt_nodes(s: Seq<crate::tree::SyntaxElement>) -> Seq<SyntaxNode>
    decreases s,
{
    if s.len() == 0 {
        Seq::empty()
    } else {
        let rest = spec_stmt_nodes(s.drop_first());
        match s[0] {
            crate::tree::SyntaxElement::Node(n) => if spec_stmt_castable(n) {
                seq![n] + rest
            } else {
                rest
            },
            crate::tree::SyntaxElement::Token(_) => rest,
        }
    }
}

impl<'a> Stmt<'a> {
    /// Views a raw node as a statement, if its kind allows it.
    pub fn cast(node: &'a SyntaxNode) -> (r: Option<Stmt<'a>>)
        ensures
            match r {
                Some(s) => spec_stmt_castable(*node) && stmt_wraps(s, *node),
                None => !spec_stmt_castable(*node),
            },
    {
        if matches!(node.kind, SyntaxKind::VariableDef) {
            Some(Stmt::VariableDef(VariableDef(node)))
        } else {
            match Expr::cast(node) {
                Some(e) => Some(Stmt::Expr(e)),
                None => None,
            }
        }
    }
}

/// A `let [mut] name = value` definition.
#[derive(Debug, Clone, Copy)]
pub struct VariableDef<'a>(pub &'a SyntaxNode);

impl<'a> VariableDef<'a> {
    /// The defined name: the first identifier token among the children.
    pub fn name(&self) -> (r: Option<&'a SyntaxToken>)
        ensures
            match r {
                Some(t) => spec_first_kind_token(self.0.children@, SyntaxKind::Ident) == Some(*t),
                None => spec_first_kind_token(self.0.children@, SyntaxKind::Ident) is None,
            },
    {
        proof {
            assert(self.0.children@.skip(0) =~= self.0.children@);
        }
        first_kind_token(&self.0.children, 0, SyntaxKind::Ident)
    }

    /// The defined value: the first expression child.
    pub fn value(&self) -> (r: Option<Expr<'a>>)
        ensures
            match r {
                Some(e) => spec_expr_nodes(self.0.children@).len() >= 1 && expr_wraps(
                    e,
                    spec_expr_nodes(self.0.children@)[0],
                ),
                None => spec_expr_nodes(self.0.children@).len() == 0,
            },
    {
        proof {
            assert(self.0.children@.skip(0) =~= self.0.children@);
        }
        match nth_expr_node(&self.0.children, 0, 0) {
            Some(c) => Expr::cast(c),
            None => None,
        }
    }
}

} // verus!
