//! Typed views of expressions, and the child scans their accessors use.
use vstd::prelude::*;
use crate::ast::token;
use crate::syntax_kind::SyntaxKind;
use crate::tree::{SyntaxNode, SyntaxToken, SyntaxElement, spec_first_token_of};

verus! {

/// An expression view: one variant per expression node kind.
#[derive(Debug, Clone, Copy)]
pub enum Expr<'a> {
    BinaryExpr(BinaryExpr<'a>),
    Literal(Literal<'a>),
    ParenExpr(ParenExpr<'a>),
    UnaryExpr(UnaryExpr<'a>),
    VariableRef(VariableRef<'a>),
}

/// A node kind that can be viewed as an expression.
pub open spec fn spec_expr_castable(k: SyntaxKind) -> bool {
    k == SyntaxKind::InfixExpr || k == SyntaxKind::Literal || k == SyntaxKind::ParenExpr || k
        == SyntaxKind::PrefixExpr || k == SyntaxKind::VariableRef
}

/// The raw node behind an expression view.
pub open spec fn expr_node(e: Expr<'_>) -> SyntaxNode {
    match e {
        Expr::BinaryExpr(b) => *b.0,
        Expr::Literal(l) => *l.0,
        Expr::ParenExpr(p) => *p.0,
        Expr::UnaryExpr(u) => *u.0,
        Expr::VariableRef(v) => *v.0,
    }
}

/// The expression view `e` is the right view of the node `n`.
pub open spec fn expr_wraps(e: Expr<'_>, n: SyntaxNode) -> bool {
    expr_node(e) == n && match e {
        Expr::BinaryExpr(_) => n.kind == SyntaxKind::InfixExpr,
        Expr::Literal(_) => n.kind == SyntaxKind::Literal,
        Expr::ParenExpr(_) => n.kind == SyntaxKind::ParenExpr,
        Expr::UnaryExpr(_) => n.kind == SyntaxKind::PrefixExpr,
        Expr::VariableRef(_) => n.kind == SyntaxKind::VariableRef,
    }
}

/// The expression-castable child nodes of an element sequence, in order.
pub open spec fn spec_expr_nodes(s: Seq<SyntaxElement>) -> Seq<SyntaxNode>
    decreases s,
{
    if s.len() == 0 {
        Seq::empty()
    } else {
        let rest = spec_expr_nodes(s.drop_first());
        match s[0] {
            SyntaxElement::Node(n) => if spec_expr_castable(n.kind) {
                seq![n] + rest
            } else {
                rest
            },
            SyntaxElement::Token(_) => rest,
        }
    }
}

impl<'a> Expr<'a> {
    /// Views a raw node as an expression, if its kind allows it.
    pub fn cast(node: &'a SyntaxNode) -> (r: Option<Expr<'a>>)
        ensures
            match r {
                Some(e) => spec_expr_castable(node.kind) && expr_wraps(e, *node),
                None => !spec_expr_castable(node.kind),
            },
    {
        match node.kind {
            SyntaxKind::InfixExpr => Some(Expr::BinaryExpr(BinaryExpr(node))),
            SyntaxKind::Literal => Some(Expr::Literal(Literal(node))),
            SyntaxKind::ParenExpr => Some(Expr::ParenExpr(ParenExpr(node))),
            SyntaxKind::PrefixExpr => Some(Expr::UnaryExpr(UnaryExpr(node))),
            SyntaxKind::VariableRef => Some(Expr::VariableRef(VariableRef(node))),
            _ => None,
        }
    }
}

/// Scans `children[i..]` for the `want`-th expression-castable child node.
pub fn nth_expr_node<'a>(children: &'a Vec<SyntaxElement>, i: usize, want: usize) -> (r: Option<
    &'a SyntaxNode,
>)
    requires
        i <= children@.len(),
    ensures
        match r {
            Some(c) => spec_expr_nodes(children@.skip(i as int)).len() > want && *c
                == spec_expr_nodes(children@.skip(i as int))[want as int] && spec_expr_castable(
                c.kind,
            ),
            None => spec_expr_nodes(children@.skip(i as int)).len() <= want,
        },
    decreases children@.len() - i,
{
    if i == children.len() {
        proof {
            assert(children@.skip(i as int).len() == 0);
        }
        None
    } else {
        proof {
            assert(children@.skip(i as int)[0] == children@[i as int]);
            assert(children@.skip(i as int).drop_first() =~= children@.skip(i + 1));
        }
        match &children[i] {
            SyntaxElement::Node(n) => {
                proof {
                    assert(children@[i as int] == SyntaxElement::Node(*n));
                }
                let castable = matches!(
                    n.kind,
                    SyntaxKind::InfixExpr
                        | SyntaxKind::Literal
                        | SyntaxKind::ParenExpr
                        | SyntaxKind::PrefixExpr
                        | SyntaxKind::VariableRef,
                );
                if castable {
                    if want == 0 {
                        Some(n)
                    } else {
                        nth_expr_node(children, i + 1, want - 1)
                    }
                } else {
                    nth_expr_node(children, i + 1, want)
                }
            },
            SyntaxElement::Token(_) => nth_expr_node(children, i + 1, want),
        }
    }
}

/// The first direct child token whose kind is `k`, if any.
pub open spec fn spec_first_kind_token(s: Seq<SyntaxElement>, k: SyntaxKind) -> Option<SyntaxToken>
    decreases s,
{
    if s.len() == 0 {
        None
    } else {
        match s[0] {
            SyntaxElement::Token(t) => if t.kind == k {
                Some(t)
            } else {
                spec_first_kind_token(s.drop_first(), k)
            },
            SyntaxElement::Node(_) => spec_first_kind_token(s.drop_first(), k),
        }
    }
}

/// Scans `children[i..]` for the first direct token of kind `k`.
pub fn first_kind_token<'a>(children: &'a Vec<SyntaxElement>, i: usize, k: SyntaxKind) -> (r:
    Option<&'a SyntaxToken>)
    requires
        i <= children@.len(),
    ensures
        match r {
            Some(t) => spec_first_kind_token(children@.skip(i as int), k) == Some(*t),
            None => spec_first_kind_token(children@.skip(i as int), k) is None,
        },
    decreases children@.len() - i,
{
    if i == children.len() {
        proof {
            assert(children@.skip(i as int).len() == 0);
        }
        None
    } else {
        proof {
            assert(children@.skip(i as int)[0] == children@[i as int]);
            assert(children@.skip(i as int).drop_first() =~= children@.skip(i + 1));
        }
        match &children[i] {
            SyntaxElement::Token(t) => {
                if t.kind == k {
                    Some(t)
                } else {
                    first_kind_token(children, i + 1, k)
                }
            },
            SyntaxElement::Node(_) => first_kind_token(children, i + 1, k),
        }
    }
}

/// A token kind that stands for an infix operator.
pub open spec fn spec_is_binop_kind(k: SyntaxKind) -> bool {
    k == SyntaxKind::Plus || k == SyntaxKind::Minus || k == SyntaxKind::Star || k
        == SyntaxKind::Slash || k == SyntaxKind::Percent || k == SyntaxKind::AmpersandAmpersand
        || k == SyntaxKind::BarBar || k == SyntaxKind::BangEquals || k == SyntaxKind::EqualsEquals
        || k == SyntaxKind::LessThan || k == SyntaxKind::LessThanEqual || k
        == SyntaxKind::GreaterThan || k == SyntaxKind::GreaterThanEqual
}

/// The first direct child token that is an infix operator, if any.
pub open spec fn spec_binop_token(s: Seq<SyntaxElement>) -> Option<SyntaxToken>
    decreases s,
{
    if s.len() == 0 {
        None
    } else {
        match s[0] {
            SyntaxElement::Token(t) => if spec_is_binop_kind(t.kind) {
                Some(t)
            } else {
                spec_binop_token(s.drop_first())
            },
            SyntaxElement::Node(_) => spec_binop_token(s.drop_first()),
        }
    }
}

/// Scans `children[i..]` for the first infix operator token.
fn binop_token<'a>(children: &'a Vec<SyntaxElement>, i: usize) -> (r: Option<&'a SyntaxToken>)
    requires
        i <= children@.len(),
    ensures
        match r {
            Some(t) => spec_binop_token(children@.skip(i as int)) == Some(*t) && spec_is_binop_kind(
                t.kind,
            ),
            None => spec_binop_token(children@.skip(i as int)) is None,
        },
    decreases children@.len() - i,
{
    if i == children.len() {
        proof {
            assert(children@.skip(i as int).len() == 0);
        }
        None
    } else {
        proof {
            assert(children@.skip(i as int)[0] == children@[i as int]);
            assert(children@.skip(i as int).drop_first() =~= children@.skip(i + 1));
        }
        match &children[i] {
            SyntaxElement::Token(t) => {
                let hit = matches!(
                    t.kind,
                    SyntaxKind::Plus
                        | SyntaxKind::Minus
                        | SyntaxKind::Star
                        | SyntaxKind::Slash
                        | SyntaxKind::Percent
                        | SyntaxKind::AmpersandAmpersand
                        | SyntaxKind::BarBar
                        | SyntaxKind::BangEquals
                        | SyntaxKind::EqualsEquals
                        | SyntaxKind::LessThan
                        | SyntaxKind::LessThanEqual
                        | SyntaxKind::GreaterThan
                        | SyntaxKind::GreaterThanEqual,
                );
                if hit {
                    Some(t)
                } else {
                    binop_token(children, i + 1)
                }
            },
            SyntaxElement::Node(_) => binop_token(children, i + 1),
        }
    }
}

/// A binary (infix) expression.
#[derive(Debug, Clone, Copy)]
pub struct BinaryExpr<'a>(pub &'a SyntaxNode);

impl<'a> BinaryExpr<'a> {
    /// The left operand: the first expression child.
    pub fn lhs(&self) -> (r: Option<Expr<'a>>)
        ensures
            match r {
                Some(e) => spec_expr_nodes(self.0.children@).len() >= 1 && expr_wraps(
                    e,
                    spec_expr_nodes(self.0.children@)[0],
                ),
                None => spec_expr_nodes(self.0.children@).len() == 0,
            },
    {
        proof {
            assert(self.0.children@.skip(0) =~= self.0.children@);
        }
        match nth_expr_node(&self.0.children, 0, 0) {
            Some(c) => Expr::cast(c),
            None => None,
        }
    }

    /// The right operand: the second expression child.
    pub fn rhs(&self) -> (r: Option<Expr<'a>>)
        ensures
            match r {
                Some(e) => spec_expr_nodes(self.0.children@).len() >= 2 && expr_wraps(
                    e,
                    spec_expr_nodes(self.0.children@)[1],
                ),
                None => spec_expr_nodes(self.0.children@).len() < 2,
            },
    {
        proof {
            assert(self.0.children@.skip(0) =~= self.0.children@);
        }
        match nth_expr_node(&self.0.children, 0, 1) {
            Some(c) => Expr::cast(c),
            None => None,
        }
    }

    /// The operator token: the first child token with an operator kind.
    pub fn op(&self) -> (r: Option<&'a SyntaxToken>)
        ensures
            match r {
                Some(t) => spec_binop_token(self.0.children@) == Some(*t) && spec_is_binop_kind(
                    t.kind,
                ),
                None => spec_binop_token(self.0.children@) is None,
            },
    {
        proof {
            assert(self.0.children@.skip(0) =~= self.0.children@);
        }
        binop_token(&self.0.children, 0)
    }
}

/// A literal expression.
#[derive(Debug, Clone, Copy)]
pub struct Literal<'a>(pub &'a SyntaxNode);

/// The value category of a literal, read from its token.
#[derive(Debug, Clone, Copy)]
pub enum LiteralKind<'a> {
    Integer(token::Integer<'a>),
    String(token::StringToken<'a>),
    Bool(bool),
}

impl<'a> Literal<'a> {
    /// Views a raw node as a literal.
    pub fn cast(node: &'a SyntaxNode) -> (r: Option<Literal<'a>>)
        ensures
            match r {
                Some(l) => node.kind == SyntaxKind::Literal && *l.0 == *node,
                None => node.kind != SyntaxKind::Literal,
            },
    {
        if matches!(node.kind, SyntaxKind::Literal) {
            Some(Literal(node))
        } else {
            None
        }
    }

    /// The first token under the literal.
    pub fn first_token(&self) -> (r: Option<&'a SyntaxToken>)
        ensures
            match r {
                Some(t) => spec_first_token_of(*self.0) == Some(*t),
                None => spec_first_token_of(*self.0) is None,
            },
    {
        let node: &'a SyntaxNode = self.0;
        node.first_token()
    }

    /// The kind of the literal, classified by its first token: `None` when
    /// the node holds no token or the token is not a literal token.
    pub fn kind(&self) -> (r: Option<LiteralKind<'a>>)
        ensures
            match r {
                Some(lk) => spec_first_token_of(*self.0) matches Some(t) && match lk {
                    LiteralKind::Integer(it) => t.kind == SyntaxKind::Integer && *it.0 == t,
                    LiteralKind::String(st) => t.kind == SyntaxKind::String && *st.0 == t,
                    LiteralKind::Bool(b) => (t.kind == SyntaxKind::True && b) || (t.kind
                        == SyntaxKind::False && !b),
                },
                None => !(spec_first_token_of(*self.0) matches Some(t) && (t.kind
                    == SyntaxKind::Integer || t.kind == SyntaxKind::String || t.kind
                    == SyntaxKind::True || t.kind == SyntaxKind::False)),
            },
    {
        match self.first_token() {
            Some(t) => match t.kind {
                SyntaxKind::Integer => Some(LiteralKind::Integer(token::Integer(t))),
                SyntaxKind::String => Some(LiteralKind::String(token::StringToken(t))),
                SyntaxKind::True => Some(LiteralKind::Bool(true)),
                SyntaxKind::False => Some(LiteralKind::Bool(false)),
                _ => None,
            },
            None => None,
        }
    }
}

/// A parenthesized expression.
#[derive(Debug, Clone, Copy)]
pub struct ParenExpr<'a>(pub &'a SyntaxNode);

impl<'a> ParenExpr<'a> {
    /// The inner expression.
    pub fn expr(&self) -> (r: Option<Expr<'a>>)
        ensures
            match r {
                Some(e) => spec_expr_nodes(self.0.children@).len() >= 1 && expr_wraps(
                    e,
                    spec_expr_nodes(self.0.children@)[0],
                ),
                None => spec_expr_nodes(self.0.children@).len() == 0,
            },
    {
        proof {
            assert(self.0.children@.skip(0) =~= self.0.children@);
        }
        match nth_expr_node(&self.0.children, 0, 0) {
            Some(c) => Expr::cast(c),
            None => None,
        }
    }
}

/// A prefix (unary) expression.
#[derive(Debug, Clone, Copy)]
pub struct UnaryExpr<'a>(pub &'a SyntaxNode);

impl<'a> UnaryExpr<'a> {
    /// The operand: the first expression child.
    pub fn expr(&self) -> (r: Option<Expr<'a>>)
        ensures
            match r {
                Some(e) => spec_expr_nodes(self.0.children@).len() >= 1 && expr_wraps(
                    e,
                    spec_expr_nodes(self.0.children@)[0],
                ),
                None => spec_expr_nodes(self.0.children@).len() == 0,
            },
    {
        proof {
            assert(self.0.children@.skip(0) =~= self.0.children@);
        }
        match nth_expr_node(&self.0.children, 0, 0) {
            Some(c) => Expr::cast(c),
            None => None,
        }
    }

    /// The operator token: the first minus token among the children.
    pub fn op(&self) -> (r: Option<&'a SyntaxToken>)
        ensures
            match r {
                Some(t) => spec_first_kind_token(self.0.children@, SyntaxKind::Minus) == Some(*t),
                None => spec_first_kind_token(self.0.children@, SyntaxKind::Minus) is None,
            },
    {
        proof {
            assert(self.0.children@.skip(0) =~= self.0.children@);
        }
        first_kind_token(&self.0.children, 0, SyntaxKind::Minus)
    }
}

/// A variable reference.
#[derive(Debug, Clone, Copy)]
pub struct VariableRef<'a>(pub &'a SyntaxNode);

impl<'a> VariableRef<'a> {
    /// The referenced name: the first token under the node.
    pub fn name(&self) -> (r: Option<&'a SyntaxToken>)
        ensures
            match r {
                Some(t) => spec_first_token_of(*self.0) == Some(*t),
                None => spec_first_token_of(*self.0) is None,
            },
    {
        let node: &'a SyntaxNode = self.0;
        node.first_token()
    }
}

} // verus!
