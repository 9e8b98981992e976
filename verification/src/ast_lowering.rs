//! Lowering: one walk over the typed syntax tree that desugars it into the
//! flat semantic representation, allocating every sub-expression into an
//! arena and referring to children by index.
use vstd::prelude::*;
use vstd::string::StringExecFns;
use crate::ast;
use crate::ast::{size_node, lemma_size_elem_pos};
use crate::ast::expr::{
    spec_expr_nodes,
    spec_first_kind_token,
    spec_binop_token,
    expr_node,
    expr_wraps,
};
use crate::ast::stmt::{spec_stmt_nodes, stmt_node, stmt_wraps};
use crate::ast::token::spec_parse_u64;
use crate::hir;
use crate::hir::{
    Arena,
    arena_view,
    view_expr,
    view_stmt,
    SpecExpr,
    SpecStmt,
    SpecLiteral,
};
use crate::syntax_kind::SyntaxKind;
use crate::tree::{SyntaxNode, SyntaxElement, spec_first_token_of};

verus! {

// ---------------------------------------------------------------------------
// The mathematical mirror of lowering.
// ---------------------------------------------------------------------------
/// Size of an optional node, for termination of the lowering recursion.
pub open spec fn spec_opt_size(n: Option<SyntaxNode>) -> nat {
    match n {
        None => 0,
        Some(m) => size_node(m),
    }
}

/// The `k`-th expression child of `m`, if it has one.
pub open spec fn opt_child(m: SyntaxNode, k: int) -> Option<SyntaxNode> {
    if spec_expr_nodes(m.children@).len() > k {
        Some(spec_expr_nodes(m.children@)[k])
    } else {
        None
    }
}

/// Every expression-castable child is strictly smaller than its sequence.
proof fn lemma_expr_nodes_size(s: Seq<SyntaxElement>, k: int)
    requires
        0 <= k < spec_expr_nodes(s).len(),
    ensures
        size_node(spec_expr_nodes(s)[k]) <= ast::size_elems(s),
    decreases s.len(),
{
    assert(s.len() > 0);
    lemma_size_elem_pos(s[0]);
    assert(ast::size_elems(s) == ast::size_elem(s[0]) + ast::size_elems(s.drop_first()));
    match s[0] {
        SyntaxElement::Node(n) => {
            if crate::ast::expr::spec_expr_castable(n.kind) {
                if k == 0 {
                    assert(spec_expr_nodes(s)[0] == n);
                    assert(ast::size_elem(s[0]) == size_node(n));
                } else {
                    lemma_expr_nodes_size(s.drop_first(), k - 1);
                    assert(spec_expr_nodes(s)[k] == spec_expr_nodes(s.drop_first())[k - 1]);
                }
            } else {
                lemma_expr_nodes_size(s.drop_first(), k);
            }
        },
        SyntaxElement::Token(_) => {
            lemma_expr_nodes_size(s.drop_first(), k);
        },
    }
}

/// An expression child of `m` is strictly smaller than `m`.
pub proof fn lemma_child_smaller(m: SyntaxNode, k: int)
    requires
        0 <= k < spec_expr_nodes(m.children@).len(),
    ensures
        size_node(spec_expr_nodes(m.children@)[k]) < size_node(m),
{
    lemma_expr_nodes_size(m.children@, k);
    assert(size_node(m) == 1 + ast::size_elems(m.children@));
}

/// The lowered operator of an operator token kind.
pub open spec fn spec_binop_of(k: SyntaxKind) -> hir::BinaryOp {
    if k == SyntaxKind::Plus {
        hir::BinaryOp::Add
    } else if k == SyntaxKind::Minus {
        hir::BinaryOp::Sub
    } else if k == SyntaxKind::Star {
        hir::BinaryOp::Mul
    } else if k == SyntaxKind::Slash {
        hir::BinaryOp::Div
    } else if k == SyntaxKind::Percent {
        hir::BinaryOp::Rem
    } else if k == SyntaxKind::AmpersandAmpersand {
        hir::BinaryOp::And
    } else if k == SyntaxKind::BarBar {
        hir::BinaryOp::Or
    } else if k == SyntaxKind::EqualsEquals {
        hir::BinaryOp::Eq
    } else if k == SyntaxKind::LessThan {
        hir::BinaryOp::Lt
    } else if k == SyntaxKind::LessThanEqual {
        hir::BinaryOp::Le
    } else if k == SyntaxKind::BangEquals {
        hir::BinaryOp::Ne
    } else if k == SyntaxKind::GreaterThan {
        hir::BinaryOp::Gt
    } else {
        hir::BinaryOp::Ge
    }
}

/// Lowering a literal node: classified by its first token; a malformed
/// literal degrades to `Missing`.
pub open spec fn spec_lower_literal(m: SyntaxNode) -> SpecExpr {
    match spec_first_token_of(m) {
        None => SpecExpr::Missing,
        Some(t) => if t.kind == SyntaxKind::Integer {
            SpecExpr::Literal(SpecLiteral::Integer { value: spec_parse_u64(t.text@) })
        } else if t.kind == SyntaxKind::String {
            SpecExpr::Literal(SpecLiteral::Str { value: t.text@ })
        } else if t.kind == SyntaxKind::True {
            SpecExpr::Literal(SpecLiteral::Bool { value: true })
        } else if t.kind == SyntaxKind::False {
            SpecExpr::Literal(SpecLiteral::Bool { value: false })
        } else {
            SpecExpr::Missing
        },
    }
}

/// Lowering a variable reference: its first token's text.
pub open spec fn spec_lower_vref(m: SyntaxNode) -> SpecExpr {
    match spec_first_token_of(m) {
        None => SpecExpr::Missing,
        Some(t) => SpecExpr::VariableRef { var: t.text@ },
    }
}

/// Lowering an optional expression node: the arena it leaves behind and
/// the lowered expression. A missing node lowers to `Missing` and leaves
/// the arena unchanged.
pub open spec fn spec_lower_expr(arena: Seq<SpecExpr>, n: Option<SyntaxNode>) -> (
    Seq<SpecExpr>,
    SpecExpr,
)
    decreases spec_opt_size(n), 1int,
    via spec_lower_expr_decreases
{
    match n {
        None => (arena, SpecExpr::Missing),
        Some(m) => if m.kind == SyntaxKind::InfixExpr {
            spec_lower_binary(arena, m)
        } else if m.kind == SyntaxKind::Literal {
            (arena, spec_lower_literal(m))
        } else if m.kind == SyntaxKind::ParenExpr {
            spec_lower_expr(arena, opt_child(m, 0))
        } else if m.kind == SyntaxKind::PrefixExpr {
            spec_lower_unary(arena, m)
        } else if m.kind == SyntaxKind::VariableRef {
            (arena, spec_lower_vref(m))
        } else {
            (arena, SpecExpr::Missing)
        },
    }
}

#[via_fn]
proof fn spec_lower_expr_decreases(arena: Seq<SpecExpr>, n: Option<SyntaxNode>) {
    match n {
        Some(m) => {
            if spec_expr_nodes(m.children@).len() > 0 {
                lemma_child_smaller(m, 0);
            }
        },
        None => {},
    }
}

/// Lowering an infix node: both operands are lowered and allocated first
/// (left then right), and the result refers to them by the two indices just
/// past the operand lowerings. Without an operator token it degrades to
/// `Missing`.
pub open spec fn spec_lower_binary(arena: Seq<SpecExpr>, m: SyntaxNode) -> (Seq<SpecExpr>, SpecExpr)
    decreases size_node(m), 0int,
    via spec_lower_binary_decreases
{
    match spec_binop_token(m.children@) {
        None => (arena, SpecExpr::Missing),
        Some(t) => {
            let op = spec_binop_of(t.kind);
            let lowered_lhs = spec_lower_expr(arena, opt_child(m, 0));
            let lowered_rhs = spec_lower_expr(lowered_lhs.0, opt_child(m, 1));
            let base = lowered_rhs.0.len() as int;
            (
                lowered_rhs.0.push(lowered_lhs.1).push(lowered_rhs.1),
                SpecExpr::Binary { op, lhs: base, rhs: base + 1 },
            )
        },
    }
}

#[via_fn]
proof fn spec_lower_binary_decreases(arena: Seq<SpecExpr>, m: SyntaxNode) {
    if spec_expr_nodes(m.children@).len() > 0 {
        lemma_child_smaller(m, 0);
    }
    if spec_expr_nodes(m.children@).len() > 1 {
        lemma_child_smaller(m, 1);
    }
}

/// Lowering a prefix node: the operand is lowered and allocated, and the
/// result refers to it by index. Without a minus token it degrades to
/// `Missing`.
pub open spec fn spec_lower_unary(arena: Seq<SpecExpr>, m: SyntaxNode) -> (Seq<SpecExpr>, SpecExpr)
    decreases size_node(m), 0int,
    via spec_lower_unary_decreases
{
    match spec_first_kind_token(m.children@, SyntaxKind::Minus) {
        None => (arena, SpecExpr::Missing),
        Some(_) => {
            let lowered = spec_lower_expr(arena, opt_child(m, 0));
            (
                lowered.0.push(lowered.1),
                SpecExpr::Unary { op: hir::UnaryOp::Neg, expr: lowered.0.len() as int },
            )
        },
    }
}

#[via_fn]
proof fn spec_lower_unary_decreases(arena: Seq<SpecExpr>, m: SyntaxNode) {
    if spec_expr_nodes(m.children@).len() > 0 {
        lemma_child_smaller(m, 0);
    }
}

/// Lowering a statement node: a definition without a name is dropped
/// entirely (`None`, arena untouched); otherwise the value (or the
/// expression statement itself) is lowered.
pub open spec fn spec_lower_stmt(arena: Seq<SpecExpr>, n: SyntaxNode) -> Option<
    (Seq<SpecExpr>, SpecStmt),
> {
    if n.kind == SyntaxKind::VariableDef {
        match spec_first_kind_token(n.children@, SyntaxKind::Ident) {
            None => None,
            Some(t) => {
                let lowered = spec_lower_expr(arena, opt_child(n, 0));
                Some(
                    (lowered.0, SpecStmt::VariableDef { name: t.text@, value: lowered.1 }),
                )
            },
        }
    } else {
        let lowered = spec_lower_expr(arena, Some(n));
        Some((lowered.0, SpecStmt::Expr(lowered.1)))
    }
}

/// Lowering a sequence of statement nodes left to right, threading the
/// arena through and skipping dropped statements.
pub open spec fn spec_lower_stmts(arena: Seq<SpecExpr>, nodes: Seq<SyntaxNode>) -> (
    Seq<SpecExpr>,
    Seq<SpecStmt>,
)
    decreases nodes.len(),
{
    if nodes.len() == 0 {
        (arena, Seq::empty())
    } else {
        match spec_lower_stmt(arena, nodes[0]) {
            None => spec_lower_stmts(arena, nodes.drop_first()),
            Some(p) => {
                let rest = spec_lower_stmts(p.0, nodes.drop_first());
                (rest.0, seq![p.1] + rest.1)
            },
        }
    }
}

/// Lowering only ever appends to the arena: what was allocated before is
/// still there, unchanged, at the same indices.
pub proof fn lemma_lower_expr_extends(arena: Seq<SpecExpr>, n: Option<SyntaxNode>)
    ensures
        spec_lower_expr(arena, n).0.len() >= arena.len(),
        spec_lower_expr(arena, n).0.take(arena.len() as int) == arena,
    decreases spec_opt_size(n), 1int,
{
    assert(arena.take(arena.len() as int) =~= arena);
    match n {
        None => {},
        Some(m) => {
            if m.kind == SyntaxKind::InfixExpr {
                lemma_lower_binary_extends(arena, m);
            } else if m.kind == SyntaxKind::ParenExpr {
                proof_child_smaller_first(m);
                lemma_lower_expr_extends(arena, opt_child(m, 0));
            } else if m.kind == SyntaxKind::PrefixExpr {
                lemma_lower_unary_extends(arena, m);
            }
        },
    }
}

proof fn proof_child_smaller_first(m: SyntaxNode)
    ensures
        spec_opt_size(opt_child(m, 0)) < size_node(m),
        spec_opt_size(opt_child(m, 1)) < size_node(m),
{
    if spec_expr_nodes(m.children@).len() > 0 {
        lemma_child_smaller(m, 0);
    }
    if spec_expr_nodes(m.children@).len() > 1 {
        lemma_child_smaller(m, 1);
    }
    assert(size_node(m) >= 1);
}

proof fn lemma_lower_binary_extends(arena: Seq<SpecExpr>, m: SyntaxNode)
    ensures
        spec_lower_binary(arena, m).0.len() >= arena.len(),
        spec_lower_binary(arena, m).0.take(arena.len() as int) == arena,
    decreases size_node(m), 0int,
{
    assert(arena.take(arena.len() as int) =~= arena);
    match spec_binop_token(m.children@) {
        None => {},
        Some(t) => {
            proof_child_smaller_first(m);
            lemma_lower_expr_extends(arena, opt_child(m, 0));
            let a1 = spec_lower_expr(arena, opt_child(m, 0)).0;
            lemma_lower_expr_extends(a1, opt_child(m, 1));
            let a2 = spec_lower_expr(a1, opt_child(m, 1)).0;
            assert(a1.take(arena.len() as int) =~= arena);
            assert(a2.take(a1.len() as int).take(arena.len() as int) =~= a2.take(
                arena.len() as int,
            ));
            let done = spec_lower_binary(arena, m).0;
            assert(done.take(arena.len() as int) =~= a2.take(arena.len() as int));
        },
    }
}

proof fn lemma_lower_unary_extends(arena: Seq<SpecExpr>, m: SyntaxNode)
    ensures
        spec_lower_unary(arena, m).0.len() >= arena.len(),
        spec_lower_unary(arena, m).0.take(arena.len() as int) == arena,
    decreases size_node(m), 0int,
{
    assert(arena.take(arena.len() as int) =~= arena);
    match spec_first_kind_token(m.children@, SyntaxKind::Minus) {
        None => {},
        Some(_) => {
            proof_child_smaller_first(m);
            lemma_lower_expr_extends(arena, opt_child(m, 0));
            let a1 = spec_lower_expr(arena, opt_child(m, 0)).0;
            let done = spec_lower_unary(arena, m).0;
            assert(done.take(arena.len() as int) =~= a1.take(arena.len() as int));
        },
    }
}

// ---------------------------------------------------------------------------
// The executable lowering.
// ---------------------------------------------------------------------------
/// The views of a sequence of lowered statements.
pub open spec fn stmts_views(v: Seq<hir::Stmt>) -> Seq<SpecStmt> {
    v.map_values(|s: hir::Stmt| view_stmt(s))
}

/// Owns the arena of one lowering pass.
#[derive(Debug, PartialEq)]
pub struct Database {
    pub exprs: Arena,
}

impl Default for Database {
    /// A fresh database with an empty arena.
    fn default() -> (r: Database)
        ensures
            arena_view(r.exprs).len() == 0,
    {
        Database { exprs: Arena::new() }
    }
}

/// Lowers the given syntax tree into the semantic representation: the
/// arena that owns every lowered sub-expression, plus the top-level
/// statements.
pub fn lower_root(root: ast::Root) -> (r: (Database, Vec<hir::Stmt>))
    ensures
        ({
            let lowered = spec_lower_stmts(
                Seq::<SpecExpr>::empty(),
                spec_stmt_nodes(root.0.children@),
            );
            arena_view(r.0.exprs) == lowered.0 && stmts_views(r.1@) == lowered.1
        }),
{
    let mut database = Database::default();
    let ghost nodes = spec_stmt_nodes(root.0.children@);
    let stmt_views = root.stmts();
    let count = stmt_views.len();
    let mut out: Vec<hir::Stmt> = Vec::new();
    let mut i: usize = 0;
    proof {
        assert(arena_view(database.exprs) =~= Seq::<SpecExpr>::empty());
        assert(nodes.skip(0) =~= nodes);
        assert(stmts_views(out@) =~= Seq::<SpecStmt>::empty());
    }
    while i < count
        invariant
            count == stmt_views@.len(),
            count == nodes.len(),
            0 <= i <= count,
            forall|j: int|
                0 <= j < count ==> stmt_wraps(#[trigger] stmt_views@[j], nodes[j]),
            ({
                let full = spec_lower_stmts(Seq::<SpecExpr>::empty(), nodes);
                let rest = spec_lower_stmts(arena_view(database.exprs), nodes.skip(i as int));
                full.0 == rest.0 && full.1 == stmts_views(out@) + rest.1
            }),
        decreases count - i,
    {
        let stmt = stmt_views[i];
        proof {
            assert(stmt_wraps(stmt, nodes[i as int]));
            assert(nodes.skip(i as int)[0] == nodes[i as int]);
            assert(nodes.skip(i as int).drop_first() =~= nodes.skip(i + 1));
        }
        let lowered = database.lower_stmt(stmt);
        match lowered {
            Some(s) => {
                proof {
                    assert(stmts_views(out@.push(s)) =~= stmts_views(out@).push(view_stmt(s)));
                    let full = spec_lower_stmts(Seq::<SpecExpr>::empty(), nodes);
                    let rest = spec_lower_stmts(
                        arena_view(database.exprs),
                        nodes.skip(i + 1),
                    );
                    assert(full.1 =~= stmts_views(out@.push(s)) + rest.1);
                }
                out.push(s);
            },
            None => {},
        }
        i = i + 1;
    }
    proof {
        assert(nodes.skip(count as int).len() == 0);
        let full = spec_lower_stmts(Seq::<SpecExpr>::empty(), nodes);
        assert(full.0 =~= arena_view(database.exprs));
        assert(full.1 =~= stmts_views(out@));
    }
    (database, out)
}

impl Database {
    /// The arena of lowered expressions.
    pub fn exprs(&self) -> (r: &Arena)
        ensures
            r == &self.exprs,
    {
        &self.exprs
    }

    /// Lowers one statement; a definition without a name is dropped.
    pub fn lower_stmt(&mut self, stmt: ast::stmt::Stmt<'_>) -> (r: Option<hir::Stmt>)
        requires
            stmt_wraps(stmt, stmt_node(stmt)),
        ensures
            match r {
                Some(s) => spec_lower_stmt(
                    arena_view(old(self).exprs),
                    stmt_node(stmt),
                ) matches Some(p) && arena_view(final(self).exprs) == p.0 && view_stmt(s) == p.1,
                None => spec_lower_stmt(arena_view(old(self).exprs), stmt_node(stmt)) is None
                    && *final(self) == *old(self),
            },
    {
        match stmt {
            ast::stmt::Stmt::VariableDef(variable_def) => {
                match variable_def.name() {
                    None => None,
                    Some(name_token) => {
                        let name = String::from_str(name_token.text.as_str());
                        let value = self.lower_expr(variable_def.value());
                        Some(hir::Stmt::VariableDef { name, value })
                    },
                }
            },
            ast::stmt::Stmt::Expr(expr) => {
                let value = self.lower_expr(Some(expr));
                Some(hir::Stmt::Expr(value))
            },
        }
    }

    /// Lowers an optional expression; absence lowers to `Missing`.
    pub fn lower_expr(&mut self, expr: Option<ast::expr::Expr<'_>>) -> (r: hir::Expr)
        requires
            match expr {
                Some(e) => expr_wraps(e, expr_node(e)),
                None => true,
            },
        ensures
            ({
                let lowered = spec_lower_expr(
                    arena_view(old(self).exprs),
                    match expr {
                        Some(e) => Some(expr_node(e)),
                        None => None,
                    },
                );
                arena_view(final(self).exprs) == lowered.0 && view_expr(r) == lowered.1
            }),
        decreases spec_opt_size(
            match expr {
                Some(e) => Some(expr_node(e)),
                None => None,
            },
        ), 1int,
    {
        match expr {
            Some(e) => match e {
                ast::expr::Expr::BinaryExpr(b) => self.lower_binary_expr(b),
                ast::expr::Expr::Literal(l) => self.lower_literal(l),
                ast::expr::Expr::ParenExpr(p) => self.lower_paren_expr(p),
                ast::expr::Expr::UnaryExpr(u) => self.lower_unary_expr(u),
                ast::expr::Expr::VariableRef(v) => self.lower_variable_ref(v),
            },
            None => hir::Expr::Missing,
        }
    }

    /// Lowers an infix expression: operands first, then the node itself.
    fn lower_binary_expr(&mut self, expr: ast::expr::BinaryExpr<'_>) -> (r: hir::Expr)
        requires
            expr.0.kind == SyntaxKind::InfixExpr,
        ensures
            ({
                let lowered = spec_lower_binary(arena_view(old(self).exprs), *expr.0);
                arena_view(final(self).exprs) == lowered.0 && view_expr(r) == lowered.1
            }),
        decreases size_node(*expr.0), 0int,
    {
        let ghost m = *expr.0;
        match expr.op() {
            None => hir::Expr::Missing,
            Some(op_token) => {
                let op = match op_token.kind {
                    SyntaxKind::Plus => hir::BinaryOp::Add,
                    SyntaxKind::Minus => hir::BinaryOp::Sub,
                    SyntaxKind::Star => hir::BinaryOp::Mul,
                    SyntaxKind::Slash => hir::BinaryOp::Div,
                    SyntaxKind::Percent => hir::BinaryOp::Rem,
                    SyntaxKind::AmpersandAmpersand => hir::BinaryOp::And,
                    SyntaxKind::BarBar => hir::BinaryOp::Or,
                    SyntaxKind::EqualsEquals => hir::BinaryOp::Eq,
                    SyntaxKind::LessThan => hir::BinaryOp::Lt,
                    SyntaxKind::LessThanEqual => hir::BinaryOp::Le,
                    SyntaxKind::BangEquals => hir::BinaryOp::Ne,
                    SyntaxKind::GreaterThan => hir::BinaryOp::Gt,
                    SyntaxKind::GreaterThanEqual => hir::BinaryOp::Ge,
                    _ => {
                        proof {
                            assert(false);
                        }
                        hir::BinaryOp::Add
                    },
                };
                proof {
                    assert(op == spec_binop_of(op_token.kind));
                    proof_child_smaller_first(m);
                }
                let lhs_ast = expr.lhs();
                proof {
                    assert(match lhs_ast {
                        Some(e) => Some(expr_node(e)) == opt_child(m, 0),
                        None => opt_child(m, 0) is None,
                    });
                }
                let lhs = self.lower_expr(lhs_ast);
                let rhs_ast = expr.rhs();
                proof {
                    assert(match rhs_ast {
                        Some(e) => Some(expr_node(e)) == opt_child(m, 1),
                        None => opt_child(m, 1) is None,
                    });
                }
                let rhs = self.lower_expr(rhs_ast);
                let lhs_idx = self.exprs.allocate(lhs);
                let rhs_idx = self.exprs.allocate(rhs);
                hir::Expr::Binary { lhs: lhs_idx, op, rhs: rhs_idx }
            },
        }
    }

    /// Lowers a prefix expression: the operand first, then the node.
    fn lower_unary_expr(&mut self, expr: ast::expr::UnaryExpr<'_>) -> (r: hir::Expr)
        requires
            expr.0.kind == SyntaxKind::PrefixExpr,
        ensures
            ({
                let lowered = spec_lower_unary(arena_view(old(self).exprs), *expr.0);
                arena_view(final(self).exprs) == lowered.0 && view_expr(r) == lowered.1
            }),
        decreases size_node(*expr.0), 0int,
    {
        let ghost m = *expr.0;
        match expr.op() {
            None => hir::Expr::Missing,
            Some(_) => {
                proof {
                    proof_child_smaller_first(m);
                }
                let inner_ast = expr.expr();
                proof {
                    assert(match inner_ast {
                        Some(e) => Some(expr_node(e)) == opt_child(m, 0),
                        None => opt_child(m, 0) is None,
                    });
                }
                let inner_expr = self.lower_expr(inner_ast);
                let idx = self.exprs.allocate(inner_expr);
                hir::Expr::Unary { expr: idx, op: hir::UnaryOp::Neg }
            },
        }
    }

    /// Lowers a literal by its first token; the arena is untouched.
    fn lower_literal(&mut self, expr: ast::expr::Literal<'_>) -> (r: hir::Expr)
        ensures
            *final(self) == *old(self),
            view_expr(r) == spec_lower_literal(*expr.0),
    {
        match expr.kind() {
            Some(ast::expr::LiteralKind::Integer(kind)) => {
                let value = kind.parse();
                hir::Expr::Literal(hir::Literal::Integer { value })
            },
            Some(ast::expr::LiteralKind::Bool(value)) => {
                hir::Expr::Literal(hir::Literal::Bool { value })
            },
            Some(ast::expr::LiteralKind::String(kind)) => {
                let value = String::from_str(kind.value());
                hir::Expr::Literal(hir::Literal::String { value })
            },
            None => hir::Expr::Missing,
        }
    }

    /// Lowers a parenthesized expression to its inner expression.
    fn lower_paren_expr(&mut self, expr: ast::expr::ParenExpr<'_>) -> (r: hir::Expr)
        requires
            expr.0.kind == SyntaxKind::ParenExpr,
        ensures
            ({
                let lowered = spec_lower_expr(arena_view(old(self).exprs), Some(*expr.0));
                arena_view(final(self).exprs) == lowered.0 && view_expr(r) == lowered.1
            }),
        decreases size_node(*expr.0), 0int,
    {
        let ghost m = *expr.0;
        proof {
            proof_child_smaller_first(m);
        }
        let inner = expr.expr();
        proof {
            assert(match inner {
                Some(e) => Some(expr_node(e)) == opt_child(m, 0),
                None => opt_child(m, 0) is None,
            });
        }
        self.lower_expr(inner)
    }

    /// Lowers a variable reference to its referenced name.
    fn lower_variable_ref(&mut self, expr: ast::expr::VariableRef<'_>) -> (r: hir::Expr)
        ensures
            *final(self) == *old(self),
            view_expr(r) == spec_lower_vref(*expr.0),
    {
        match expr.name() {
            None => hir::Expr::Missing,
            Some(t) => {
                let var = String::from_str(t.text.as_str());
                hir::Expr::VariableRef { var }
            },
        }
    }
}

} // verus!
