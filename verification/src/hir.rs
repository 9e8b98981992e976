//! The lowered semantic representation: flat statements and expressions
//! whose children are arena indices rather than nested boxes.
use vstd::prelude::*;

verus! {

/// A stable handle into the expression arena.
#[derive(Debug, Clone, Copy, PartialEq, Eq, Structural)]
pub struct ExprIdx {
    pub raw: usize,
}

/// A lowered statement.
#[derive(Debug, PartialEq)]
pub enum Stmt {
    VariableDef { name: String, value: Expr },
    Expr(Expr),
}

/// A lowered expression. `Missing` marks a syntax position that was absent
/// or malformed: lowering never fails, it degrades.
#[derive(Debug, PartialEq)]
pub enum Expr {
    Missing,
    Binary { op: BinaryOp, lhs: ExprIdx, rhs: ExprIdx },
    Unary { op: UnaryOp, expr: ExprIdx },
    VariableRef { var: String },
    Literal(Literal),
}

/// A lowered binary operator.
#[derive(Debug, Clone, Copy, PartialEq, Eq, Structural)]
pub enum BinaryOp {
    /// The `+` operator (addition)
    Add,
    /// The `-` operator (subtraction)
    Sub,
    /// The `*` operator (multiplication)
    Mul,
    /// The `/` operator (division)
    Div,
    /// The `%` operator (modulus)
    Rem,
    /// The `&&` operator (logical and)
    And,
    /// The `||` operator (logical or)
    Or,
    /// The `==` operator (equality)
    Eq,
    /// The `<` operator (less than)
    Lt,
    /// The `<=` operator (less than or equal to)
    Le,
    /// The `!=` operator (not equal to)
    Ne,
    /// The `>` operator (greater than)
    Gt,
    /// The `>=` operator (greater than or equal to)
    Ge,
}

/// A lowered unary operator.
#[derive(Debug, Clone, Copy, PartialEq, Eq, Structural)]
pub enum UnaryOp {
    /// The `-` operator (negation)
    Neg,
    /// The `!` operator (logical inversion)
    Not,
}

/// A lowered literal value.
#[derive(Debug, PartialEq)]
pub enum Literal {
    Integer { value: Option<u64> },
    String { value: String },
    Bool { value: bool },
}

// ---------------------------------------------------------------------------
// The mathematical mirror of lowered values.
// ---------------------------------------------------------------------------
/// The mathematical view of a lowered literal.
pub enum SpecLiteral {
    Integer { value: Option<u64> },
    Str { value: Seq<char> },
    Bool { value: bool },
}

/// The mathematical view of a lowered expression.
pub enum SpecExpr {
    Missing,
    Binary { op: BinaryOp, lhs: int, rhs: int },
    Unary { op: UnaryOp, expr: int },
    VariableRef { var: Seq<char> },
    Literal(SpecLiteral),
}

/// The mathematical view of a lowered statement.
pub enum SpecStmt {
    VariableDef { name: Seq<char>, value: SpecExpr },
    Expr(SpecExpr),
}

/// View of a literal.
pub open spec fn view_literal(l: Literal) -> SpecLiteral {
    match l {
        Literal::Integer { value } => SpecLiteral::Integer { value },
        Literal::String { value } => SpecLiteral::Str { value: value@ },
        Literal::Bool { value } => SpecLiteral::Bool { value },
    }
}

/// View of an expression.
pub open spec fn view_expr(e: Expr) -> SpecExpr {
    match e {
        Expr::Missing => SpecExpr::Missing,
        Expr::Binary { op, lhs, rhs } => SpecExpr::Binary {
            op,
            lhs: lhs.raw as int,
            rhs: rhs.raw as int,
        },
        Expr::Unary { op, expr } => SpecExpr::Unary { op, expr: expr.raw as int },
        Expr::VariableRef { var } => SpecExpr::VariableRef { var: var@ },
        Expr::Literal(l) => SpecExpr::Literal(view_literal(l)),
    }
}

/// View of a statement.
pub open spec fn view_stmt(s: Stmt) -> SpecStmt {
    match s {
        Stmt::VariableDef { name, value } => SpecStmt::VariableDef {
            name: name@,
            value: view_expr(value),
        },
        Stmt::Expr(e) => SpecStmt::Expr(view_expr(e)),
    }
}

// ---------------------------------------------------------------------------
// The arena.
// ---------------------------------------------------------------------------
/// An append-only table owning lowered expressions, addressed by stable
/// integer handles.
#[derive(Debug, PartialEq)]
pub struct Arena {
    pub items: Vec<Expr>,
}

/// The mathematical view of an arena: its expressions' views, in
/// allocation order.
pub open spec fn arena_view(a: Arena) -> Seq<SpecExpr> {
    a.items@.map_values(|e: Expr| view_expr(e))
}

impl Arena {
    /// An empty arena.
    pub fn new() -> (r: Arena)
        ensures
            arena_view(r).len() == 0,
            r.items@.len() == 0,
    {
        let a = Arena { items: Vec::new() };
        proof {
            assert(arena_view(a) =~= Seq::<SpecExpr>::empty());
        }
        a
    }

    /// How many expressions have been allocated.
    pub fn len(&self) -> (r: usize)
        ensures
            r == self.items@.len(),
            r == arena_view(*self).len(),
    {
        self.items.len()
    }

    /// Allocates an expression, returning its handle. The arena only ever
    /// grows, so the handle stays valid.
    pub fn allocate(&mut self, e: Expr) -> (r: ExprIdx)
        ensures
            r.raw == old(self).items@.len(),
            final(self).items@ == old(self).items@.push(e),
            arena_view(*final(self)) == arena_view(*old(self)).push(view_expr(e)),
    {
        let raw = self.items.len();
        self.items.push(e);
        proof {
            assert(arena_view(*self) =~= arena_view(*old(self)).push(
                view_expr(self.items@.last()),
            ));
        }
        ExprIdx { raw }
    }

    /// The expression behind a handle, when the handle is in range.
    pub fn get(&self, idx: ExprIdx) -> (r: Option<&Expr>)
        ensures
            match r {
                Some(e) => idx.raw < self.items@.len() && *e == self.items@[idx.raw as int],
                None => idx.raw >= self.items@.len(),
            },
    {
        if idx.raw < self.items.len() {
            Some(&self.items[idx.raw])
        } else {
            None
        }
    }
}

} // verus!
