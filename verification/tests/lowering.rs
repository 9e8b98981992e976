//! Lowering tests: the typed tree lowered into arena-backed statements.
use wlang::ast;
use wlang::ast_lowering::{Database, lower_root};
use wlang::hir::{Arena, BinaryOp, Expr, Literal, Stmt, UnaryOp};

fn parse(input: &str) -> ast::Root {
    ast::Root::cast(wlang::parse(input).syntax()).unwrap()
}

fn check_stmt(input: &str, expected_hir: Stmt) {
    let root = parse(input);
    let ast = root.stmts()[0];
    let hir = Database::default().lower_stmt(ast).unwrap();

    assert_eq!(hir, expected_hir);
}

fn check_expr(input: &str, expected_hir: Expr, expected_database: Database) {
    let root = parse(input);
    let first_stmt = root.stmts()[0];
    let ast = match first_stmt {
        ast::stmt::Stmt::Expr(ast) => ast,
        _ => unreachable!(),
    };
    let mut database = Database::default();
    let hir = database.lower_expr(Some(ast));

    assert_eq!(hir, expected_hir);
    assert_eq!(database, expected_database);
}

#[test]
fn lower_variable_def() {
    check_stmt(
        "let foo = bar",
        Stmt::VariableDef {
            name: "foo".into(),
            value: Expr::VariableRef { var: "bar".into() },
        },
    )
}

#[test]
fn lower_variable_def_without_name() {
    let root = parse("let = 10");
    let stmts = root.stmts();
    let ast = stmts[0];
    assert!(Database::default().lower_stmt(ast).is_none());
}

#[test]
fn lower_variable_def_without_value() {
    check_stmt(
        "let a =",
        Stmt::VariableDef { name: "a".into(), value: Expr::Missing },
    )
}

#[test]
fn lower_expr_stmt() {
    check_stmt(
        "123",
        Stmt::Expr(Expr::Literal(Literal::Integer { value: Some(123) })),
    )
}

#[test]
fn lower_binary_expr() {
    let mut exprs = Arena::new();
    let lhs = exprs.allocate(Expr::Literal(Literal::Integer { value: Some(1) }));
    let rhs = exprs.allocate(Expr::Literal(Literal::Integer { value: Some(2) }));

    check_expr(
        "1 + 2",
        Expr::Binary { lhs, op: BinaryOp::Add, rhs },
        Database { exprs },
    );
}

#[test]
fn lower_binary_expr_without_rhs() {
    let mut exprs = Arena::new();
    let lhs = exprs.allocate(Expr::Literal(Literal::Integer { value: Some(1) }));
    let rhs = exprs.allocate(Expr::Missing);

    check_expr(
        "1 + ",
        Expr::Binary { lhs, op: BinaryOp::Add, rhs },
        Database { exprs },
    );
}

#[test]
fn lower_literal() {
    check_expr(
        "1",
        Expr::Literal(Literal::Integer { value: Some(1) }),
        Database::default(),
    )
}

#[test]
fn lower_paren_expr() {
    check_expr(
        "(((((abc)))))",
        Expr::VariableRef { var: "abc".into() },
        Database::default(),
    )
}

#[test]
fn test_unary_expr() {
    let mut exprs = Arena::new();
    let expr = exprs.allocate(Expr::Literal(Literal::Integer { value: Some(10) }));

    check_expr(
        "-10",
        Expr::Unary { op: UnaryOp::Neg, expr },
        Database { exprs },
    )
}

#[test]
fn lower_unary_expr_without_expr() {
    let mut exprs = Arena::new();
    let expr = exprs.allocate(Expr::Missing);

    check_expr(
        "-",
        Expr::Unary { op: UnaryOp::Neg, expr },
        Database { exprs },
    );
}

#[test]
fn test_variable_ref() {
    check_expr(
        "abc",
        Expr::VariableRef { var: "abc".into() },
        Database::default(),
    )
}

#[test]
fn lower_bool_literal() {
    check_expr(
        "true",
        Expr::Literal(Literal::Bool { value: true }),
        Database::default(),
    )
}

#[test]
fn lower_string_literal() {
    check_expr(
        "\"hello\"",
        Expr::Literal(Literal::String { value: "\"hello\"".into() }),
        Database::default(),
    )
}

#[test]
fn lower_overflowing_integer_literal() {
    check_expr(
        "99999999999999999999999",
        Expr::Literal(Literal::Integer { value: None }),
        Database::default(),
    )
}

#[test]
fn lower_extended_operator() {
    let mut exprs = Arena::new();
    let lhs = exprs.allocate(Expr::Literal(Literal::Integer { value: Some(1) }));
    let rhs = exprs.allocate(Expr::Literal(Literal::Integer { value: Some(2) }));

    check_expr(
        "1 <= 2",
        Expr::Binary { lhs, op: BinaryOp::Le, rhs },
        Database { exprs },
    );
}

#[test]
fn arena_indices_resolve_to_the_allocated_operands() {
    let root = parse("1 + 2");
    let first_stmt = root.stmts()[0];
    let ast = match first_stmt {
        ast::stmt::Stmt::Expr(e) => e,
        _ => unreachable!(),
    };
    let mut database = Database::default();
    let hir = database.lower_expr(Some(ast));
    // exactly the two literal operands were allocated before the binary node
    assert_eq!(database.exprs().len(), 2);
    match hir {
        Expr::Binary { op: BinaryOp::Add, lhs, rhs } => {
            assert_eq!(
                database.exprs().get(lhs),
                Some(&Expr::Literal(Literal::Integer { value: Some(1) })),
            );
            assert_eq!(
                database.exprs().get(rhs),
                Some(&Expr::Literal(Literal::Integer { value: Some(2) })),
            );
        },
        other => panic!("{:?}", other),
    }
}

#[test]
fn lower_root_collects_all_statements() {
    let root = parse("let a = 1\na");
    let (database, stmts) = lower_root(root);
    assert_eq!(stmts.len(), 2);
    assert_eq!(
        stmts[0],
        Stmt::VariableDef {
            name: "a".into(),
            value: Expr::Literal(Literal::Integer { value: Some(1) }),
        },
    );
    assert_eq!(stmts[1], Stmt::Expr(Expr::VariableRef { var: "a".into() }));
    assert_eq!(database.exprs().len(), 0);
}
