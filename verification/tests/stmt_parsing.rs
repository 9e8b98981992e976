//! Statement grammar tests and tree-tag checks.
use wlang::SyntaxKind;
use wlang::parse;

fn check(input: &str, expected_tree: &str) {
    let parsed = parse(input);
    assert_eq!(parsed.debug_tree(), expected_tree);
}

#[test]
fn syntax_kind_to_u16() {
    println!("{}", SyntaxKind::Integer as u16);
}

#[test]
fn parse_function_declaration() {
    check(
        "func foo() {}",
        "Root@0..13
  FunctionDecl@0..13
    FuncKeyword@0..4 \"func\"
    Whitespace@4..5 \" \"
    VariableRef@5..8
      Ident@5..8 \"foo\"
    ParamList@8..11
      LParen@8..9 \"(\"
      RParen@9..10 \")\"
      Whitespace@10..11 \" \"
    BlockStmt@11..13
      LBrace@11..12 \"{\"
      RBrace@12..13 \"}\"",
    )
}

#[test]
fn parse_variable_definition() {
    check(
        "let foo = bar",
        "Root@0..13
  VariableDef@0..13
    LetKeyword@0..3 \"let\"
    Whitespace@3..4 \" \"
    Ident@4..7 \"foo\"
    Whitespace@7..8 \" \"
    Equals@8..9 \"=\"
    Whitespace@9..10 \" \"
    VariableRef@10..13
      Ident@10..13 \"bar\"",
    );
}

#[test]
fn parse_mutable_variable_definition() {
    check(
        "let mut foo = bar",
        "Root@0..17
  VariableDef@0..17
    LetKeyword@0..3 \"let\"
    Whitespace@3..4 \" \"
    MutKeyword@4..7 \"mut\"
    Whitespace@7..8 \" \"
    Ident@8..11 \"foo\"
    Whitespace@11..12 \" \"
    Equals@12..13 \"=\"
    Whitespace@13..14 \" \"
    VariableRef@14..17
      Ident@14..17 \"bar\"",
    )
}

#[test]
fn recover_on_let_token() {
    check(
        "let a =\nlet b = a",
        "Root@0..17
  VariableDef@0..8
    LetKeyword@0..3 \"let\"
    Whitespace@3..4 \" \"
    Ident@4..5 \"a\"
    Whitespace@5..6 \" \"
    Equals@6..7 \"=\"
    Whitespace@7..8 \"\\n\"
  VariableDef@8..17
    LetKeyword@8..11 \"let\"
    Whitespace@11..12 \" \"
    Ident@12..13 \"b\"
    Whitespace@13..14 \" \"
    Equals@14..15 \"=\"
    Whitespace@15..16 \" \"
    VariableRef@16..17
      Ident@16..17 \"a\"
error at 8..11: expected number, string, true, false, identifier, `-` or `(`, but found let",
    );
}

#[test]
fn parse_multiple_statements() {
    check(
        "let a = 1\na",
        "Root@0..11
  VariableDef@0..10
    LetKeyword@0..3 \"let\"
    Whitespace@3..4 \" \"
    Ident@4..5 \"a\"
    Whitespace@5..6 \" \"
    Equals@6..7 \"=\"
    Whitespace@7..8 \" \"
    Literal@8..10
      Integer@8..9 \"1\"
      Whitespace@9..10 \"\\n\"
  VariableRef@10..11
    Ident@10..11 \"a\"",
    );
}

#[test]
fn recovery_keeps_both_definitions_and_one_error() {
    let parsed = parse("let a =\nlet b = a");
    assert_eq!(parsed.errors().len(), 1);
    let root = wlang::ast::Root::cast(parsed.syntax()).unwrap();
    assert_eq!(root.stmts().len(), 2);
}
