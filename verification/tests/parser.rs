//! Parser tests: snapshot comparisons of the debug dump of parsed trees.
use wlang::parse;

fn check(input: &str, expected_tree: &str) {
    let parsed = parse(input);
    assert_eq!(parsed.debug_tree(), expected_tree);
}

#[test]
fn parse_nothing() {
    check("", "Root@0..0")
}

#[test]
fn parse_whitespace() {
    check(
        "   ",
        "Root@0..3\n  Whitespace@0..3 \"   \"",
    )
}

#[test]
fn parse_comment() {
    check(
        "// hello",
        "Root@0..8\n  Comment@0..8 \"// hello\"",
    )
}

#[test]
fn parse_true() {
    check(
        "true",
        "Root@0..4
  Literal@0..4
    True@0..4 \"true\"",
    )
}

#[test]
fn parse_false() {
    check(
        "false",
        "Root@0..5
  Literal@0..5
    False@0..5 \"false\"",
    )
}

#[test]
fn parse_string() {
    check(
        "\"abc\"",
        "Root@0..5
  Literal@0..5
    String@0..5 \"\\\"abc\\\"\"",
    )
}

#[test]
fn parse_number() {
    check(
        "123",
        "Root@0..3
  Literal@0..3
    Integer@0..3 \"123\"",
    );
}

#[test]
fn parse_number_preceded_by_whitespace() {
    check(
        "   9876",
        "Root@0..7
  Whitespace@0..3 \"   \"
  Literal@3..7
    Integer@3..7 \"9876\"",
    );
}

#[test]
fn parse_number_followed_by_whitespace() {
    check(
        "999   ",
        "Root@0..6
  Literal@0..6
    Integer@0..3 \"999\"
    Whitespace@3..6 \"   \"",
    );
}

#[test]
fn parse_number_surrounded_by_whitespace() {
    check(
        " 123     ",
        "Root@0..9
  Whitespace@0..1 \" \"
  Literal@1..9
    Integer@1..4 \"123\"
    Whitespace@4..9 \"     \"",
    );
}

#[test]
fn parse_variable_ref() {
    check(
        "counter",
        "Root@0..7
  VariableRef@0..7
    Ident@0..7 \"counter\"",
    );
}

#[test]
fn parse_simple_infix_expression() {
    check(
        "1+2",
        "Root@0..3
  InfixExpr@0..3
    Literal@0..1
      Integer@0..1 \"1\"
    Plus@1..2 \"+\"
    Literal@2..3
      Integer@2..3 \"2\"",
    )
}

#[test]
fn parse_left_associative_infix_expression() {
    check(
        "1+2+3+4",
        "Root@0..7
  InfixExpr@0..7
    InfixExpr@0..5
      InfixExpr@0..3
        Literal@0..1
          Integer@0..1 \"1\"
        Plus@1..2 \"+\"
        Literal@2..3
          Integer@2..3 \"2\"
      Plus@3..4 \"+\"
      Literal@4..5
        Integer@4..5 \"3\"
    Plus@5..6 \"+\"
    Literal@6..7
      Integer@6..7 \"4\"",
    );
}

#[test]
fn parse_infix_expression_with_mixed_binding_power() {
    check(
        "1+2*3-4",
        "Root@0..7
  InfixExpr@0..7
    InfixExpr@0..5
      Literal@0..1
        Integer@0..1 \"1\"
      Plus@1..2 \"+\"
      InfixExpr@2..5
        Literal@2..3
          Integer@2..3 \"2\"
        Star@3..4 \"*\"
        Literal@4..5
          Integer@4..5 \"3\"
    Minus@5..6 \"-\"
    Literal@6..7
      Integer@6..7 \"4\"",
    );
}

#[test]
fn parse_infix_expression_with_whitespace() {
    check(
        " 1 +   2* 3 ",
        "Root@0..12
  Whitespace@0..1 \" \"
  InfixExpr@1..12
    Literal@1..3
      Integer@1..2 \"1\"
      Whitespace@2..3 \" \"
    Plus@3..4 \"+\"
    Whitespace@4..7 \"   \"
    InfixExpr@7..12
      Literal@7..8
        Integer@7..8 \"2\"
      Star@8..9 \"*\"
      Whitespace@9..10 \" \"
      Literal@10..12
        Integer@10..11 \"3\"
        Whitespace@11..12 \" \"",
    );
}

#[test]
fn parse_infix_expression_interspersed_with_comments() {
    check(
        "
1
  + 1 // Add one
  + 10 // Add ten",
        "Root@0..37
  Whitespace@0..1 \"\\n\"
  InfixExpr@1..37
    InfixExpr@1..22
      Literal@1..5
        Integer@1..2 \"1\"
        Whitespace@2..5 \"\\n  \"
      Plus@5..6 \"+\"
      Whitespace@6..7 \" \"
      Literal@7..22
        Integer@7..8 \"1\"
        Whitespace@8..9 \" \"
        Comment@9..19 \"// Add one\"
        Whitespace@19..22 \"\\n  \"
    Plus@22..23 \"+\"
    Whitespace@23..24 \" \"
    Literal@24..37
      Integer@24..26 \"10\"
      Whitespace@26..27 \" \"
      Comment@27..37 \"// Add ten\"",
    );
}

#[test]
fn parse_negation() {
    check(
        "-10",
        "Root@0..3
  PrefixExpr@0..3
    Minus@0..1 \"-\"
    Literal@1..3
      Integer@1..3 \"10\"",
    )
}

#[test]
fn negation_has_higher_binding_power_than_infix_operators() {
    check(
        "-10+20",
        "Root@0..6
  InfixExpr@0..6
    PrefixExpr@0..3
      Minus@0..1 \"-\"
      Literal@1..3
        Integer@1..3 \"10\"
    Plus@3..4 \"+\"
    Literal@4..6
      Integer@4..6 \"20\"",
    )
}

#[test]
fn parse_nested_parentheses() {
    check(
        "((((10))))",
        "Root@0..10
  ParenExpr@0..10
    LParen@0..1 \"(\"
    ParenExpr@1..9
      LParen@1..2 \"(\"
      ParenExpr@2..8
        LParen@2..3 \"(\"
        ParenExpr@3..7
          LParen@3..4 \"(\"
          Literal@4..6
            Integer@4..6 \"10\"
          RParen@6..7 \")\"
        RParen@7..8 \")\"
      RParen@8..9 \")\"
    RParen@9..10 \")\"",
    )
}

#[test]
fn parentheses_affect_precedence() {
    check(
        "5*(2+1)",
        "Root@0..7
  InfixExpr@0..7
    Literal@0..1
      Integer@0..1 \"5\"
    Star@1..2 \"*\"
    ParenExpr@2..7
      LParen@2..3 \"(\"
      InfixExpr@3..6
        Literal@3..4
          Integer@3..4 \"2\"
        Plus@4..5 \"+\"
        Literal@5..6
          Integer@5..6 \"1\"
      RParen@6..7 \")\"",
    )
}

#[test]
fn parse_unclosed_parentheses() {
    check(
        "(foo",
        "Root@0..4
  ParenExpr@0..4
    LParen@0..1 \"(\"
    VariableRef@1..4
      Ident@1..4 \"foo\"
error at 1..4: expected `+`, `-`, `*`, `/`, `%`, `&&`, `||`, `==`, `!=`, `<`, `<=`, `>`, `>=` or `)`",
    );
}

#[test]
fn do_not_parse_operator_if_gettting_rhs_failed() {
    check(
        "(1+",
        "Root@0..3
  ParenExpr@0..3
    LParen@0..1 \"(\"
    InfixExpr@1..3
      Literal@1..2
        Integer@1..2 \"1\"
      Plus@2..3 \"+\"
error at 2..3: expected number, string, true, false, identifier, `-` or `(`
error at 2..3: expected `)`",
    );
}

#[test]
fn comparison_binds_looser_than_addition() {
    check(
        "1+2<=3",
        "Root@0..6
  InfixExpr@0..6
    InfixExpr@0..3
      Literal@0..1
        Integer@0..1 \"1\"
      Plus@1..2 \"+\"
      Literal@2..3
        Integer@2..3 \"2\"
    LessThanEqual@3..5 \"<=\"
    Literal@5..6
      Integer@5..6 \"3\"",
    );
}

#[test]
fn logical_and_binds_looser_than_equality() {
    check(
        "1==2&&3",
        "Root@0..7
  InfixExpr@0..7
    InfixExpr@0..4
      Literal@0..1
        Integer@0..1 \"1\"
      EqualsEquals@1..3 \"==\"
      Literal@3..4
        Integer@3..4 \"2\"
    AmpersandAmpersand@4..6 \"&&\"
    Literal@6..7
      Integer@6..7 \"3\"",
    );
}

#[test]
fn unrecognized_token_is_wrapped_in_an_error_node() {
    check(
        "?",
        "Root@0..1
  Error@0..1
    Error@0..1 \"?\"
error at 0..1: expected let, func, number, string, true, false, identifier, `-` or `(`, but found an unrecognized token",
    );
}
