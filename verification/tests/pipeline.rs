//! Whole-pipeline tests: losslessness, diagnostics, and the small helpers.
use wlang::TokenKind;
use wlang::cursor::Cursor;
use wlang::parse;
use wlang::parse_error::ParseError;
use wlang::render::dec_string;
use wlang::text::{is_identifier_continue, is_identifier_start, is_line_terminator, is_whitespace};
use wlang::token_kind::str_to_keyword;

#[test]
fn parse_round_trips_every_input() {
    let inputs = [
        "",
        "   ",
        "let a = 1 + 2 * 3",
        "let a =\nlet b = a",
        "func foo() {}",
        "(1+",
        "? @ unrecognized \"unterminated",
        "x <= y && z != w // trailing comment",
        "let mut m = -(-5)",
    ];
    for input in inputs {
        let parsed = parse(input);
        assert_eq!(parsed.syntax().text(), input, "{:?}", input);
    }
}

#[test]
fn parse_of_dangling_assignment_keeps_the_definition() {
    let parsed = parse("let a =");
    assert_eq!(parsed.errors().len(), 1);
    let error: &ParseError = &parsed.errors()[0];
    assert_eq!(error.found, None);
    assert_eq!(error.start, 6);
    assert_eq!(error.end, 7);
}

#[test]
fn error_message_names_the_expected_kinds() {
    let parsed = parse("let a =\nlet b = a");
    let message = parsed.errors()[0].message();
    assert_eq!(
        message,
        "error at 8..11: expected number, string, true, false, identifier, `-` or `(`, but found let",
    );
}

#[test]
fn display_names_of_token_kinds() {
    assert_eq!(TokenKind::Integer.display_name(), "number");
    assert_eq!(TokenKind::Ident.display_name(), "identifier");
    assert_eq!(TokenKind::Minus.display_name(), "`-`");
    assert_eq!(TokenKind::LetKeyword.display_name(), "let");
    assert_eq!(TokenKind::Error.display_name(), "an unrecognized token");
}

#[test]
fn decimal_rendering_is_exact() {
    assert_eq!(dec_string(0), "0");
    assert_eq!(dec_string(7), "7");
    assert_eq!(dec_string(10), "10");
    assert_eq!(dec_string(90210), "90210");
}

#[test]
fn keyword_table_is_exact() {
    assert_eq!(str_to_keyword("let"), Some(TokenKind::LetKeyword));
    assert_eq!(str_to_keyword("onMount"), Some(TokenKind::OnMountKeyword));
    assert_eq!(str_to_keyword("true"), Some(TokenKind::True));
    assert_eq!(str_to_keyword("letx"), None);
    assert_eq!(str_to_keyword(""), None);
}

#[test]
fn character_classes_match_their_tables() {
    assert!(is_whitespace(' '));
    assert!(is_whitespace('\t'));
    assert!(!is_whitespace('\n'));
    assert!(is_line_terminator('\n'));
    assert!(is_line_terminator('\r'));
    assert!(is_identifier_start('_'));
    assert!(is_identifier_start('$'));
    assert!(!is_identifier_start('1'));
    assert!(is_identifier_continue('1'));
    assert!(!is_identifier_continue('-'));
}

#[test]
fn cursor_walks_characters_by_position() {
    let mut cursor = Cursor::new("ab");
    assert_eq!(cursor.current(), Some('a'));
    assert_eq!(cursor.current_position(), Some(0));
    assert_eq!(cursor.peek(), Some('b'));
    assert_eq!(cursor.peek_position(), Some(1));
    cursor.bump();
    assert_eq!(cursor.current(), Some('b'));
    cursor.bump();
    assert_eq!(cursor.current(), None);
    assert_eq!(cursor.current_position(), None);
    assert_eq!(cursor.slice(0, 2), "ab");
}

#[test]
fn debug_tree_escapes_token_text() {
    let parsed = parse("\"a\\\"b\"");
    assert_eq!(
        parsed.debug_tree(),
        "Root@0..6\n  Literal@0..6\n    String@0..6 \"\\\"a\\\\\\\"b\\\"\"",
    );
}

#[test]
fn parse_float_literal_is_not_an_expression() {
    let parsed = parse("1.5");
    assert_eq!(parsed.errors().len(), 1);
    assert_eq!(parsed.errors()[0].found, Some(TokenKind::Float));
    assert_eq!(parsed.syntax().text(), "1.5");
}
