//! Lexer tests: one token per classification, plus stream-level checks.
use wlang::TokenKind;
use wlang::lexer::{Lexer, SyntaxErrorKind, tokenize_file};

fn check(input: &str, kind: TokenKind) {
    let mut lexer = Lexer::new(input);

    let token = lexer.next().unwrap();
    assert_eq!(token.kind, kind);
    assert_eq!(token.text, input);
}

#[test]
fn lex_spaces_and_newlines() {
    check("  \n ", TokenKind::Whitespace);
}

#[test]
fn lex_spaces() {
    check("   ", TokenKind::Whitespace);
}

#[test]
fn lex_comma() {
    check(",", TokenKind::Comma);
}

#[test]
fn lex_semicolon() {
    check(";", TokenKind::Semicolon);
}

#[test]
fn lex_colon() {
    check(":", TokenKind::Colon);
}

#[test]
fn lex_func() {
    check("func", TokenKind::FuncKeyword);
}

#[test]
fn lex_comp() {
    check("comp", TokenKind::CompKeyword);
}

#[test]
fn lex_percent() {
    check("%", TokenKind::Percent);
}

#[test]
fn lex_single_character_identifier() {
    check("a", TokenKind::Ident);
}

#[test]
fn lex_alphabetic_identifier() {
    check("abcd", TokenKind::Ident);
}

#[test]
fn lex_alphanumeric_identifier() {
    check("abcd1234", TokenKind::Ident);
}

#[test]
fn lex_underscore_identifier() {
    check("__abc123", TokenKind::Ident);
}

#[test]
fn lex_string_literal() {
    check("\"hello world\"", TokenKind::String);
}

#[test]
fn lex_number() {
    check("12345", TokenKind::Integer);
}

#[test]
fn lex_plus() {
    check("+", TokenKind::Plus);
}

#[test]
fn lex_minus() {
    check("-", TokenKind::Minus);
}

#[test]
fn lex_star() {
    check("*", TokenKind::Star);
}

#[test]
fn lex_slash() {
    check("/", TokenKind::Slash);
}

#[test]
fn lex_equals() {
    check("=", TokenKind::Equals);
}

#[test]
fn lex_bang() {
    check("!", TokenKind::Bang);
}

#[test]
fn lex_bang_equals() {
    check("!=", TokenKind::BangEquals);
}

#[test]
fn lex_less_than() {
    check("<", TokenKind::LessThan);
}

#[test]
fn lex_less_than_equals() {
    check("<=", TokenKind::LessThanEqual);
}

#[test]
fn lex_greater_than() {
    check(">", TokenKind::GreaterThan);
}

#[test]
fn lex_greater_than_equals() {
    check(">=", TokenKind::GreaterThanEqual);
}

#[test]
fn lex_ampersand_ampersand() {
    check("&&", TokenKind::AmpersandAmpersand);
}

#[test]
fn lex_bar_bar() {
    check("||", TokenKind::BarBar);
}

#[test]
fn lex_left_paren() {
    check("(", TokenKind::LParen);
}

#[test]
fn lex_right_paren() {
    check(")", TokenKind::RParen);
}

#[test]
fn lex_left_brace() {
    check("{", TokenKind::LBrace);
}

#[test]
fn lex_right_brace() {
    check("}", TokenKind::RBrace);
}

#[test]
fn lex_left_bracket() {
    check("[", TokenKind::LBracket);
}

#[test]
fn lex_right_bracket() {
    check("]", TokenKind::RBracket);
}

#[test]
fn lex_effect_keyword() {
    check("effect", TokenKind::EffectKeyword);
}

#[test]
fn lex_on_mount_keyword() {
    check("onMount", TokenKind::OnMountKeyword);
}

#[test]
fn lex_on_update_keyword() {
    check("onUpdate", TokenKind::OnUpdateKeyword);
}

#[test]
fn lex_on_destroy_keyword() {
    check("onDestroy", TokenKind::OnDestroyKeyword);
}

#[test]
fn lex_comment() {
    check("// foo", TokenKind::Comment);
}

#[test]
fn lex_equals_equals() {
    check("==", TokenKind::EqualsEquals);
}

#[test]
fn lex_true_keyword() {
    check("true", TokenKind::True);
}

#[test]
fn lex_false_keyword() {
    check("false", TokenKind::False);
}

#[test]
fn lex_let_keyword() {
    check("let", TokenKind::LetKeyword);
}

#[test]
fn lex_state_keyword() {
    check("state", TokenKind::StateKeyword);
}

#[test]
fn lex_mut_keyword() {
    check("mut", TokenKind::MutKeyword);
}

#[test]
fn lex_float() {
    check("1.25", TokenKind::Float);
}

#[test]
fn lex_dollar_identifier() {
    check("$props", TokenKind::Ident);
}

#[test]
fn lex_unrecognized_character() {
    check("?", TokenKind::Error);
}

#[test]
fn lex_single_ampersand_is_an_error() {
    check("&", TokenKind::Error);
}

#[test]
fn lex_string_with_escape() {
    check("\"a\\\"b\"", TokenKind::String);
}

#[test]
fn integer_stops_before_trailing_dot() {
    let mut lexer = Lexer::new("1.x");
    let token = lexer.next().unwrap();
    assert_eq!(token.kind, TokenKind::Integer);
    assert_eq!(token.text, "1");
    let dot = lexer.next().unwrap();
    assert_eq!(dot.kind, TokenKind::Error);
    assert_eq!(dot.text, ".");
    let ident = lexer.next().unwrap();
    assert_eq!(ident.kind, TokenKind::Ident);
    assert_eq!(ident.text, "x");
    assert!(lexer.next().is_none());
}

#[test]
fn tokenize_file_spans_partition_the_input() {
    let input = "let a = 1 + foo // done";
    let (tokens, errors) = tokenize_file(input);
    assert!(errors.is_empty());
    assert_eq!(tokens[0].start, 0);
    for w in tokens.windows(2) {
        assert_eq!(w[0].end, w[1].start);
        assert!(w[0].start < w[0].end);
    }
    assert_eq!(tokens.last().unwrap().end, input.chars().count());
    let rebuilt: String = tokens.iter().map(|t| t.text).collect();
    assert_eq!(rebuilt, input);
}

#[test]
fn tokenize_file_reports_unclosed_string() {
    let (tokens, errors) = tokenize_file("a \"unterminated");
    assert_eq!(tokens.len(), 3);
    assert_eq!(tokens[2].kind, TokenKind::Error);
    assert_eq!(errors.len(), 1);
    assert_eq!(errors[0].kind, SyntaxErrorKind::UnclosedStringLiteral);
    assert_eq!(errors[0].start, 2);
    assert_eq!(errors[0].end, 15);
}

#[test]
fn relexing_token_texts_reproduces_the_kinds() {
    let input = "let mut x1 = -2.5 * (\"s\\\"t\" // c\n<= && ? onMount";
    let (tokens, _) = tokenize_file(input);
    for token in &tokens {
        let (again, _) = tokenize_file(token.text);
        assert_eq!(again.len(), 1);
        assert_eq!(again[0].kind, token.kind);
        assert_eq!(again[0].text, token.text);
    }
}
