use naso_compiler::lexer::token::{is_trivia, parse_char, parse_int, parse_string, unescape};
use naso_compiler::lexer::{LexError, LexResult, Token, TokenKind, TokenSpan};

#[test]
fn token_kind_display_names() {
    assert_eq!(TokenKind::Fn.display_name(), "'fn'");
    assert_eq!(TokenKind::QtyStar.display_name(), "'[*]'");
    assert_eq!(TokenKind::Int(3).display_name(), "integer literal");
    assert_eq!(TokenKind::TypeIdent("T".to_string()).display_name(), "type name");
    assert_eq!(TokenKind::Error.display_name(), "<lex error>");
}

#[test]
fn token_kind_texts() {
    assert_eq!(TokenKind::Int(-12).to_string(), "-12");
    assert_eq!(TokenKind::Float("2.5".to_string()).to_string(), "2.5");
    assert_eq!(TokenKind::Bool(false).to_string(), "false");
    assert_eq!(TokenKind::Str("hi".to_string()).to_string(), "\"hi\"");
    assert_eq!(TokenKind::Char('x').to_string(), "'x'");
    assert_eq!(TokenKind::Ident("abc".to_string()).to_string(), "abc");
    assert_eq!(TokenKind::Arrow.to_string(), "'->'");
}

#[test]
fn trivia_is_newlines_and_comments() {
    assert!(is_trivia(&TokenKind::Newline));
    assert!(is_trivia(&TokenKind::Comment));
    assert!(!is_trivia(&TokenKind::Semicolon));
}

#[test]
fn escapes_are_decoded() {
    assert_eq!(unescape("a\\nb"), "a\nb");
    assert_eq!(unescape("\\t\\r\\0"), "\t\r\0");
    assert_eq!(unescape("\\q\\\\"), "q\\");
    assert_eq!(unescape("end\\"), "end\\");
    assert_eq!(unescape("plain"), "plain");
}

#[test]
fn literal_texts_are_decoded() {
    assert_eq!(parse_string("\"say \\\"hi\\\"\""), "say \"hi\"");
    assert_eq!(parse_string("\"\""), "");
    assert_eq!(parse_char("'\\n'"), '\n');
    assert_eq!(parse_char("'z'"), 'z');
    assert_eq!(parse_char("''"), '\0');
}

#[test]
fn integer_literals_parse_with_underscores() {
    assert_eq!(parse_int("1_000"), 1000);
    assert_eq!(parse_int("0"), 0);
    assert_eq!(parse_int("9223372036854775807"), i64::MAX);
    assert_eq!(parse_int("9223372036854775808"), 0);
    assert_eq!(parse_int("-42"), -42);
    assert_eq!(parse_int("+7"), 7);
    assert_eq!(parse_int("-9223372036854775808"), i64::MIN);
    assert_eq!(parse_int("_"), 0);
    assert_eq!(parse_int("12a"), 0);
}

#[test]
fn lex_results_hold_tokens_and_error() {
    let tok = Token { kind: TokenKind::Let, span: TokenSpan::new(0, 3) };
    let res = LexResult {
        tokens: vec![tok.clone()],
        error: Some(LexError { offset: 4, message: "unexpected character '$'".to_string() }),
    };
    assert_eq!(res.tokens[0], tok);
    assert_eq!(res.error.unwrap().to_string(), "lex error at byte 4: unexpected character '$'");
}
