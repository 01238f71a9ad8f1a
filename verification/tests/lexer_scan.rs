use naso_compiler::lexer::{Lexer, TokenKind, TokenSpan};

fn ident(s: &str) -> TokenKind {
    TokenKind::Ident(s.to_string())
}

#[test]
fn lexes_quantity_markers() {
    let kinds = Lexer::tokenize("[0] [1] [*] [N]");
    assert_eq!(
        kinds,
        vec![
            TokenKind::LBracket,
            TokenKind::Int(0),
            TokenKind::RBracket,
            TokenKind::LBracket,
            TokenKind::Int(1),
            TokenKind::RBracket,
            TokenKind::QtyStar,
            TokenKind::LBracket,
            TokenKind::TypeIdent("N".to_string()),
            TokenKind::RBracket,
        ]
    );
}

#[test]
fn lexes_keywords_and_quantum_keywords() {
    let kinds = Lexer::tokenize("fn let inout consume reversible qubit measure entangle");
    assert_eq!(
        kinds,
        vec![
            TokenKind::Fn,
            TokenKind::Let,
            TokenKind::InOut,
            TokenKind::Consume,
            TokenKind::Reversible,
            TokenKind::Qubit,
            TokenKind::Measure,
            TokenKind::Entangle,
        ]
    );
}

#[test]
fn lexes_qalloc() {
    let kinds = Lexer::tokenize("qalloc()");
    assert_eq!(kinds, vec![TokenKind::QAlloc, TokenKind::LParen, TokenKind::RParen,]);
}

#[test]
fn lexes_literals_and_operators() {
    let kinds = Lexer::tokenize("42 3.14 true \"hi\" 'a' + - => == <=");
    assert_eq!(
        kinds,
        vec![
            TokenKind::Int(42),
            TokenKind::Float("3.14".to_string()),
            TokenKind::Bool(true),
            TokenKind::Str("hi".to_string()),
            TokenKind::Char('a'),
            TokenKind::Plus,
            TokenKind::Minus,
            TokenKind::FatArrow,
            TokenKind::Eq,
            TokenKind::Le,
        ]
    );
}

#[test]
fn keywords_ignore_ascii_case_but_longer_words_are_identifiers() {
    let kinds = Lexer::tokenize("FN Let TRUE False fnord Qubits _x");
    assert_eq!(
        kinds,
        vec![
            TokenKind::Fn,
            TokenKind::Let,
            TokenKind::Bool(true),
            TokenKind::Bool(false),
            ident("fnord"),
            TokenKind::TypeIdent("Qubits".to_string()),
            ident("_x"),
        ]
    );
}

#[test]
fn numbers_take_the_longest_match() {
    let kinds = Lexer::tokenize("1..5 1_000 2.5e3 7.0E-2 .5 1.5e x.y");
    assert_eq!(
        kinds,
        vec![
            TokenKind::Int(1),
            TokenKind::DotDot,
            TokenKind::Int(5),
            TokenKind::Int(1000),
            TokenKind::Float("2.5e3".to_string()),
            TokenKind::Float("7.0E-2".to_string()),
            TokenKind::Float(".5".to_string()),
            TokenKind::Float("1.5".to_string()),
            ident("e"),
            ident("x"),
            TokenKind::Dot,
            ident("y"),
        ]
    );
}

#[test]
fn integer_too_large_for_i64_is_zero() {
    let kinds = Lexer::tokenize("99999999999999999999");
    assert_eq!(kinds, vec![TokenKind::Int(0)]);
}

#[test]
fn comments_and_newlines_are_tokens_of_lex() {
    let tokens = Lexer::lex("a // note\nb");
    let kinds: Vec<TokenKind> = tokens.iter().map(|t| t.kind.clone()).collect();
    assert_eq!(kinds, vec![ident("a"), TokenKind::Comment, TokenKind::Newline, ident("b")]);
    assert_eq!(tokens[1].span, TokenSpan::new(2, 9));
    assert_eq!(tokens[2].span, TokenSpan::new(9, 10));
    assert_eq!(Lexer::tokenize("a // note\nb"), vec![ident("a"), ident("b")]);
}

#[test]
fn escapes_in_strings_and_characters() {
    let kinds = Lexer::tokenize(r#""a\"b\n" '\'' '\n' / x"#);
    assert_eq!(
        kinds,
        vec![
            TokenKind::Str("a\"b\n".to_string()),
            TokenKind::Char('\''),
            TokenKind::Char('\n'),
            TokenKind::Slash,
            ident("x"),
        ]
    );
}

#[test]
fn spans_are_byte_offsets() {
    let tokens = Lexer::lex("\"é\" x");
    assert_eq!(tokens.len(), 2);
    assert_eq!(tokens[0].span, TokenSpan::new(0, 4));
    assert_eq!(tokens[1].span, TokenSpan::new(5, 6));
    assert_eq!(tokens[1].span.line, 1);
    assert_eq!(tokens[1].span.column, 1);
}

#[test]
fn lexing_stops_at_an_unexpected_character() {
    let result = Lexer::lex_with_error("a # b");
    let kinds: Vec<TokenKind> = result.tokens.iter().map(|t| t.kind.clone()).collect();
    assert_eq!(kinds, vec![ident("a"), TokenKind::Error]);
    assert_eq!(result.tokens[1].span, TokenSpan::new(2, 3));
    let err = result.error.expect("an error");
    assert_eq!(err.offset, 2);
    assert_eq!(err.message, "unexpected character '#'");
    assert_eq!(err.to_string(), "lex error at byte 2: unexpected character '#'");
}

#[test]
fn unterminated_string_is_a_lex_error() {
    let result = Lexer::lex_with_error("x = \"open");
    let err = result.error.expect("an error");
    assert_eq!(err.offset, 4);
    assert_eq!(err.message, "unexpected character '\"'");
    assert_eq!(result.tokens.last().map(|t| t.kind.clone()), Some(TokenKind::Error));
}

#[test]
fn clean_source_has_no_error() {
    let result = Lexer::lex_with_error("let x: Int = 1;");
    assert!(result.error.is_none());
    assert_eq!(result.tokens.len(), 7);
}
