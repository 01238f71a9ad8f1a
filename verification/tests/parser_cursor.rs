use naso_compiler::ast::{
    BinOp, Block, Expr, ExprKind, Ident, Literal, NodeId, Pattern, PatternKind, Quantity, Span, Type, TypeArg,
    TypeKind,
};
use naso_compiler::lexer::{Token, TokenKind, TokenSpan};
use naso_compiler::parser::expr::{binop_prec, is_control_flow_stmt};
use naso_compiler::parser::{span_from_tokens, token_span, Parser};

fn toks(kinds: Vec<TokenKind>) -> Vec<Token> {
    let mut out = Vec::new();
    let mut at = 0usize;
    for k in kinds {
        out.push(Token { kind: k, span: TokenSpan::with_position(at, at + 1, 1, (at + 1) as u32) });
        at += 2;
    }
    out
}

#[test]
fn is_control_flow_stmt_recognizes_blocks() {
    let then = Expr::new(
        ExprKind::Block(Box::new(Block::new(Vec::new(), None, Span::default()))),
        Span::default(),
        NodeId::new(2),
    );
    assert!(is_control_flow_stmt(&ExprKind::If(
        Box::new(Expr::new(ExprKind::Literal(Literal::Bool(true)), Span::default(), NodeId::new(1))),
        Box::new(then),
        None,
    )));
    assert!(!is_control_flow_stmt(&ExprKind::Var(Ident::new("x".to_string(), Span::default()))));
}

#[test]
fn cursor_peeks_bumps_and_expects() {
    let tokens = toks(vec![TokenKind::Fn, TokenKind::Ident("f".to_string()), TokenKind::LParen]);
    let mut p = Parser::new(&tokens);
    assert!(!p.is_eof());
    assert_eq!(p.peek(), Some(&TokenKind::Fn));
    assert!(p.at(TokenKind::Fn));
    assert!(!p.eat(TokenKind::Let));
    assert!(p.eat(TokenKind::Fn));
    let name = p.parse_ident();
    assert_eq!(name.name, "f");
    assert_eq!(name.span, Span::new(2, 3, 1, 3));
    let t = p.expect(TokenKind::LParen);
    assert_eq!(t.kind, TokenKind::LParen);
    assert!(p.is_eof());
    assert_eq!(p.bump(), None);
    assert_eq!(p.span_from(0), Span::new(0, 5, 1, 1));
}

#[test]
fn quantity_markers_are_read() {
    let tokens = toks(vec![
        TokenKind::QtyStar,
        TokenKind::LBracket,
        TokenKind::Int(0),
        TokenKind::RBracket,
        TokenKind::LBracket,
        TokenKind::Int(5),
        TokenKind::RBracket,
        TokenKind::LBracket,
        TokenKind::Ident("n".to_string()),
        TokenKind::RBracket,
        TokenKind::LBracket,
        TokenKind::Comma,
    ]);
    let mut p = Parser::new(&tokens);
    assert_eq!(p.parse_quantity(), Some(Quantity::Many));
    assert_eq!(p.parse_quantity(), Some(Quantity::Zero));
    assert_eq!(p.parse_quantity(), Some(Quantity::Bounded(5)));
    assert_eq!(p.parse_quantity(), Some(Quantity::Bounded(u32::MAX)));
    assert_eq!(p.parse_quantity(), None);
    assert!(p.at(TokenKind::LBracket));
}

#[test]
fn binary_operators_and_precedences() {
    let tokens = toks(vec![TokenKind::Star, TokenKind::Comma]);
    let mut p = Parser::new(&tokens);
    assert_eq!(p.peek_binary_op(), Some(BinOp::Mul));
    p.bump();
    assert_eq!(p.peek_binary_op(), None);
    assert!(binop_prec(BinOp::Mul) > binop_prec(BinOp::Add));
    assert!(binop_prec(BinOp::Add) > binop_prec(BinOp::Lt));
    assert_eq!(binop_prec(BinOp::Or), 1);
    assert_eq!(binop_prec(BinOp::Assign), 0);
}

#[test]
fn token_spans_become_ast_spans() {
    let a = Token { kind: TokenKind::Let, span: TokenSpan::with_position(3, 6, 2, 4) };
    let b = Token { kind: TokenKind::Semicolon, span: TokenSpan::with_position(10, 11, 2, 11) };
    assert_eq!(token_span(&a), Span::new(3, 6, 2, 4));
    assert_eq!(span_from_tokens(&a, &b), Span::new(3, 11, 2, 4));
}

fn pat(kind: PatternKind) -> Pattern {
    Pattern::new(kind, Span::default(), NodeId::new(0))
}

#[test]
fn quantity_spreads_over_nested_patterns() {
    let inner = pat(PatternKind::Ident(Ident::new("a".to_string(), Span::default())));
    let lit = pat(PatternKind::Literal(Literal::Int(1)));
    let mut p = pat(PatternKind::Tuple(vec![inner, pat(PatternKind::Ref(Box::new(lit)))]));
    Parser::apply_quantity_to_pattern(&mut p, Quantity::One);
    assert_eq!(p.quantity, Quantity::One);
    match &p.kind {
        PatternKind::Tuple(items) => {
            assert_eq!(items[0].quantity, Quantity::One);
            assert_eq!(items[1].quantity, Quantity::One);
            match &items[1].kind {
                PatternKind::Ref(x) => assert_eq!(x.quantity, Quantity::One),
                _ => panic!("expected a reference pattern"),
            }
        },
        _ => panic!("expected a tuple pattern"),
    }
}

#[test]
fn quantity_spreads_over_nested_types() {
    let int = Type::new(TypeKind::Int, Quantity::Many, Span::default());
    let qreg = Type::new(TypeKind::QRegister(vec![Type::new(TypeKind::Nat, Quantity::Many, Span::default())]), Quantity::Many, Span::default());
    let named = Type::new(
        TypeKind::Named(Ident::new("M".to_string(), Span::default()), vec![TypeArg::Type(int)]),
        Quantity::Many,
        Span::default(),
    );
    let mut t = Type::new(TypeKind::Tuple(vec![named, qreg]), Quantity::Many, Span::default());
    Parser::apply_quantity_to_type(&mut t, Quantity::Zero);
    assert_eq!(t.quantity, Quantity::Zero);
    match &t.kind {
        TypeKind::Tuple(elems) => {
            match &elems[0].kind {
                TypeKind::Named(_, args) => match &args[0] {
                    TypeArg::Type(x) => assert_eq!(x.quantity, Quantity::Zero),
                    _ => panic!("expected a type argument"),
                },
                _ => panic!("expected a named type"),
            }
            assert_eq!(elems[1].quantity, Quantity::Zero);
            match &elems[1].kind {
                TypeKind::QRegister(dims) => assert_eq!(dims[0].quantity, Quantity::Many),
                _ => panic!("expected a register type"),
            }
        },
        _ => panic!("expected a tuple type"),
    }
}
