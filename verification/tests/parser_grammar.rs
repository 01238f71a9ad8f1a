use naso_compiler::ast::ops::BinOp;
use naso_compiler::ast::ty::TypeKind;
use naso_compiler::ast::{
    ExprKind, GateKind, Item, Mutability, QuantumOp, Quantity, StmtKind, TypeDefKind,
};
use naso_compiler::lexer::{Lexer, Token};
use naso_compiler::parser::{parse_program, parse_program_tokens, Parser};

fn first_fn(src: &str) -> naso_compiler::ast::Function {
    let prog = parse_program(src).expect("parse failed");
    match prog.items.into_iter().next() {
        Some(Item::Function(f)) => f,
        other => panic!("expected function, got {other:?}"),
    }
}

#[test]
fn assigns_like_an_expression() {
    let func = first_fn("fn f() { let x = 1; x = 2; }");
    assert_eq!(func.body.stmts.len(), 2);
    match &func.body.stmts[1].kind {
        StmtKind::Expr(e) => assert!(matches!(e.kind, ExprKind::Assign(..))),
        other => panic!("expected assign stmt, got {other:?}"),
    }
}

#[test]
fn parses_struct_literal() {
    let func = first_fn("fn f() { let p = Point { x: 1.0, y: 2.0 }; }");
    match &func.body.stmts[0].kind {
        StmtKind::Let(l) => match &l.value.kind {
            ExprKind::Struct(name, fields) => {
                assert_eq!(name.name, "Point");
                assert_eq!(fields.len(), 2);
            }
            other => panic!("expected struct, got {other:?}"),
        },
        other => panic!("expected let stmt, got {other:?}"),
    }
}

#[test]
fn parses_measure_and_entangle() {
    let func = first_fn("fn f(q: Qubit) { let r = measure q; let e = entangle(q, q); }");
    assert_eq!(func.body.stmts.len(), 2);
}

#[test]
fn parses_hadamard_and_cnot() {
    let func = first_fn("fn f(q0: Qubit, q1: Qubit) { hadamard(q0); cnot(q0, q1); }");
    assert_eq!(func.body.stmts.len(), 2);
    match &func.body.stmts[0].kind {
        StmtKind::Expr(e) => match &e.kind {
            ExprKind::QuantumOp(QuantumOp::ApplyGate(GateKind::H, args)) => assert_eq!(args.len(), 1),
            other => panic!("expected QuantumOp::ApplyGate(H), got {:?}", other),
        },
        other => panic!("expected expr stmt, got {:?}", other),
    }
    match &func.body.stmts[1].kind {
        StmtKind::Expr(e) => match &e.kind {
            ExprKind::QuantumOp(QuantumOp::ApplyGate(GateKind::CX, args)) => assert_eq!(args.len(), 2),
            other => panic!("expected QuantumOp::ApplyGate(CX), got {:?}", other),
        },
        other => panic!("expected expr stmt, got {:?}", other),
    }
}

#[test]
fn parses_qalloc() {
    let func = first_fn("fn f() { let q = qalloc(); }");
    assert_eq!(func.body.stmts.len(), 1);
    match &func.body.stmts[0].kind {
        StmtKind::Let(l) => assert!(matches!(l.value.kind, ExprKind::QuantumOp(QuantumOp::Alloc(_)))),
        other => panic!("expected let stmt, got {:?}", other),
    }
}

#[test]
fn parses_forall_simple() {
    let func = first_fn("fn f() { forall i in 0..10 { let x = i; } }");
    assert_eq!(func.body.stmts.len(), 1);
    match &func.body.stmts[0].kind {
        StmtKind::Expr(e) => match &e.kind {
            ExprKind::Forall(forall_loop) => {
                assert_eq!(forall_loop.bindings.len(), 1);
                assert_eq!(forall_loop.bindings[0].0.name, "i");
            }
            other => panic!("expected Forall, got {:?}", other),
        },
        other => panic!("expected expr stmt, got {:?}", other),
    }
}

#[test]
fn parses_forall_multiple_bindings() {
    let func = first_fn("fn f() { forall i in 0..10, j in 0..20 { let x = i + j; } }");
    assert_eq!(func.body.stmts.len(), 1);
    match &func.body.stmts[0].kind {
        StmtKind::Expr(e) => match &e.kind {
            ExprKind::Forall(forall_loop) => {
                assert_eq!(forall_loop.bindings.len(), 2);
                assert_eq!(forall_loop.bindings[0].0.name, "i");
                assert_eq!(forall_loop.bindings[1].0.name, "j");
            }
            other => panic!("expected Forall, got {:?}", other),
        },
        other => panic!("expected expr stmt, got {:?}", other),
    }
}

#[test]
fn parses_nested_forall() {
    let func = first_fn("fn f() { forall i in 0..10 { forall j in 0..5 { let x = i * j; } } }");
    assert_eq!(func.body.stmts.len(), 1);
    match &func.body.stmts[0].kind {
        StmtKind::Expr(e) => match &e.kind {
            ExprKind::Forall(outer) => {
                assert_eq!(outer.bindings.len(), 1);
                match &outer.body.stmts[0].kind {
                    StmtKind::Expr(inner_e) => match &inner_e.kind {
                        ExprKind::Forall(inner) => {
                            assert_eq!(inner.bindings.len(), 1);
                            assert_eq!(inner.bindings[0].0.name, "j");
                        }
                        other => panic!("expected nested Forall, got {:?}", other),
                    },
                    other => panic!("expected expr stmt in outer body, got {:?}", other),
                }
            }
            other => panic!("expected Forall, got {:?}", other),
        },
        other => panic!("expected expr stmt, got {:?}", other),
    }
}

#[test]
fn parses_forall_with_expr_bounds() {
    let func = first_fn("fn f(n: Int) { forall i in 0..n { let x = i + 1; } }");
    assert_eq!(func.body.stmts.len(), 1);
    match &func.body.stmts[0].kind {
        StmtKind::Expr(e) => match &e.kind {
            ExprKind::Forall(forall_loop) => assert_eq!(forall_loop.bindings.len(), 1),
            other => panic!("expected Forall, got {:?}", other),
        },
        other => panic!("expected expr stmt, got {:?}", other),
    }
}

#[test]
fn parses_empty_program() {
    let prog = parse_program("").expect("parse failed");
    assert!(prog.items.is_empty());
}

#[test]
fn parses_function_with_quantity_markers() {
    let func = first_fn("fn f(x: [1] Qubit) -> Qubit { return x; }");
    assert_eq!(func.params.len(), 1);
    assert_eq!(func.params[0].ty.quantity, Quantity::One);
}

#[test]
fn parses_precedence_climbing() {
    let func = first_fn("fn f() -> Int { return 1 + 2 * 3; }");
    match &func.body.stmts[0].kind {
        StmtKind::Expr(e) => match &e.kind {
            ExprKind::Return(Some(inner)) => match &inner.kind {
                ExprKind::Binary(BinOp::Add, _, rhs) => {
                    assert!(matches!(rhs.kind, ExprKind::Binary(BinOp::Mul, _, _)))
                }
                other => panic!("expected Add, got {other:?}"),
            },
            other => panic!("expected return, got {other:?}"),
        },
        other => panic!("expected expr stmt, got {other:?}"),
    }
}

#[test]
fn parses_quantified_named_type() {
    let func = first_fn("fn f(x: [0] Matrix[Rows, Cols]) {}");
    let ty = &func.params[0].ty;
    assert_eq!(ty.quantity, Quantity::Zero);
    match &ty.kind {
        TypeKind::Named(name, args) => {
            assert_eq!(name.name, "Matrix");
            assert_eq!(args.len(), 2);
        }
        other => panic!("expected Named type, got {other:?}"),
    }
}

#[test]
fn parses_primitive_and_projection_types() {
    let func = first_fn("fn f(n: Nat, q: Qubit, p: inout Int) { let r: reversible Qubit = q; }");
    assert_eq!(func.params.len(), 3);
    assert_eq!(func.params[2].mutability, Mutability::InOut);
    assert!(matches!(func.params[2].ty.kind, TypeKind::Named(..)));

    let prog = parse_program("type P = inout Int;").expect("parse failed");
    match &prog.items[0] {
        Item::TypeDef(td) => match &td.kind {
            TypeDefKind::Alias(ty) => assert!(matches!(ty.kind, TypeKind::Projection(_))),
            other => panic!("expected alias, got {other:?}"),
        },
        other => panic!("expected type def, got {other:?}"),
    }
}

#[test]
fn malformed_input_is_an_error() {
    let err = parse_program("fn f( {").unwrap_err();
    assert!(err.starts_with("parse error: expected identifier"), "{err}");
    let err = parse_program("42").unwrap_err();
    assert_eq!(err, "parse error: expected a top-level item, found `42` at line 1, col 1");
    let err = parse_program("fn f() {").unwrap_err();
    assert_eq!(err, "parse error: expected `'}'`, found end of input at token 5");
}

#[test]
fn let_statements_by_their_keyword() {
    let tokens: Vec<Token> = Lexer::lex("let inout a = b; let consume c = d; let [1] e: Qubit = f;");
    let mut p = Parser::new(&tokens);
    assert!(matches!(p.parse_let_stmt().unwrap().kind, StmtKind::LetInOut(_)));
    assert!(matches!(p.parse_let_stmt().unwrap().kind, StmtKind::LetConsume(_)));
    match p.parse_let_stmt().unwrap().kind {
        StmtKind::Let(l) => {
            assert_eq!(l.quantity, Quantity::One);
            assert_eq!(l.ty.unwrap().quantity, Quantity::One);
            assert_eq!(l.name.name, "e");
        }
        other => panic!("expected let, got {other:?}"),
    }
}

#[test]
fn program_tokens_span_first_to_last() {
    let tokens: Vec<Token> = Lexer::lex("mod m; const c = 1;");
    let prog = parse_program_tokens(&tokens).unwrap();
    assert_eq!(prog.items.len(), 2);
    assert_eq!((prog.span.start, prog.span.end), (0, 19));
    assert!(parse_program_tokens(&[]).unwrap().items.is_empty());
}

#[test]
fn parameter_list_takes_a_trailing_comma() {
    let func = first_fn("fn f(a: int, b: int,) { }");
    assert_eq!(func.params.len(), 2);
    assert!(parse_program("fn f(a: int,, b: int) { }").is_err());
}

#[test]
fn unclosed_block_is_refused() {
    assert!(parse_program("fn f() { let x = 1;").is_err());
    assert!(parse_program("fn f() { let x = 1; }").is_ok());
}

#[test]
fn control_flow_needs_no_semicolon_before_more_statements() {
    let func = first_fn("fn f() { if x { 1 } y }");
    assert_eq!(func.body.stmts.len(), 1);
    assert!(func.body.expr.is_some());
    assert!(parse_program("fn f() { 1 y }").is_err());
}

#[test]
fn parenthesized_control_flow_stands_as_a_statement() {
    let func = first_fn("fn f() { (if x { 1 }) y }");
    assert_eq!(func.body.stmts.len(), 1);
    assert!(func.body.expr.is_some());
}

#[test]
fn type_arguments_follow_only_named_types() {
    assert!(parse_program("fn f(q: QRegister[4]) { }").is_ok());
    assert!(parse_program("fn f(q: int[4]) { }").is_err());
}

#[test]
fn statements_after_the_tail_are_refused() {
    assert!(parse_program("fn f() { x + 1 }").is_ok());
    assert!(parse_program("fn f() { x + 1 let y = 2; }").is_err());
}

fn int_lit(e: &naso_compiler::ast::Expr) -> Option<i64> {
    match &e.kind {
        ExprKind::Literal(naso_compiler::ast::Literal::Int(n)) => Some(*n),
        _ => None,
    }
}

#[test]
fn subtraction_groups_to_the_left_under_multiplication() {
    let func = first_fn("fn f() { x = 1 - 2 - 3 * 4; }");
    match &func.body.stmts[0].kind {
        StmtKind::Expr(e) => match &e.kind {
            ExprKind::Assign(lhs, rhs) => {
                assert!(matches!(&lhs.kind, ExprKind::Var(v) if v.name == "x"));
                match &rhs.kind {
                    ExprKind::Binary(BinOp::Sub, l, r) => {
                        match &l.kind {
                            ExprKind::Binary(BinOp::Sub, a, b) => {
                                assert_eq!(int_lit(a), Some(1));
                                assert_eq!(int_lit(b), Some(2));
                            }
                            other => panic!("expected 1 - 2 on the left, got {other:?}"),
                        }
                        match &r.kind {
                            ExprKind::Binary(BinOp::Mul, a, b) => {
                                assert_eq!(int_lit(a), Some(3));
                                assert_eq!(int_lit(b), Some(4));
                            }
                            other => panic!("expected 3 * 4 on the right, got {other:?}"),
                        }
                    }
                    other => panic!("expected a subtraction, got {other:?}"),
                }
            }
            other => panic!("expected assignment, got {other:?}"),
        },
        other => panic!("expected expression statement, got {other:?}"),
    }
}

#[test]
fn let_modes_follow_their_keywords() {
    let func = first_fn("fn f() { let [1] inout a = 1; let consume b = 2; let mut c = 3; }");
    match &func.body.stmts[0].kind {
        StmtKind::Let(l) => {
            assert_eq!(l.name.name, "a");
            assert_eq!(l.mutability, Mutability::InOut);
            assert_eq!(l.quantity, Quantity::One);
        }
        other => panic!("expected a let, got {other:?}"),
    }
    match &func.body.stmts[1].kind {
        StmtKind::LetConsume(l) => assert_eq!(l.name.name, "b"),
        other => panic!("expected let consume, got {other:?}"),
    }
    match &func.body.stmts[2].kind {
        StmtKind::Let(l) => {
            assert_eq!(l.name.name, "c");
            assert_eq!(l.mutability, Mutability::Immutable);
        }
        other => panic!("expected a let, got {other:?}"),
    }
}

#[test]
fn program_keeps_every_item() {
    let prog = parse_program("fn a() { } struct S { x: int } fn b() { }").expect("parse failed");
    assert_eq!(prog.items.len(), 3);
    assert!(matches!(&prog.items[1], Item::TypeDef(_)));
}
