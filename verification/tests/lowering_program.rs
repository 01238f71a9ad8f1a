use naso_compiler::ast::{
    BinOp, Block, Expr, ExprKind, Function, Ident, Item, LetStmt, Literal, Mutability, NodeId, Param, Program,
    Quantity, ReversibleBlock, Span, Stmt, StmtKind, Type, TypeKind,
};
use naso_compiler::ir::pir_types::{BinaryOp, PirExpr};
use naso_compiler::ir::schedule_tree::ScheduleNode;
use naso_compiler::lowering::ast_to_pir;
use naso_compiler::lowering::reversible_lowering::{lower_reversible_block, lower_reversible_block_to_pair};
use naso_compiler::lowering::{lower_ast, lower_program, LoweringContext, LoweringError};

fn make_span() -> Span {
    Span::new(0, 0, 1, 1)
}

fn ident(name: &str) -> Ident {
    Ident::new(name.to_string(), make_span())
}

fn expr(kind: ExprKind) -> Expr {
    Expr::new(kind, make_span(), NodeId::new(0))
}

fn stmt(kind: StmtKind) -> Stmt {
    Stmt::new(kind, make_span(), NodeId::new(0))
}

fn function(name: &str, params: Vec<Param>, stmts: Vec<Stmt>) -> Item {
    Item::Function(Function {
        name: ident(name),
        generics: vec![],
        params,
        ret_ty: None,
        body: Block::new(stmts, None, make_span()),
        span: make_span(),
        attributes: vec![],
        is_reversible: false,
        quantity: Quantity::Many,
    })
}

fn param(name: &str, qty: Quantity) -> Param {
    Param {
        name: ident(name),
        ty: Type::new(TypeKind::Int, qty, make_span()),
        quantity: Quantity::Many,
        mutability: Mutability::Immutable,
        span: make_span(),
    }
}

fn let_stmt(name: &str, value: Expr) -> Stmt {
    stmt(StmtKind::Let(LetStmt {
        name: ident(name),
        ty: None,
        quantity: Quantity::Many,
        mutability: Mutability::Immutable,
        value,
        span: make_span(),
    }))
}

#[test]
fn test_reversible_schedule_pair() {
    let mut ctx = LoweringContext::new();

    let block = ReversibleBlock { body: Block::new(vec![], None, make_span()), uncomputes: vec![], span: make_span() };

    let result = lower_reversible_block(&block, &mut ctx);
    assert!(result.is_ok());

    let pair = result.unwrap();
    assert!(matches!(pair.forward.root, ScheduleNode::Empty));
    assert!(matches!(pair.inverse.root, ScheduleNode::Empty));
}

#[test]
fn reversible_block_lowers_its_statements_first() {
    let mut ctx = LoweringContext::new();
    let body = vec![let_stmt("t", expr(ExprKind::Literal(Literal::Int(3))))];
    let block = ReversibleBlock { body: Block::new(body, None, make_span()), uncomputes: vec![], span: make_span() };
    let pair = lower_reversible_block_to_pair(&block, &mut ctx).unwrap();
    assert_eq!(ctx.statements().len(), 1);
    assert!(!matches!(pair.forward.root, ScheduleNode::Empty));
}

#[test]
fn empty_program_lowers_to_empty_module() {
    let program = Program::new(vec![], make_span());
    let module = lower_program(&program).unwrap();
    assert!(module.statements.is_empty());
    assert!(module.parameters.is_empty());
    assert!(matches!(module.schedule.root, ScheduleNode::Empty));
}

#[test]
fn functions_other_than_main_are_skipped() {
    let program = Program::new(
        vec![function("helper", vec![], vec![let_stmt("a", expr(ExprKind::Literal(Literal::Int(1))))])],
        make_span(),
    );
    let module = lower_ast(&program).unwrap();
    assert!(module.statements.is_empty());
}

#[test]
fn main_parameters_become_module_parameters() {
    let program = Program::new(vec![function("main", vec![param("n", Quantity::Many)], vec![])], make_span());
    let module = ast_to_pir::lower_ast(&program).unwrap();
    assert_eq!(module.parameters, vec!["n".to_string()]);
    assert_eq!(module.quantities.len(), 1);
}

#[test]
fn unused_linear_parameter_fails_validation() {
    let program = Program::new(vec![function("main", vec![param("x", Quantity::One)], vec![])], make_span());
    match lower_program(&program) {
        Err(LoweringError::ValidationError(s)) => assert_eq!(s, "[LinearVarNotUsed(\"x\")]"),
        other => panic!("expected a validation error, got {other:?}"),
    }
}

#[test]
fn lowered_statements_are_unscheduled() {
    let value = expr(ExprKind::Binary(
        BinOp::Add,
        Box::new(expr(ExprKind::Literal(Literal::Int(1)))),
        Box::new(expr(ExprKind::Var(ident("y")))),
    ));
    let program = Program::new(vec![function("main", vec![], vec![let_stmt("z", value)])], make_span());
    match lower_program(&program) {
        Err(e) => {
            assert_eq!(e.message(), "IR validation failed: [UnscheduledStatement(StmtId(0))]");
        },
        Ok(_) => panic!("expected a validation error"),
    }
}

#[test]
fn unsupported_statement_is_reported() {
    let program = Program::new(vec![function("main", vec![], vec![stmt(StmtKind::Continue)])], make_span());
    match lower_program(&program) {
        Err(LoweringError::Unsupported(s)) => assert_eq!(s, "Continue"),
        other => panic!("expected an unsupported construct, got {other:?}"),
    }
}

#[test]
fn unsupported_literal_is_reported() {
    let program = Program::new(
        vec![function("main", vec![], vec![let_stmt("c", expr(ExprKind::Literal(Literal::Char('q'))))])],
        make_span(),
    );
    match lower_program(&program) {
        Err(LoweringError::Unsupported(s)) => assert_eq!(s, "Char('q')"),
        other => panic!("expected an unsupported construct, got {other:?}"),
    }
}

#[test]
fn lowering_error_texts_name_their_kind() {
    assert_eq!(LoweringError::NonAffineBounds("i".to_string()).message(), "Non-affine loop bounds: i");
    assert_eq!(LoweringError::QuantityMismatch("q".to_string()).message(), "Quantity mismatch: q");
    assert_eq!(LoweringError::AccessOutOfBounds("a".to_string()).message(), "Array access out of bounds: a");
}

#[test]
fn binary_operators_lower_to_pir_operators() {
    let ctx = LoweringContext::new();
    assert_eq!(ctx.lower_binop(BinOp::Rem), BinaryOp::Mod);
    assert_eq!(ctx.lower_binop(BinOp::BitXor), BinaryOp::Xor);
    assert_eq!(ctx.lower_binop(BinOp::Assign), BinaryOp::Add);
    let _ = PirExpr::IntLit(0);
}

#[test]
fn forward_steps_are_single_member_bands() {
    let mut ctx = LoweringContext::new();
    let body = vec![
        let_stmt("t", expr(ExprKind::Literal(Literal::Int(3)))),
        let_stmt("u", expr(ExprKind::Literal(Literal::Int(4)))),
    ];
    let block = ReversibleBlock { body: Block::new(body, None, make_span()), uncomputes: vec![], span: make_span() };
    let pair = lower_reversible_block(&block, &mut ctx).unwrap();
    match &pair.forward.root {
        ScheduleNode::Sequence { children } => {
            assert_eq!(children.len(), 2);
            for (k, child) in children.iter().enumerate() {
                match child {
                    ScheduleNode::Band { members, coincident, child } => {
                        assert_eq!(members.len(), 1);
                        assert_eq!(coincident, &vec![false]);
                        assert_eq!(members[0].pieces.len(), 1);
                        assert_eq!(members[0].pieces[0].matrix.rows, 1);
                        match child.as_ref() {
                            ScheduleNode::Domain { stmt_id, .. } => assert_eq!(stmt_id.0, ctx.statements()[k].id.0),
                            other => panic!("expected a domain leaf, got {other:?}"),
                        }
                    }
                    other => panic!("expected a band, got {other:?}"),
                }
            }
        }
        other => panic!("expected a sequence, got {other:?}"),
    }
}
