use naso_compiler::ast::ops::BinOp;
use naso_compiler::ast::visit::walk::{
    walk_block, walk_const, walk_expr, walk_function, walk_item, walk_module, walk_param, walk_program, walk_stmt,
    walk_type, walk_type_def,
};
use naso_compiler::ast::visit::Visitor;
use naso_compiler::ast::ty::{Type, TypeKind};
use naso_compiler::ast::{
    Block, ConstDef, Expr, ExprKind, Function, Ident, Item, Literal, Module, NodeId, Param, Program, Quantity, Span,
    Stmt, StmtKind, TypeDef, VisitOutcome,
};

fn sp() -> Span {
    Span::new(0, 0, 1, 1)
}

fn ex(kind: ExprKind) -> Expr {
    Expr::new(kind, sp(), NodeId::new(0))
}

fn lit(v: i64) -> Expr {
    ex(ExprKind::Literal(Literal::Int(v)))
}

/// Walks every node, records the integer literals it meets, and stops the
/// whole traversal at the literal `stop_at`; fails at the literal `fail_at`.
struct Collector {
    seen: Vec<i64>,
    types: usize,
    stop_at: i64,
    fail_at: i64,
}

impl Collector {
    fn new() -> Self {
        Collector { seen: vec![], types: 0, stop_at: -1, fail_at: -1 }
    }
}

impl Visitor for Collector {
    type Err = String;

    fn visit_program(&mut self, program: &Program) -> Result<VisitOutcome, String> {
        walk_program(self, program)
    }
    fn visit_item(&mut self, item: &Item) -> Result<VisitOutcome, String> {
        walk_item(self, item)
    }
    fn visit_function(&mut self, function: &Function) -> Result<VisitOutcome, String> {
        walk_function(self, function)
    }
    fn visit_type_def(&mut self, type_def: &TypeDef) -> Result<VisitOutcome, String> {
        walk_type_def(self, type_def)
    }
    fn visit_module(&mut self, module: &Module) -> Result<VisitOutcome, String> {
        walk_module(self, module)
    }
    fn visit_const(&mut self, constant: &ConstDef) -> Result<VisitOutcome, String> {
        walk_const(self, constant)
    }
    fn visit_param(&mut self, param: &Param) -> Result<VisitOutcome, String> {
        walk_param(self, param)
    }
    fn visit_block(&mut self, block: &Block) -> Result<VisitOutcome, String> {
        walk_block(self, block)
    }
    fn visit_stmt(&mut self, stmt: &Stmt) -> Result<VisitOutcome, String> {
        walk_stmt(self, stmt)
    }
    fn visit_expr(&mut self, expr: &Expr) -> Result<VisitOutcome, String> {
        if let ExprKind::Literal(Literal::Int(v)) = &expr.kind {
            self.seen.push(*v);
            if *v == self.fail_at {
                return Err(format!("literal {}", v));
            }
            if *v == self.stop_at {
                return Ok(VisitOutcome::Stop);
            }
        }
        walk_expr(self, expr)
    }
    fn visit_type(&mut self, ty: &Type) -> Result<VisitOutcome, String> {
        self.types += 1;
        walk_type(self, ty)
    }
}

fn sum_tree() -> Expr {
    // (1 + 2) + (3 + 4)
    let l = ex(ExprKind::Binary(BinOp::Add, Box::new(lit(1)), Box::new(lit(2))));
    let r = ex(ExprKind::Binary(BinOp::Add, Box::new(lit(3)), Box::new(lit(4))));
    ex(ExprKind::Binary(BinOp::Add, Box::new(l), Box::new(r)))
}

#[test]
fn walk_visits_children_in_source_order() {
    let mut c = Collector::new();
    let r = c.visit_expr(&sum_tree());
    assert_eq!(r, Ok(VisitOutcome::Continue));
    assert_eq!(c.seen, vec![1, 2, 3, 4]);
}

#[test]
fn walk_stops_at_the_first_stop() {
    let mut c = Collector::new();
    c.stop_at = 2;
    let tuple = ex(ExprKind::Tuple(vec![sum_tree(), lit(9)]));
    let r = c.visit_expr(&tuple);
    assert_eq!(r, Ok(VisitOutcome::Stop));
    assert_eq!(c.seen, vec![1, 2]);
}

#[test]
fn walk_passes_errors_on() {
    let mut c = Collector::new();
    c.fail_at = 3;
    let call = ex(ExprKind::Call(Box::new(lit(0)), vec![lit(5), lit(3), lit(7)]));
    let r = c.visit_expr(&call);
    assert_eq!(r, Err("literal 3".to_string()));
    assert_eq!(c.seen, vec![0, 5, 3]);
}

#[test]
fn walk_of_leaves_continues() {
    let mut c = Collector::new();
    assert_eq!(walk_expr(&mut c, &ex(ExprKind::Continue)), Ok(VisitOutcome::Continue));
    assert_eq!(walk_expr(&mut c, &ex(ExprKind::Return(None))), Ok(VisitOutcome::Continue));
    let empty = Stmt::new(StmtKind::Empty, sp(), NodeId::new(1));
    assert_eq!(walk_stmt(&mut c, &empty), Ok(VisitOutcome::Continue));
    assert_eq!(walk_type(&mut c, &Type::int_type(sp())), Ok(VisitOutcome::Continue));
    assert!(c.seen.is_empty());
    assert_eq!(c.types, 0);
}

#[test]
fn walk_program_reaches_function_bodies_and_types() {
    let body = Block::new(
        vec![Stmt::new(StmtKind::Expr(lit(10)), sp(), NodeId::new(2))],
        Some(lit(11)),
        sp(),
    );
    let param = Param {
        name: Ident::new("q".to_string(), sp()),
        ty: Type::qubit(sp()),
        quantity: Quantity::One,
        mutability: naso_compiler::ast::Mutability::Immutable,
        span: sp(),
    };
    let f = Function {
        name: Ident::new("f".to_string(), sp()),
        generics: vec![],
        params: vec![param],
        ret_ty: Some(Type::new(TypeKind::Tuple(vec![Type::bool(sp())]), Quantity::Many, sp())),
        body,
        span: sp(),
        attributes: vec![],
        is_reversible: false,
        quantity: Quantity::Many,
    };
    let program = Program::new(vec![Item::Function(f)], sp());
    let mut c = Collector::new();
    assert_eq!(c.visit_program(&program), Ok(VisitOutcome::Continue));
    assert_eq!(c.seen, vec![10, 11]);
    // the parameter's type, the tuple and its element
    assert_eq!(c.types, 3);
}
