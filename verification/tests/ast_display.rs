use naso_compiler::ast::ops::{BinOp, UnOp};
use naso_compiler::ast::ty::{MetaVar, NatExpr, Type, TypeArg, TypeKind, TypeVar};
use naso_compiler::ast::{Ident, Mutability, NodeId, Quantity, Span};
use naso_compiler::ast::visit::SimpleVisitor;
use naso_compiler::ast::{Expr, ExprKind, FieldPattern, LetStmt, Literal, Pattern, PatternKind, Stmt, StmtKind};

fn sp() -> Span {
    Span::new(0, 0, 1, 1)
}

fn named(n: &str) -> Ident {
    Ident::new(n.to_string(), sp())
}

#[test]
fn quantities_and_modes_display_as_in_source() {
    assert_eq!(Quantity::Zero.to_string(), "[0]");
    assert_eq!(Quantity::One.to_string(), "[1]");
    assert_eq!(Quantity::Bounded(7).to_string(), "[7]");
    assert_eq!(Quantity::Many.to_string(), "[*]");
    assert_eq!(Mutability::Immutable.to_string(), "");
    assert_eq!(Mutability::InOut.to_string(), "inout ");
    assert_eq!(Mutability::Consume.to_string(), "consume ");
    assert_eq!(NodeId::new(12).to_string(), "#12");
}

#[test]
fn operators_display_as_symbols() {
    assert_eq!(BinOp::Le.to_string(), "<=");
    assert_eq!(BinOp::BitXor.to_string(), "^");
    assert_eq!(BinOp::Assign.to_string(), "=");
    assert_eq!(UnOp::InOut.to_string(), "&mut");
    assert_eq!(UnOp::BitNot.to_string(), "~");
}

#[test]
fn types_display_with_quantities() {
    let q = Type::qubit(sp());
    assert_eq!(q.to_string(), "[1] Qubit");
    let i = Type::int_type(sp());
    assert_eq!(i.to_string(), "Int");
    let f = Type::function(vec![Type::int_type(sp()), Type::bool(sp())], Box::new(Type::unit(sp())), sp());
    assert_eq!(f.to_string(), "fn(Int, Bool) -> ()");
    let z = Type::new(TypeKind::Nat, Quantity::Zero, sp());
    assert_eq!(z.to_string(), "[0] Nat");
}

#[test]
fn compound_types_display() {
    let arr = TypeKind::Array(Box::new(Type::int_type(sp())), Some(NatExpr::from_u64(2)));
    assert_eq!(arr.to_string(), "[Int; 0 + 1 + 1]");
    let arr = TypeKind::Array(Box::new(Type::int_type(sp())), None);
    assert_eq!(arr.to_string(), "[Int]");
    let tup = TypeKind::Tuple(vec![Type::int_type(sp()), Type::bool(sp()), Type::unit(sp())]);
    assert_eq!(tup.to_string(), "(Int, Bool, ())");
    let gen = TypeKind::Named(named("Vec"), vec![TypeArg::Type(Type::int_type(sp())), TypeArg::Quantity(Quantity::Many)]);
    assert_eq!(gen.to_string(), "Vec<Int, [*]>");
    assert_eq!(TypeKind::Named(named("Point"), vec![]).to_string(), "Point");
    let pi = TypeKind::Pi(named("n"), Box::new(Type::nat_type(sp())), Box::new(Type::int_type(sp())));
    assert_eq!(pi.to_string(), "Π(n: Nat). Int");
    let lam = TypeKind::Lambda(named("x"), Box::new(Type::int_type(sp())));
    assert_eq!(lam.to_string(), "λx. Int");
    assert_eq!(TypeKind::Universe(3).to_string(), "Type3");
    assert_eq!(TypeKind::Var(TypeVar(4)).to_string(), "?T4");
    assert_eq!(TypeKind::Meta(MetaVar(9)).to_string(), "?M9");
    assert_eq!(TypeKind::Error.to_string(), "<error>");
    let reg = TypeKind::QRegister(vec![Type::nat_type(sp())]);
    assert_eq!(reg.to_string(), "QRegister[Nat]");
}

#[test]
fn natural_expressions_display() {
    let e = NatExpr::Add(Box::new(NatExpr::Var(named("n"))), Box::new(NatExpr::Mul(Box::new(NatExpr::Zero), Box::new(NatExpr::Var(named("m"))))));
    assert_eq!(e.to_string(), "n + 0 * m");
    assert_eq!(TypeArg::Nat(NatExpr::Zero).to_string(), "0");
}

fn pat(kind: PatternKind) -> Pattern {
    Pattern::new(kind, sp(), NodeId::new(0))
}

fn pat_x() -> Pattern {
    pat(PatternKind::Ident(named("x")))
}

fn pat_w() -> Pattern {
    pat(PatternKind::Wildcard)
}

fn ex(kind: ExprKind) -> Expr {
    Expr::new(kind, sp(), NodeId::new(0))
}

#[test]
fn literal_texts() {
    assert_eq!(Literal::Int(-3).to_string(), "-3");
    assert_eq!(Literal::UInt(7).to_string(), "7u");
    assert_eq!(Literal::Float("0.5".to_string()).to_string(), "0.5");
    assert_eq!(Literal::Bool(true).to_string(), "true");
    assert_eq!(Literal::String("a\"b\n".to_string()).to_string(), "\"a\\\"b\\n\"");
    assert_eq!(Literal::Char('\'').to_string(), "'\\''");
    assert_eq!(Literal::Unit.to_string(), "()");
}

#[test]
fn pattern_texts() {
    assert_eq!(pat(PatternKind::Tuple(vec![pat_x(), pat_w()])).to_string(), "(x, _)");
    assert_eq!(pat(PatternKind::Literal(Literal::Int(1))).with_qty(Quantity::One).to_string(), "[1] 1");
    let fields = vec![FieldPattern { name: named("a"), pattern: pat_x(), span: sp() }];
    assert_eq!(pat(PatternKind::Struct(named("P"), fields)).to_string(), "P { a: x }");
    assert_eq!(pat(PatternKind::Variant(named("E"), named("V"), vec![])).to_string(), "E::V");
    assert_eq!(pat(PatternKind::Variant(named("E"), named("V"), vec![pat_w()])).to_string(), "E::V(_)");
    assert_eq!(pat(PatternKind::Array(vec![pat_x()])).to_string(), "[x]");
    assert_eq!(pat(PatternKind::Or(Box::new(pat_x()), Box::new(pat_w()))).to_string(), "x | _");
    assert_eq!(pat(PatternKind::Range(Box::new(pat_x()), Box::new(pat_w()))).to_string(), "x.._");
    assert_eq!(pat(PatternKind::InOut(Box::new(pat_x()))).to_string(), "&mut x");
    assert_eq!(pat(PatternKind::Consume(Box::new(pat_x()))).to_string(), "consume x");
    assert_eq!(PatternKind::Error.to_string(), "<error>");
}

#[test]
fn expression_kind_texts() {
    assert_eq!(ExprKind::Var(named("v")).to_string(), "v");
    assert_eq!(ExprKind::Literal(Literal::Int(4)).to_string(), "4");
    assert_eq!(ExprKind::Error.to_string(), "<error>");
    assert_eq!(ExprKind::Continue.to_string(), "<expr>");
    let l = ex(ExprKind::Var(named("a")));
    let r = ex(ExprKind::Var(named("b")));
    let expected = format!("({:?} + {:?})", l, r);
    assert_eq!(ExprKind::Binary(BinOp::Add, Box::new(l), Box::new(r)).to_string(), expected);
    let c = ex(ExprKind::Var(named("c")));
    let t = ex(ExprKind::Var(named("t")));
    let expected = format!("if {:?} then {:?} else None", c, t);
    assert_eq!(ExprKind::If(Box::new(c), Box::new(t), None).to_string(), expected);
}

#[test]
fn statement_kind_texts() {
    assert_eq!(StmtKind::Continue.to_string(), "continue;");
    assert_eq!(StmtKind::Empty.to_string(), ";");
    assert_eq!(StmtKind::Return(None).to_string(), "return;");
    let name = named("x");
    let value = ex(ExprKind::Var(named("y")));
    let expected = format!("let inout {:?} = {:?};", name, value);
    let s = StmtKind::Let(LetStmt {
        name,
        ty: None,
        quantity: Quantity::Many,
        mutability: Mutability::InOut,
        value,
        span: sp(),
    });
    assert_eq!(s.to_string(), expected);
}

struct NodeCounter {
    exprs: usize,
}

impl SimpleVisitor for NodeCounter {
    fn visit_expr(&mut self, _expr: &Expr) {
        self.exprs += 1;
    }
}

#[test]
fn simple_visitor_defaults_do_nothing() {
    let mut c = NodeCounter { exprs: 0 };
    let e = ex(ExprKind::Var(named("v")));
    c.visit_expr(&e);
    c.visit_stmt(&Stmt::new(StmtKind::Empty, sp(), NodeId::new(0)));
    assert_eq!(c.exprs, 1);
}
