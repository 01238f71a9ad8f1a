//! Expressions: reversible blocks, inout projections, quantum operations
//! and quantitative annotations.

use vstd::prelude::*;
use crate::ast::ops::{BinOp, Capture, UnOp};
use crate::ast::pattern::Pattern;
use crate::ast::items::{Block, Literal};
use crate::ast::ty::Type;
use crate::ast::{Ident, Mutability, NodeId, Param, Quantity, Span};

verus! {

/// An expression with its type, quantity, span and node id.
#[derive(Debug)]
pub struct Expr {
    pub kind: ExprKind,
    pub ty: Option<Type>,
    pub quantity: Quantity,
    pub span: Span,
    pub id: NodeId,
}

impl Expr {
    /// An untyped, unrestricted expression.
    pub fn new(kind: ExprKind, span: Span, id: NodeId) -> (r: Self)
        ensures
            r == (Expr { kind, ty: None, quantity: Quantity::Many, span, id }),
    {
        Expr { kind, ty: None, quantity: Quantity::Many, span, id }
    }

    /// The expression with its type set.
    pub fn with_ty(self, ty: Type) -> (r: Self)
        ensures
            r == (Expr { ty: Some(ty), ..self }),
    {
        Expr { ty: Some(ty), ..self }
    }

    /// The expression with its quantity set.
    pub fn with_qty(self, qty: Quantity) -> (r: Self)
        ensures
            r == (Expr { quantity: qty, ..self }),
    {
        Expr { quantity: qty, ..self }
    }
}

/// Expression kinds.
#[derive(Debug)]
pub enum ExprKind {
    Literal(Literal),
    Var(Ident),
    Binary(BinOp, Box<Expr>, Box<Expr>),
    Unary(UnOp, Box<Expr>),
    Call(Box<Expr>, Vec<Expr>),
    MethodCall(Box<Expr>, Ident, Vec<Expr>),
    Field(Box<Expr>, Ident),
    Index(Box<Expr>, Box<Expr>),
    /// Struct construction.
    Struct(Ident, Vec<FieldExpr>),
    /// Enum variant construction.
    Variant(Ident, Ident, Vec<Expr>),
    Tuple(Vec<Expr>),
    Array(Vec<Expr>),
    Block(Box<Block>),
    If(Box<Expr>, Box<Expr>, Option<Box<Expr>>),
    Match(Box<Expr>, Vec<MatchArm>),
    Let(Box<LetBinding>),
    /// Mutable binding (inout projection).
    LetInOut(Box<LetInOutBinding>),
    /// Consume binding (linear move).
    LetConsume(Box<LetConsumeBinding>),
    Reversible(Box<ReversibleBlock>),
    Lambda(Box<LambdaExpr>),
    For(Box<ForLoop>),
    /// Parallel polyhedral loop.
    Forall(Box<ForallLoop>),
    While(Box<Expr>, Box<Expr>),
    Return(Option<Box<Expr>>),
    Break(Option<Box<Expr>>),
    Continue,
    Assign(Box<Expr>, Box<Expr>),
    /// Inout projection creation.
    Projection(Box<Expr>),
    QuantumOp(QuantumOp),
    /// Type ascription.
    Ascribe(Box<Expr>, Type),
    /// Placeholder after an error.
    Error,
}

/// A field initialiser of a struct expression.
#[derive(Debug)]
pub struct FieldExpr {
    pub name: Ident,
    pub value: Expr,
    pub span: Span,
}

/// An arm of a match expression.
#[derive(Debug)]
pub struct MatchArm {
    pub pattern: Pattern,
    pub guard: Option<Expr>,
    pub body: Expr,
    pub span: Span,
}

/// A let binding used as an expression.
#[derive(Debug)]
pub struct LetBinding {
    pub name: Ident,
    pub ty: Option<Type>,
    pub quantity: Quantity,
    pub mutability: Mutability,
    pub value: Expr,
    pub span: Span,
}

/// An inout binding used as an expression.
#[derive(Debug)]
pub struct LetInOutBinding {
    pub name: Ident,
    pub ty: Option<Type>,
    pub value: Expr,
    pub span: Span,
}

/// A consume binding used as an expression.
#[derive(Debug)]
pub struct LetConsumeBinding {
    pub name: Ident,
    pub ty: Option<Type>,
    pub value: Expr,
    pub span: Span,
}

/// A reversible computation block with its uncomputation steps.
#[derive(Debug)]
pub struct ReversibleBlock {
    pub body: Block,
    pub uncomputes: Vec<UncomputeStep>,
    pub span: Span,
}

/// A step of the uncomputation DAG.
#[derive(Debug)]
pub struct UncomputeStep {
    pub target: Ident,
    pub inverse_expr: Expr,
    pub dependencies: Vec<Ident>,
    pub span: Span,
}

/// A lambda expression.
#[derive(Debug)]
pub struct LambdaExpr {
    pub params: Vec<Param>,
    pub ret_ty: Option<Type>,
    pub body: Box<Expr>,
    pub span: Span,
    pub captures: Vec<Capture>,
}

/// A for loop.
#[derive(Debug)]
pub struct ForLoop {
    pub var: Ident,
    pub iter: Expr,
    pub body: Block,
    pub span: Span,
}

/// A parallel polyhedral loop with bindings `(var, lower, upper)`.
#[derive(Debug)]
pub struct ForallLoop {
    pub bindings: Vec<(Ident, Expr, Expr)>,
    pub body: Block,
    pub span: Span,
}

/// Quantum operations.
#[derive(Debug)]
pub enum QuantumOp {
    /// Allocate a new qubit.
    Alloc(Ident),
    Measure(Box<Expr>),
    ApplyGate(GateKind, Vec<Expr>),
    Entangle(Vec<Expr>),
    Phase(Box<Expr>, Box<Expr>),
    /// Hamiltonian evolution.
    Hamiltonian(Box<Expr>, Box<Expr>),
}

/// Gate kinds.
#[derive(Debug)]
pub enum GateKind {
    H,
    X,
    Y,
    Z,
    S,
    T,
    CX,
    CY,
    CZ,
    RX(Box<Expr>),
    RY(Box<Expr>),
    RZ(Box<Expr>),
    Custom(Ident),
}

} // verus!
