//! Statements.

use vstd::prelude::*;
use crate::ast::expr::{Expr, ReversibleBlock};
use crate::ast::items::Item;
use crate::ast::ty::Type;
use crate::ast::{Ident, Mutability, NodeId, Quantity, Span};

verus! {

/// A statement with its span and node id.
#[derive(Debug)]
pub struct Stmt {
    pub kind: StmtKind,
    pub span: Span,
    pub id: NodeId,
}

impl Stmt {
    pub fn new(kind: StmtKind, span: Span, id: NodeId) -> (r: Self)
        ensures
            r == (Stmt { kind, span, id }),
    {
        Stmt { kind, span, id }
    }
}

/// Statement kinds.
#[derive(Debug)]
pub enum StmtKind {
    Let(LetStmt),
    /// Inout let binding.
    LetInOut(LetInOutStmt),
    /// Consume let binding.
    LetConsume(LetConsumeStmt),
    Expr(Expr),
    /// Item declaration (function, type, ...).
    Item(Item),
    Reversible(ReversibleBlock),
    Return(Option<Expr>),
    Break(Option<Expr>),
    Continue,
    Empty,
    Error,
}

/// `let [q] name: ty = value;`
#[derive(Debug)]
pub struct LetStmt {
    pub name: Ident,
    pub ty: Option<Type>,
    pub quantity: Quantity,
    pub mutability: Mutability,
    pub value: Expr,
    pub span: Span,
}

/// `let inout name = value;`
#[derive(Debug)]
pub struct LetInOutStmt {
    pub name: Ident,
    pub ty: Option<Type>,
    pub value: Expr,
    pub span: Span,
}

/// `let consume name = value;`
#[derive(Debug)]
pub struct LetConsumeStmt {
    pub name: Ident,
    pub ty: Option<Type>,
    pub value: Expr,
    pub span: Span,
}

} // verus!
