//! Patterns for match expressions and let bindings.

use vstd::prelude::*;
use crate::ast::expr::Expr;
use crate::ast::items::Literal;
use crate::ast::ty::Type;
use crate::ast::{Ident, NodeId, Quantity, Span};

verus! {

/// A pattern with its type, quantity, span and node id.
#[derive(Debug)]
pub struct Pattern {
    pub kind: PatternKind,
    pub ty: Option<Type>,
    pub quantity: Quantity,
    pub span: Span,
    pub id: NodeId,
}

impl Pattern {
    /// An untyped, unrestricted pattern.
    pub fn new(kind: PatternKind, span: Span, id: NodeId) -> (r: Self)
        ensures
            r == (Pattern { kind, ty: None, quantity: Quantity::Many, span, id }),
    {
        Pattern { kind, ty: None, quantity: Quantity::Many, span, id }
    }

    /// The pattern with its type set.
    pub fn with_ty(self, ty: Type) -> (r: Self)
        ensures
            r == (Pattern { ty: Some(ty), ..self }),
    {
        Pattern { ty: Some(ty), ..self }
    }

    /// The pattern with its quantity set.
    pub fn with_qty(self, qty: Quantity) -> (r: Self)
        ensures
            r == (Pattern { quantity: qty, ..self }),
    {
        Pattern { quantity: qty, ..self }
    }
}

/// Pattern kinds.
#[derive(Debug)]
pub enum PatternKind {
    /// `_`
    Wildcard,
    Ident(Ident),
    Literal(Literal),
    Tuple(Vec<Pattern>),
    Struct(Ident, Vec<FieldPattern>),
    /// `Enum::Variant(..)`
    Variant(Ident, Ident, Vec<Pattern>),
    Array(Vec<Pattern>),
    /// `start..end`
    Range(Box<Pattern>, Box<Pattern>),
    /// `a | b`
    Or(Box<Pattern>, Box<Pattern>),
    /// `&pattern`
    Ref(Box<Pattern>),
    /// `&mut pattern`
    InOut(Box<Pattern>),
    /// `consume pattern`
    Consume(Box<Pattern>),
    /// `pattern if expr`
    Guard(Box<Pattern>, Box<Expr>),
    Error,
}

/// A field of a struct pattern.
#[derive(Debug)]
pub struct FieldPattern {
    pub name: Ident,
    pub pattern: Pattern,
    pub span: Span,
}

} // verus!
