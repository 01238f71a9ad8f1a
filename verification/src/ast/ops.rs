//! Source-level operators and closure capture modes.

use vstd::prelude::*;
use crate::ast::{Ident, Span};

verus! {

/// Binary operators.
#[derive(Debug, Clone, Copy, PartialEq, Eq, Structural)]
pub enum BinOp {
    Add,
    Sub,
    Mul,
    Div,
    Rem,
    Eq,
    Ne,
    Lt,
    Le,
    Gt,
    Ge,
    And,
    Or,
    BitAnd,
    BitOr,
    BitXor,
    Shl,
    Shr,
    Assign,
}

/// Unary operators.
#[derive(Debug, Clone, Copy, PartialEq, Eq, Structural)]
pub enum UnOp {
    Neg,
    Not,
    BitNot,
    Deref,
    /// Inout borrow.
    InOut,
    /// Consume move.
    Consume,
}

/// How a closure captures a variable.
#[derive(Debug, Clone, Copy, PartialEq, Eq, Structural)]
pub enum CaptureMode {
    ByValue,
    ByInOut,
    ByConsume,
}

/// A captured variable of a lambda.
#[derive(Debug, Clone)]
pub struct Capture {
    pub name: Ident,
    pub mode: CaptureMode,
    pub span: Span,
}

/// Whether a traversal continues into the children of a node.
#[derive(Debug, Clone, Copy, PartialEq, Eq, Structural)]
pub enum VisitOutcome {
    /// Continue traversing children.
    Continue,
    /// Continue to the next sibling (skip this node's children).
    Skip,
    /// Stop the entire traversal.
    Stop,
}

} // verus!
