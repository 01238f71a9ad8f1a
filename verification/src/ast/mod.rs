//! Core AST definitions: node ids, spans, quantities, mutability and identifiers.

pub mod model;
pub mod ty;
pub mod display;
pub mod ops;
pub mod expr;
pub mod stmt;
pub mod pattern;
pub mod items;
pub mod node_display;
pub mod visit;

use vstd::prelude::*;
pub use expr::{
    Expr, ExprKind, FieldExpr, ForLoop, ForallLoop, GateKind, LambdaExpr, LetBinding, LetConsumeBinding,
    LetInOutBinding, MatchArm, QuantumOp, ReversibleBlock, UncomputeStep,
};
pub use items::{
    Attribute, AttributeArg, Block, ConstDef, Field, Function, Item, Literal, Module, Program, TypeDef,
    TypeDefKind, Variant,
};
pub use ops::{BinOp, Capture, CaptureMode, UnOp, VisitOutcome};
pub use pattern::{FieldPattern, Pattern, PatternKind};
pub use stmt::{LetConsumeStmt, LetInOutStmt, LetStmt, Stmt, StmtKind};
pub use ty::{MetaVar, NatExpr, Type, TypeArg, TypeKind, TypeVar};

verus! {

/// Unique identifier for AST nodes.
#[derive(Debug, Clone, Copy, PartialEq, Eq, Structural, Hash)]
pub struct NodeId(pub u32);

impl NodeId {
    pub fn new(id: u32) -> (r: Self)
        ensures
            r.0 == id,
    {
        NodeId(id)
    }
}

impl Default for NodeId {
    fn default() -> (r: Self)
        ensures
            r.0 == 0,
    {
        NodeId(0)
    }
}

/// Source location information.
#[derive(Debug, Clone, Copy, PartialEq, Eq, Structural, Hash)]
pub struct Span {
    pub start: u32,
    pub end: u32,
    pub line: u32,
    pub column: u32,
}

pub open spec fn min_u32(a: u32, b: u32) -> u32 {
    if a <= b { a } else { b }
}

pub open spec fn max_u32(a: u32, b: u32) -> u32 {
    if a >= b { a } else { b }
}

impl Span {
    pub fn new(start: u32, end: u32, line: u32, column: u32) -> (r: Self)
        ensures
            r == (Span { start, end, line, column }),
    {
        Span { start, end, line, column }
    }

    /// The smallest span covering both: earliest start, latest end, and the
    /// smaller line and column.
    pub fn merge(self, other: Span) -> (r: Span)
        ensures
            r.start == min_u32(self.start, other.start),
            r.end == max_u32(self.end, other.end),
            r.line == min_u32(self.line, other.line),
            r.column == min_u32(self.column, other.column),
    {
        Span {
            start: if self.start <= other.start { self.start } else { other.start },
            end: if self.end >= other.end { self.end } else { other.end },
            line: if self.line <= other.line { self.line } else { other.line },
            column: if self.column <= other.column { self.column } else { other.column },
        }
    }
}

impl Default for Span {
    fn default() -> (r: Self)
        ensures
            r == (Span { start: 0, end: 0, line: 1, column: 1 }),
    {
        Span::new(0, 0, 1, 1)
    }
}

/// Merging is commutative.
pub proof fn lemma_span_merge_commutes(a: Span, b: Span)
    ensures
        min_u32(a.start, b.start) == min_u32(b.start, a.start),
        max_u32(a.end, b.end) == max_u32(b.end, a.end),
        min_u32(a.line, b.line) == min_u32(b.line, a.line),
        min_u32(a.column, b.column) == min_u32(b.column, a.column),
{
}

/// Quantitative usage annotation: `[0]`, `[1]`, `[N]`, `[*]`.
#[derive(Debug, Clone, Copy, PartialEq, Eq, Structural, Hash)]
pub enum Quantity {
    /// Erased at compile time: proofs, invariants.
    Zero,
    /// Linear: must be consumed exactly once.
    One,
    /// Bounded reuse: exactly N times.
    Bounded(u32),
    /// Unrestricted: any number of uses.
    Many,
}

impl Quantity {
    pub fn is_linear(&self) -> (r: bool)
        ensures
            r == (*self == Quantity::One),
    {
        match self {
            Quantity::One => true,
            _ => false,
        }
    }

    pub fn is_erased(&self) -> (r: bool)
        ensures
            r == (*self == Quantity::Zero),
    {
        match self {
            Quantity::Zero => true,
            _ => false,
        }
    }

    pub fn is_unrestricted(&self) -> (r: bool)
        ensures
            r == (*self == Quantity::Many),
    {
        match self {
            Quantity::Many => true,
            _ => false,
        }
    }
}

impl Default for Quantity {
    fn default() -> (r: Self)
        ensures
            r == Quantity::Many,
    {
        Quantity::Many
    }
}

/// At most one of the three quantity predicates holds for any quantity.
pub proof fn lemma_quantity_classes_disjoint(q: Quantity)
    ensures
        !((q == Quantity::One) && (q == Quantity::Zero)),
        !((q == Quantity::One) && (q == Quantity::Many)),
        !((q == Quantity::Zero) && (q == Quantity::Many)),
{
}

/// Mutability mode for bindings and parameters.
#[derive(Debug, Clone, Copy, PartialEq, Eq, Structural, Hash)]
pub enum Mutability {
    /// Immutable binding (default).
    Immutable,
    /// Mutable via inout projection (no aliasing).
    InOut,
    /// Consumed exactly once (linear move).
    Consume,
}

/// Identifier with span; two identifiers are equal when their names are.
#[derive(Debug)]
pub struct Ident {
    pub name: String,
    pub span: Span,
}

impl Clone for Ident {
    fn clone(&self) -> (r: Self)
        ensures
            r == *self,
    {
        Ident { name: self.name.clone(), span: self.span }
    }
}

impl PartialEq for Ident {
    fn eq(&self, other: &Self) -> (r: bool) {
        self.name == other.name
    }
}

impl vstd::std_specs::cmp::PartialEqSpecImpl for Ident {
    open spec fn obeys_eq_spec() -> bool {
        true
    }

    open spec fn eq_spec(&self, other: &Self) -> bool {
        self.name@ == other.name@
    }
}

impl Ident {
    pub fn new(name: String, span: Span) -> (r: Self)
        ensures
            r.name@ == name@,
            r.span == span,
    {
        Ident { name, span }
    }
}

/// Kind of a generic parameter.
#[derive(Debug, Clone, Copy, PartialEq, Eq, Structural)]
pub enum GenericKind {
    /// Type parameter.
    Type,
    /// Natural number parameter (for dependent types).
    Nat,
    /// Quantity parameter.
    Quantity,
}

/// Generic type parameter.
#[derive(Debug, Clone)]
pub struct GenericParam {
    pub name: Ident,
    pub kind: GenericKind,
    pub span: Span,
}

/// Function parameter with quantity and mutability.
#[derive(Debug)]
pub struct Param {
    pub name: Ident,
    pub ty: crate::ast::ty::Type,
    pub quantity: Quantity,
    pub mutability: Mutability,
    pub span: Span,
}

/// Items brought in by an import.
#[derive(Debug, Clone)]
pub enum ImportItems {
    /// `import path::*;`
    All,
    /// `import path::{item1, item2}`
    Specific(Vec<Ident>),
}

/// Import declaration.
#[derive(Debug, Clone)]
pub struct Import {
    pub path: Vec<Ident>,
    pub items: ImportItems,
    pub span: Span,
}

} // verus!
