//! The type language: quantitative annotations, dependent naturals,
//! function types and quantum types.

use vstd::prelude::*;
use crate::ast::{Ident, Quantity, Span};

verus! {

/// Type expression in the AST.
#[derive(Debug)]
pub struct Type {
    pub kind: TypeKind,
    pub quantity: Quantity,
    pub span: Span,
}

/// Core type kinds.
#[derive(Debug)]
pub enum TypeKind {
    /// Unit type ()
    Unit,
    Bool,
    Int,
    UInt,
    Float,
    String,
    Char,
    /// Natural number (for dependent types)
    Nat,
    /// Quantum bit: a linear resource
    Qubit,
    /// Quantum register with dimensions
    QRegister(Vec<Type>),
    /// Tensor with shape dimensions
    Tensor(Vec<Type>),
    /// Array type (fixed size when a natural is given)
    Array(Box<Type>, Option<NatExpr>),
    Tuple(Vec<Type>),
    /// User-defined type (struct, enum, alias)
    Named(Ident, Vec<TypeArg>),
    Function(Vec<Type>, Box<Type>),
    /// Reference/projection type (for inout)
    Projection(Box<Type>),
    /// Reversible computation type
    Reversible(Box<Type>),
    /// Dependent function type (Pi type)
    Pi(Ident, Box<Type>, Box<Type>),
    /// Dependent pair type (Sigma type)
    Sigma(Ident, Box<Type>, Box<Type>),
    /// Type-level lambda
    Lambda(Ident, Box<Type>),
    /// Type application
    App(Box<Type>, Box<Type>),
    /// Universe level
    Universe(u32),
    /// Type variable (for inference)
    Var(TypeVar),
    /// Metavariable (unsolved during inference)
    Meta(MetaVar),
    /// Error type (for recovery)
    Error,
}

/// Type arguments for generic instantiation.
#[derive(Debug)]
pub enum TypeArg {
    Type(Type),
    Nat(NatExpr),
    Quantity(Quantity),
}

/// Type variable (rigid, from a user annotation).
#[derive(Debug, Clone, Copy, PartialEq, Eq, Structural, Hash)]
pub struct TypeVar(pub u32);

/// Metavariable (flexible, created during inference).
#[derive(Debug, Clone, Copy, PartialEq, Eq, Structural, Hash)]
pub struct MetaVar(pub u32);

/// Natural number expressions (for dependent types).
#[derive(Debug)]
pub enum NatExpr {
    Zero,
    Succ(Box<NatExpr>),
    Var(Ident),
    Add(Box<NatExpr>, Box<NatExpr>),
    Mul(Box<NatExpr>, Box<NatExpr>),
    /// Type-level if
    If(Box<Type>, Box<NatExpr>, Box<NatExpr>),
}

impl Type {
    pub fn new(kind: TypeKind, quantity: Quantity, span: Span) -> (r: Self)
        ensures
            r == (Type { kind, quantity, span }),
    {
        Type { kind, quantity, span }
    }

    pub fn unit(span: Span) -> (r: Self)
        ensures
            r == (Type { kind: TypeKind::Unit, quantity: Quantity::Many, span }),
    {
        Self::new(TypeKind::Unit, Quantity::Many, span)
    }

    pub fn bool(span: Span) -> (r: Self)
        ensures
            r == (Type { kind: TypeKind::Bool, quantity: Quantity::Many, span }),
    {
        Self::new(TypeKind::Bool, Quantity::Many, span)
    }

    pub fn int_type(span: Span) -> (r: Self)
        ensures
            r == (Type { kind: TypeKind::Int, quantity: Quantity::Many, span }),
    {
        Self::new(TypeKind::Int, Quantity::Many, span)
    }

    pub fn nat_type(span: Span) -> (r: Self)
        ensures
            r == (Type { kind: TypeKind::Nat, quantity: Quantity::Many, span }),
    {
        Self::new(TypeKind::Nat, Quantity::Many, span)
    }

    /// Qubits are linear.
    pub fn qubit(span: Span) -> (r: Self)
        ensures
            r == (Type { kind: TypeKind::Qubit, quantity: Quantity::One, span }),
    {
        Self::new(TypeKind::Qubit, Quantity::One, span)
    }

    /// Quantum registers are linear.
    pub fn qregister(dims: Vec<Type>, span: Span) -> (r: Self)
        ensures
            r == (Type { kind: TypeKind::QRegister(dims), quantity: Quantity::One, span }),
    {
        Self::new(TypeKind::QRegister(dims), Quantity::One, span)
    }

    pub fn tensor(dims: Vec<Type>, span: Span) -> (r: Self)
        ensures
            r == (Type { kind: TypeKind::Tensor(dims), quantity: Quantity::Many, span }),
    {
        Self::new(TypeKind::Tensor(dims), Quantity::Many, span)
    }

    pub fn function(params: Vec<Type>, ret: Box<Type>, span: Span) -> (r: Self)
        ensures
            r == (Type { kind: TypeKind::Function(params, ret), quantity: Quantity::Many, span }),
    {
        Self::new(TypeKind::Function(params, ret), Quantity::Many, span)
    }

    pub fn with_quantity(self, qty: Quantity) -> (r: Self)
        ensures
            r == (Type { quantity: qty, ..self }),
    {
        let mut s = self;
        s.quantity = qty;
        s
    }

    /// The bottom type is represented by the error type.
    pub fn never(span: Span) -> (r: Self)
        ensures
            r == (Type { kind: TypeKind::Error, quantity: Quantity::Many, span }),
    {
        Self::new(TypeKind::Error, Quantity::Many, span)
    }

    /// A placeholder identifier `tmp` at this type's span.
    pub fn to_ident(&self) -> (r: Ident)
        ensures
            r.name@ == seq!['t', 'm', 'p'],
            r.span == self.span,
    {
        let name = String::from_str("tmp");
        proof {
            reveal_strlit("tmp");
        }
        Ident::new(name, self.span)
    }
}

/// The value of a natural-number expression built from `Zero` and `Succ`
/// alone; `None` for any other form.
pub open spec fn nat_value(e: NatExpr) -> Option<nat>
    decreases e,
{
    match e {
        NatExpr::Zero => Some(0),
        NatExpr::Succ(inner) => match nat_value(*inner) {
            Some(n) => Some(n + 1),
            None => None,
        },
        _ => None,
    }
}

/// The unary numeral `Succ^n(Zero)`.
pub open spec fn numeral(n: nat) -> NatExpr
    decreases n,
{
    if n == 0 {
        NatExpr::Zero
    } else {
        NatExpr::Succ(Box::new(numeral((n - 1) as nat)))
    }
}

impl NatExpr {
    /// Builds the unary numeral for `n`.
    pub fn from_u64(n: u64) -> (r: Self)
        ensures
            r == numeral(n as nat),
    {
        let mut expr = NatExpr::Zero;
        let mut i: u64 = 0;
        while i < n
            invariant
                i <= n,
                expr == numeral(i as nat),
            decreases n - i,
        {
            expr = NatExpr::Succ(Box::new(expr));
            i = i + 1;
        }
        expr
    }

    /// The value of a unary numeral, `None` for any other expression.
    pub fn to_u64(&self) -> (r: Option<u64>)
        requires
            nat_value(*self) matches Some(n) ==> n <= u64::MAX,
        ensures
            r matches Some(v) ==> nat_value(*self) == Some(v as nat),
            r is None ==> nat_value(*self) is None,
        decreases *self,
    {
        match self {
            NatExpr::Zero => Some(0),
            NatExpr::Succ(inner) => {
                match inner.to_u64() {
                    Some(n) => Some(n + 1),
                    None => None,
                }
            }
            _ => None,
        }
    }
}

/// Every numeral has its own value.
pub proof fn lemma_numeral_value(n: nat)
    ensures
        nat_value(numeral(n)) == Some(n),
    decreases n,
{
    if n > 0 {
        lemma_numeral_value((n - 1) as nat);
    }
}

/// Reading back a numeral built from `n` gives `n`.
pub proof fn lemma_from_u64_to_u64_roundtrip(n: u64)
    ensures
        nat_value(numeral(n as nat)) == Some(n as nat),
{
    lemma_numeral_value(n as nat);
}

} // verus!
