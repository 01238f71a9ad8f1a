//! Classification of PIR statements as natively reversible (unitaries,
//! permutations) or not (measurement, randomness), with the QIR intrinsic
//! and the ancilla qubits each class needs.

use vstd::prelude::*;
use crate::ir::pir_types::{PirExpr, PirStatement};
use crate::text::{lowercase, str_eq, to_lowercase};

verus! {

/// Class of a (reversible) operation.
#[derive(Debug, Clone, Copy, PartialEq, Eq, Structural)]
pub enum ReversibleClass {
    /// Natively reversible unitary (Hadamard, Pauli, CNOT, Toffoli, ...).
    NativeUnitary,
    /// Permutation / swap.
    Permutation,
    /// Measurement.
    Measurement,
    /// Not reversible: needs ancillas or is impure.
    NonReversible,
    /// Classical control flow.
    ClassicalControl,
}

/// Class of a builtin, by its lowercase name.
pub open spec fn builtin_class(n: Seq<char>) -> ReversibleClass {
    if n == "h"@ || n == "hadamard"@ || n == "x"@ || n == "pauli_x"@ || n == "y"@ || n == "pauli_y"@
        || n == "z"@ || n == "pauli_z"@ || n == "s"@ || n == "sdg"@ || n == "t"@ || n == "tdg"@
        || n == "rx"@ || n == "ry"@ || n == "rz"@ {
        ReversibleClass::NativeUnitary
    } else if n == "cx"@ || n == "cnot"@ || n == "cy"@ || n == "cz"@ {
        ReversibleClass::NativeUnitary
    } else if n == "ccx"@ || n == "toffoli"@ {
        ReversibleClass::NativeUnitary
    } else if n == "swap"@ {
        ReversibleClass::Permutation
    } else if n == "measure"@ || n == "mz"@ || n == "mx"@ || n == "my"@ {
        ReversibleClass::Measurement
    } else if n == "rng"@ || n == "random"@ || n == "prepare_state"@ || n == "initialize"@ {
        ReversibleClass::NonReversible
    } else if n == "adjoint"@ || n == "controlled"@ {
        ReversibleClass::NativeUnitary
    } else if n == "if"@ || n == "else"@ || n == "br"@ {
        ReversibleClass::ClassicalControl
    } else {
        ReversibleClass::NonReversible
    }
}

/// Class of an expression.
pub open spec fn expr_class(e: PirExpr) -> ReversibleClass
    decreases e,
{
    match e {
        PirExpr::Reversible { body, inverse } => {
            let b = expr_class(*body);
            let i = expr_class(*inverse);
            if b == ReversibleClass::NativeUnitary && i == ReversibleClass::NativeUnitary {
                ReversibleClass::NativeUnitary
            } else if b == ReversibleClass::Measurement && i == ReversibleClass::Measurement {
                ReversibleClass::Measurement
            } else {
                ReversibleClass::NonReversible
            }
        },
        PirExpr::Binary { .. } => ReversibleClass::NonReversible,
        PirExpr::Unary { .. } => ReversibleClass::NativeUnitary,
        PirExpr::Call { name, .. } => builtin_class(lowercase(name@)),
        PirExpr::QuantumOp { op, .. } => builtin_class(lowercase(op@)),
        PirExpr::If { .. } => ReversibleClass::ClassicalControl,
        _ => ReversibleClass::NonReversible,
    }
}

/// Class of a statement: that of its body.
pub open spec fn stmt_class(s: PirStatement) -> ReversibleClass {
    expr_class(s.body)
}

/// Class of a builtin call, by its name (case is ignored).
pub fn classify_builtin(name: &str) -> (r: ReversibleClass)
    ensures
        r == builtin_class(lowercase(name@)),
{
    let lower = to_lowercase(name);
    classify_lowercase_builtin(lower.as_str())
}

/// Class of a builtin call, by its lowercase name.
pub fn classify_lowercase_builtin(n: &str) -> (r: ReversibleClass)
    ensures
        r == builtin_class(n@),
{
    if str_eq(n, "h") || str_eq(n, "hadamard") || str_eq(n, "x") || str_eq(n, "pauli_x") || str_eq(n, "y")
        || str_eq(n, "pauli_y") || str_eq(n, "z") || str_eq(n, "pauli_z") || str_eq(n, "s") || str_eq(n, "sdg")
        || str_eq(n, "t") || str_eq(n, "tdg") || str_eq(n, "rx") || str_eq(n, "ry") || str_eq(n, "rz") {
        ReversibleClass::NativeUnitary
    } else if str_eq(n, "cx") || str_eq(n, "cnot") || str_eq(n, "cy") || str_eq(n, "cz") {
        ReversibleClass::NativeUnitary
    } else if str_eq(n, "ccx") || str_eq(n, "toffoli") {
        ReversibleClass::NativeUnitary
    } else if str_eq(n, "swap") {
        ReversibleClass::Permutation
    } else if str_eq(n, "measure") || str_eq(n, "mz") || str_eq(n, "mx") || str_eq(n, "my") {
        ReversibleClass::Measurement
    } else if str_eq(n, "rng") || str_eq(n, "random") || str_eq(n, "prepare_state") || str_eq(n, "initialize") {
        ReversibleClass::NonReversible
    } else if str_eq(n, "adjoint") || str_eq(n, "controlled") {
        ReversibleClass::NativeUnitary
    } else if str_eq(n, "if") || str_eq(n, "else") || str_eq(n, "br") {
        ReversibleClass::ClassicalControl
    } else {
        ReversibleClass::NonReversible
    }
}

/// Class of an expression.
pub fn classify_expr(expr: &PirExpr) -> (r: ReversibleClass)
    ensures
        r == expr_class(*expr),
    decreases expr,
{
    match expr {
        PirExpr::Reversible { body, inverse } => {
            let body_c = classify_expr(body);
            let inv_c = classify_expr(inverse);
            if body_c == ReversibleClass::NativeUnitary && inv_c == ReversibleClass::NativeUnitary {
                ReversibleClass::NativeUnitary
            } else if body_c == ReversibleClass::Measurement && inv_c == ReversibleClass::Measurement {
                ReversibleClass::Measurement
            } else {
                ReversibleClass::NonReversible
            }
        },
        PirExpr::Binary { .. } => ReversibleClass::NonReversible,
        PirExpr::Unary { .. } => ReversibleClass::NativeUnitary,
        PirExpr::Call { name, .. } => classify_builtin(name.as_str()),
        PirExpr::QuantumOp { op, .. } => classify_builtin(op.as_str()),
        PirExpr::If { .. } => ReversibleClass::ClassicalControl,
        PirExpr::IntLit(_) | PirExpr::FloatLit(_) | PirExpr::BoolLit(_) | PirExpr::Var(_) => ReversibleClass::NonReversible,
        PirExpr::Index { .. } | PirExpr::Field { .. } => ReversibleClass::NonReversible,
        PirExpr::Let { .. } => ReversibleClass::NonReversible,
    }
}

/// Class of a statement: the class of its body (the statement and its
/// inverse agree exactly when the body's class is kept).
pub fn classify_statement(stmt: &PirStatement) -> (r: ReversibleClass)
    ensures
        r == stmt_class(*stmt),
{
    classify_expr(&stmt.body)
}

/// QIR intrinsic of an operation, by class and lowercase gate name.
pub open spec fn intrinsic_for(class: ReversibleClass, g: Seq<char>) -> Seq<char> {
    match class {
        ReversibleClass::NativeUnitary => {
            if g == "h"@ { "qir.h"@ }
            else if g == "x"@ { "qir.x"@ }
            else if g == "y"@ { "qir.y"@ }
            else if g == "z"@ { "qir.z"@ }
            else if g == "s"@ { "qir.s"@ }
            else if g == "t"@ { "qir.t"@ }
            else if g == "sdg"@ { "qir.s"@ }
            else if g == "tdg"@ { "qir.t"@ }
            else if g == "rx"@ { "qir.rx"@ }
            else if g == "ry"@ { "qir.ry"@ }
            else if g == "rz"@ { "qir.rz"@ }
            else if g == "r1"@ { "qir.r1"@ }
            else if g == "rt1"@ { "qir.rt1"@ }
            else if g == "cx"@ { "qir.cx"@ }
            else if g == "cnot"@ { "qir.cx"@ }
            else if g == "cy"@ { "qir.cy"@ }
            else if g == "cz"@ { "qir.cz"@ }
            else if g == "swap"@ { "qir.swap"@ }
            else if g == "ccx"@ || g == "toffoli"@ { "qir.ccx"@ }
            else if g == "measure"@ || g == "mz"@ { "qir.mz"@ }
            else if g == "mx"@ { "qir.mx"@ }
            else if g == "my"@ { "qir.my"@ }
            else { "qir.h"@ }
        },
        ReversibleClass::Permutation => "qir.swap"@,
        ReversibleClass::Measurement => "qir.mz"@,
        ReversibleClass::ClassicalControl => "qir.if"@,
        ReversibleClass::NonReversible => "qir.h"@,
    }
}

/// The QIR intrinsic for an operation of the given class (gate names
/// compared ignoring case).
pub fn qir_intrinsic_name(class: ReversibleClass, gate_name: &str) -> (r: &'static str)
    ensures
        r@ == intrinsic_for(class, lowercase(gate_name@)),
{
    let lower = to_lowercase(gate_name);
    intrinsic_for_lowercase(class, lower.as_str())
}

/// The QIR intrinsic for an operation of the given class and lowercase
/// gate name.
pub fn intrinsic_for_lowercase(class: ReversibleClass, g: &str) -> (r: &'static str)
    ensures
        r@ == intrinsic_for(class, g@),
{
    match class {
        ReversibleClass::NativeUnitary => {
            if str_eq(g, "h") { "qir.h" }
            else if str_eq(g, "x") { "qir.x" }
            else if str_eq(g, "y") { "qir.y" }
            else if str_eq(g, "z") { "qir.z" }
            else if str_eq(g, "s") { "qir.s" }
            else if str_eq(g, "t") { "qir.t" }
            else if str_eq(g, "sdg") { "qir.s" }
            else if str_eq(g, "tdg") { "qir.t" }
            else if str_eq(g, "rx") { "qir.rx" }
            else if str_eq(g, "ry") { "qir.ry" }
            else if str_eq(g, "rz") { "qir.rz" }
            else if str_eq(g, "r1") { "qir.r1" }
            else if str_eq(g, "rt1") { "qir.rt1" }
            else if str_eq(g, "cx") { "qir.cx" }
            else if str_eq(g, "cnot") { "qir.cx" }
            else if str_eq(g, "cy") { "qir.cy" }
            else if str_eq(g, "cz") { "qir.cz" }
            else if str_eq(g, "swap") { "qir.swap" }
            else if str_eq(g, "ccx") || str_eq(g, "toffoli") { "qir.ccx" }
            else if str_eq(g, "measure") || str_eq(g, "mz") { "qir.mz" }
            else if str_eq(g, "mx") { "qir.mx" }
            else if str_eq(g, "my") { "qir.my" }
            else { "qir.h" }
        },
        ReversibleClass::Permutation => "qir.swap",
        ReversibleClass::Measurement => "qir.mz",
        ReversibleClass::ClassicalControl => "qir.if",
        ReversibleClass::NonReversible => "qir.h",
    }
}

/// Natively reversible: a unitary or a permutation, which emit as pure
/// QIR intrinsics (measurements need special handling).
pub open spec fn natively_reversible(s: PirStatement) -> bool {
    stmt_class(s) == ReversibleClass::NativeUnitary || stmt_class(s) == ReversibleClass::Permutation
}

/// Whether a statement can be emitted as pure QIR intrinsics.
pub fn is_natively_reversible(stmt: &PirStatement) -> (r: bool)
    ensures
        r == natively_reversible(*stmt),
{
    let cls = classify_statement(stmt);
    match cls {
        ReversibleClass::NativeUnitary | ReversibleClass::Permutation => true,
        _ => false,
    }
}

/// Lowercase name of the call that forms the body, or the empty name.
pub open spec fn body_call_name(s: PirStatement) -> Seq<char> {
    match s.body {
        PirExpr::Call { name, .. } => lowercase(name@),
        _ => Seq::empty(),
    }
}

/// Call names that need ancillas by themselves.
pub open spec fn name_needs_ancilla_spec(n: Seq<char>) -> bool {
    n == "ccx"@ || n == "toffoli"@ || n == "mz"@ || n == "measure"@ || n == "rng"@ || n == "random"@
}

/// Whether a statement needs ancilla management.
pub open spec fn needs_ancillas(s: PirStatement) -> bool {
    stmt_class(s) == ReversibleClass::Measurement || stmt_class(s) == ReversibleClass::NonReversible
        || name_needs_ancilla_spec(body_call_name(s))
}

fn body_name(stmt: &PirStatement) -> (r: String)
    ensures
        r@ == body_call_name(*stmt),
{
    match &stmt.body {
        PirExpr::Call { name, .. } => to_lowercase(name.as_str()),
        _ => String::new(),
    }
}

fn name_needs_ancilla(n: &str) -> (r: bool)
    ensures
        r == name_needs_ancilla_spec(n@),
{
    str_eq(n, "ccx") || str_eq(n, "toffoli") || str_eq(n, "mz") || str_eq(n, "measure") || str_eq(n, "rng")
        || str_eq(n, "random")
}

/// Whether a statement needs ancilla qubit management: measurements,
/// non-reversible operations and calls of Toffoli, measure or RNG.
pub fn requires_ancilla_management(stmt: &PirStatement) -> (r: bool)
    ensures
        r == needs_ancillas(*stmt),
{
    let cls = classify_statement(stmt);
    match cls {
        ReversibleClass::Measurement | ReversibleClass::NonReversible => true,
        _ => {
            let name = body_name(stmt);
            name_needs_ancilla(name.as_str())
        },
    }
}

/// `(number of ancillas, whether they need an explicit release)`.
pub open spec fn ancilla_need(class: ReversibleClass, n: Seq<char>) -> (u32, bool) {
    match class {
        ReversibleClass::NativeUnitary => (0, false),
        ReversibleClass::Permutation => (0, false),
        ReversibleClass::Measurement => (1, true),
        ReversibleClass::ClassicalControl => (0, false),
        ReversibleClass::NonReversible => {
            if n == "ccx"@ || n == "toffoli"@ {
                (1, true)
            } else if n == "rng"@ || n == "random"@ {
                (2, true)
            } else {
                (1, true)
            }
        },
    }
}

/// Ancillas a statement needs, and whether they must be released
/// explicitly.
pub fn ancilla_requirements(stmt: &PirStatement) -> (r: (u32, bool))
    ensures
        r == ancilla_need(stmt_class(*stmt), body_call_name(*stmt)),
{
    let cls = classify_statement(stmt);
    match cls {
        ReversibleClass::NativeUnitary => (0, false),
        ReversibleClass::Permutation => (0, false),
        ReversibleClass::Measurement => (1, true),
        ReversibleClass::ClassicalControl => (0, false),
        ReversibleClass::NonReversible => {
            let name = body_name(stmt);
            let n = name.as_str();
            if str_eq(n, "ccx") || str_eq(n, "toffoli") {
                (1, true)
            } else if str_eq(n, "rng") || str_eq(n, "random") {
                (2, true)
            } else {
                (1, true)
            }
        },
    }
}

} // verus!
