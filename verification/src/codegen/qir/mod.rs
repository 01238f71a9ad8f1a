//! QIR (Quantum Intermediate Representation) support: profiles, intrinsic
//! signatures and the classification of reversible operations.

pub mod profile;
pub mod ancilla_emission;
pub mod classifier;
pub mod primitives;

use vstd::prelude::*;
use crate::ast::Quantity;

verus! {

/// A quantum operation of a QIR circuit. A gate's angle parameters are held
/// as their decimal texts.
#[derive(Debug, Clone)]
pub enum QIROperation {
    AllocateQubit { index: usize, quantity: Quantity },
    ReleaseQubit { index: usize },
    Gate { name: String, qubits: Vec<usize>, params: Vec<String> },
    Measure { qubit: usize, basis: usize },
}

/// A QIR circuit for runtime execution: its qubits, their quantities and its
/// operations.
#[derive(Debug, Clone)]
pub struct QIRModule {
    pub qubit_count: usize,
    pub qubit_quantities: Vec<Quantity>,
    pub operations: Vec<QIROperation>,
}

impl QIRModule {
    /// The number of qubits.
    pub fn qubit_count(&self) -> (r: usize)
        ensures
            r == self.qubit_count,
    {
        self.qubit_count
    }

    /// The quantity of each qubit.
    pub fn qubit_quantities(&self) -> (r: &[Quantity])
        ensures
            r@ == self.qubit_quantities@,
    {
        self.qubit_quantities.as_slice()
    }
}

} // verus!
