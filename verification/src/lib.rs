//! Naso compiler core: the QTT-annotated AST, the polyhedral IR, quantity-aware
//! type lowering, QIR profiles and the reversible-lowering engine.

pub mod arith;
pub mod ast;
pub mod text;
pub mod lines;
pub mod ir;
pub mod codegen;
pub mod lowering;
pub mod lexer;
pub mod parser;
