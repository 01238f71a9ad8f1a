//! Code generation: quantity-aware ABI lowering, diagnostics, QIR profiles
//! and classification, structural validation of emitted modules, targets
//! and the backend configuration.

pub mod abi_core;
pub mod context_core;
pub mod error;
pub mod polyhedral_opts;
pub mod qir;
pub mod validate;

use vstd::prelude::*;
use crate::codegen::context_core::{CodegenTarget, OptLevel};
use crate::codegen::error::CodegenError;
use crate::ir::pir_types::PirModule;

verus! {

/// A path on the host, where generated code is written.
#[verifier::external_type_specification]
#[verifier::external_body]
pub struct ExPathBuf(std::path::PathBuf);

/// The code generation backends.
#[derive(Debug, Clone, Copy, PartialEq, Eq, Structural)]
pub enum Backend {
    Llvm,
    Qir,
    Cranelift,
}

/// Configuration for code generation.
#[derive(Debug)]
pub struct CodegenConfig {
    pub backend: Backend,
    pub target: CodegenTarget,
    pub opt_level: OptLevel,
    pub output_path: Option<std::path::PathBuf>,
    pub emit_debug: bool,
}

impl Default for CodegenConfig {
    /// LLVM for the host at the default optimization level, no output path,
    /// no debug information.
    fn default() -> (r: Self)
        ensures
            r.backend == Backend::Llvm,
            r.target is Host,
            r.opt_level == OptLevel::Default,
            r.output_path is None,
            !r.emit_debug,
    {
        CodegenConfig {
            backend: Backend::Llvm,
            target: CodegenTarget::Host,
            opt_level: OptLevel::Default,
            output_path: None,
            emit_debug: false,
        }
    }
}

/// The code generation pipeline of a build without a native backend: every
/// emission reports the backend that is missing.
pub struct CodegenPipeline;

impl CodegenPipeline {
    pub fn new(context: ()) -> (r: Self) {
        CodegenPipeline
    }

    /// LLVM IR cannot be emitted without the LLVM backend.
    pub fn emit_llvm(&self, module: &PirModule) -> (r: Result<String, CodegenError>)
        ensures
            r matches Err(CodegenError::UnsupportedFeature(m)) && m@ == "LLVM backend not enabled. Compile with 'llvm' feature."@,
    {
        Err(CodegenError::UnsupportedFeature("LLVM backend not enabled. Compile with 'llvm' feature.".to_string()))
    }

    /// QIR cannot be emitted without the LLVM backend.
    pub fn emit_qir(&self, module: &PirModule) -> (r: Result<String, CodegenError>)
        ensures
            r matches Err(CodegenError::UnsupportedFeature(m)) && m@ == "QIR backend requires LLVM. Compile with 'llvm' feature."@,
    {
        Err(CodegenError::UnsupportedFeature("QIR backend requires LLVM. Compile with 'llvm' feature.".to_string()))
    }

    /// Nothing can be run without the Cranelift backend.
    pub fn execute_cranelift_jit(&self, module: &PirModule) -> (r: Result<i32, CodegenError>)
        ensures
            r matches Err(CodegenError::UnsupportedFeature(m)) && m@ == "Cranelift backend not enabled. Compile with 'cranelift' feature."@,
    {
        Err(CodegenError::UnsupportedFeature("Cranelift backend not enabled. Compile with 'cranelift' feature.".to_string()))
    }
}

} // verus!
