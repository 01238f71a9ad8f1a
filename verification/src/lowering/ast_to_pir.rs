//! The entry point from a typed program to the polyhedral IR.

use vstd::prelude::*;
use crate::ast::items::Program;
use crate::ir::pir_types::PirModule;
use crate::lowering::{lowering_fits, program_outcome, LoweringContext, LoweringError};

verus! {

/// Lowers a typed program to the polyhedral IR in a fresh context.
pub fn lower_ast(program: &Program) -> (r: Result<PirModule, LoweringError>)
    requires
        lowering_fits(*program),
    ensures
        program_outcome(*program, r),
{
    let mut ctx = LoweringContext::new();
    ctx.lower_program(program)
}

} // verus!
