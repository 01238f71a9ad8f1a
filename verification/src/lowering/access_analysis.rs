//! Array accesses of lowered statements.

use vstd::prelude::*;
use crate::ast::expr::Expr;
use crate::ir::access_relation::AccessRelations;
use crate::ir::schedule_tree::StmtId;
use crate::lowering::LoweringError;

verus! {

/// Records the array accesses of an expression: no expression yields an
/// affine access yet, so the relations stay as they are.
pub fn analyze_access(_expr: &Expr, _stmt_id: StmtId, accesses: &mut AccessRelations) -> (r: Result<(), LoweringError>)
    ensures
        r is Ok,
        *final(accesses) == *old(accesses),
{
    Ok(())
}

} // verus!
