//! Loop nests of statements, as schedule bands.

use vstd::prelude::*;
use crate::ast::expr::Expr;
use crate::ast::stmt::Stmt;
use crate::ir::schedule_tree::ScheduleNode;
use crate::lowering::{LoweringContext, LoweringError};

verus! {

/// A loop nest: an iterator with its bounds and step, a body, and the
/// nest inside it.
#[derive(Debug)]
pub struct LoopNest {
    pub iterator: String,
    pub lower_bound: Expr,
    pub upper_bound: Expr,
    pub step: Expr,
    pub body: Box<Stmt>,
    pub inner: Option<Box<LoopNest>>,
}

/// The loop nest a statement starts: no statement is recognised as one yet.
pub fn extract_loop_nest(_stmt: &Stmt) -> (r: Option<LoopNest>)
    ensures
        r is None,
{
    None
}

/// The schedule bands of a loop nest: none yet, and the context is left as
/// it is.
pub fn loop_nest_to_bands(_nest: &LoopNest, ctx: &mut LoweringContext) -> (r: Result<Vec<ScheduleNode>, LoweringError>)
    ensures
        r matches Ok(v) && v@.len() == 0,
        final(ctx).state() == old(ctx).state(),
        final(ctx).stmt_seq() == old(ctx).stmt_seq(),
        final(ctx).frame() == old(ctx).frame(),
{
    Ok(Vec::new())
}

} // verus!
