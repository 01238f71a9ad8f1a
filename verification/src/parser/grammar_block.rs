//! The grammar of blocks: statement lists and their tails.

use vstd::prelude::*;
use crate::ast::expr::{
    Expr, ExprKind, FieldExpr, ForLoop, ForallLoop, GateKind, MatchArm, QuantumOp, ReversibleBlock,
};
use crate::ast::items::{
    Block, ConstDef, Field, Function, Item, Literal, Module, Program, TypeDef, TypeDefKind, Variant,
};
use crate::ast::ops::{BinOp, UnOp};
use crate::ast::pattern::{FieldPattern, Pattern, PatternKind};
use crate::ast::stmt::{LetConsumeStmt, LetInOutStmt, LetStmt, Stmt, StmtKind};
use crate::ast::ty::{NatExpr, Type, TypeArg, TypeKind};
use crate::ast::{GenericKind, GenericParam, Ident, Import, ImportItems, Mutability, Param, Quantity, Span};
use crate::lexer::token::{Token, TokenKind, is_trivia, trivia};
use crate::lexer::scan::lex_extents;
use crate::lexer::{lexes_to, Lexer};
use crate::parser::expr::is_control_flow_stmt;
use crate::parser::syntax;
use crate::ast::model::{
    arg_m, args_m, arm_m, arms_m, binding_m, bindings_m, block_m, cf_m, expr_m, exprs_m, field_expr_m, field_exprs_m, field_m,
    field_pat_m, field_pats_m, fields_m, gate_m, generic_m, generics_m, item_m, items_m, lit_m, names_m, opt_expr_m,
    opt_ty_m, param_m, params_m, pat_m, pats_m, stmt_m, stmts_m, ty_m, variant_m, variants_m, TyKindM,
};
use crate::text::str_eq;
use crate::parser::{moved, quantity_at, span_from_tokens, token_span, Parser};
use crate::parser::grammar::{gives, parsed, step_ok};
use crate::parser::syntax::{lemma_stmts_joined_cons, lemma_stmts_joined_nil};
use crate::ast::model::{lemma_stmts_m_push, StmtM};
use crate::parser::stmt::lemma_spread_model;
use crate::parser::expr::control_flow;

verus! {

/// An expression is a control-flow construct exactly when its value is.
proof fn lemma_control_flow_model(e: &Expr)
    ensures
        control_flow(e.kind) == cf_m(expr_m(*e)),
{
}

impl<'a> Parser<'a> {
    /// `{ statements [tail] }`
    pub fn parse_block(&mut self) -> (r: Result<Block, String>)
        requires
            old(self).wf(),
        ensures
            step_ok(*old(self), *final(self), r),
            gives(*old(self), *final(self), r, syntax::block(old(self).toks(), old(self).cursor()), |x: Block| block_m(x)),
        decreases old(self).toks().len() - old(self).cursor(), 5int,
    {
        let start = self.pos;
        self.expect_kind(TokenKind::LBrace)?;
        let (stmts, tail) = self.parse_stmt_list()?;
        self.expect_kind(TokenKind::RBrace)?;
        Ok(Block::new(stmts, tail, self.span_from(start)))
    }

    /// Statements up to `}` or the end: an expression without `;` that is
    /// not a control-flow construct ends the list as its tail.
    #[verifier::spinoff_prover]
    pub(crate) fn parse_stmt_list(&mut self) -> (r: Result<(Vec<Stmt>, Option<Expr>), String>)
        requires
            old(self).wf(),
        ensures
            moved(*old(self), *final(self)),
            r is Ok <==> syntax::stmt_list(old(self).toks(), old(self).cursor()) is Some,
            r matches Ok((ss, tail)) ==> syntax::stmt_list(old(self).toks(), old(self).cursor()) == Some((final(self).cursor(), stmts_m(ss@), opt_expr_m(tail))),
        decreases old(self).toks().len() - old(self).cursor(), 37int,
    {
        let ghost t = old(self).toks();
        let mut stmts: Vec<Stmt> = Vec::new();
        proof {
            assert(stmts_m(Seq::<Stmt>::empty()) =~= Seq::<StmtM>::empty());
            if let Some((e, ys, tl)) = syntax::stmt_list(t, old(self).cursor()) {
                assert(Seq::<StmtM>::empty() + ys =~= ys);
            }
        }
        loop
            invariant
                self.wf(),
                moved(*old(self), *self),
                t == old(self).toks(),
                syntax::stmt_list(t, old(self).cursor()) == syntax::stmts_joined(stmts_m(stmts@), syntax::stmt_list(t, self.cursor())),
            ensures
                syntax::stmt_list(t, old(self).cursor()) == Some((self.cursor(), stmts_m(stmts@), None::<crate::ast::model::ExprM>)),
            decreases self.toks().len() - self.cursor(),
        {
            let ghost c0 = self.cursor();
            let ghost v0 = stmts@;
            if self.is_eof() || self.at(TokenKind::RBrace) {
                proof {
                    lemma_stmts_joined_nil(stmts_m(v0), c0, None);
                }
                break;
            }
            let ghost sm: StmtM;
            if self.at(TokenKind::Semicolon) {
                self.bump();
                let id = self.fresh_id();
                stmts.push(Stmt::new(StmtKind::Empty, Span::new(0, 0, 1, 1), id));
                proof {
                    sm = StmtM::Empty;
                }
            } else if self.at(TokenKind::Let) {
                let st = self.parse_let_stmt()?;
                proof {
                    sm = stmt_m(st);
                }
                stmts.push(st);
            } else if self.at(TokenKind::Reversible) {
                let start = self.pos;
                let rb = self.parse_reversible_block()?;
                self.eat(TokenKind::Semicolon);
                let span = self.span_from(start);
                let id = self.fresh_id();
                proof {
                    sm = StmtM::Reversible(block_m(rb.body));
                }
                stmts.push(Stmt::new(StmtKind::Reversible(rb), span, id));
            } else {
                let expr = self.parse_expr()?;
                proof {
                    lemma_control_flow_model(&expr);
                    sm = StmtM::Expr(expr_m(expr));
                }
                if self.at(TokenKind::Semicolon) {
                    self.bump();
                    let span = expr.span;
                    let id = self.fresh_id();
                    stmts.push(Stmt::new(StmtKind::Expr(expr), span, id));
                } else if is_control_flow_stmt(&expr.kind) {
                    let span = expr.span;
                    let id = self.fresh_id();
                    stmts.push(Stmt::new(StmtKind::Expr(expr), span, id));
                } else {
                    proof {
                        lemma_stmts_joined_nil(stmts_m(v0), self.cursor(), Some(expr_m(expr)));
                    }
                    return Ok((stmts, Some(expr)));
                }
            }
            proof {
                assert(syntax::stmt_list(t, c0) == syntax::stmt_cons(sm, syntax::stmt_list(t, self.cursor())));
                lemma_stmts_joined_cons(stmts_m(v0), sm, syntax::stmt_list(t, self.cursor()));
                assert(stmts@ == v0.push(stmts@.last()));
                lemma_stmts_m_push(v0, stmts@.last());
                assert(stmts_m(stmts@) == stmts_m(v0).push(sm));
            }
        }
        Ok((stmts, None))
    }

}

} // verus!
