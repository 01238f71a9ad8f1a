//! The grammar of patterns, statements and blocks.

use vstd::prelude::*;
use crate::ast::expr::{
    Expr, ExprKind, FieldExpr, ForLoop, ForallLoop, GateKind, MatchArm, QuantumOp, ReversibleBlock,
};
use crate::ast::items::{
    Block, ConstDef, Field, Function, Item, Literal, Module, Program, TypeDef, TypeDefKind, Variant,
};
use crate::ast::ops::{BinOp, UnOp};
use crate::ast::pattern::{FieldPattern, Pattern, PatternKind};
use crate::ast::stmt::{LetConsumeStmt, LetInOutStmt, LetStmt, Stmt, StmtKind};
use crate::ast::ty::{NatExpr, Type, TypeArg, TypeKind};
use crate::ast::{GenericKind, GenericParam, Ident, Import, ImportItems, Mutability, Param, Quantity, Span};
use crate::lexer::token::{Token, TokenKind, is_trivia, trivia};
use crate::lexer::scan::lex_extents;
use crate::lexer::{lexes_to, Lexer};
use crate::parser::expr::is_control_flow_stmt;
use crate::parser::syntax;
use crate::ast::model::{
    arg_m, args_m, arm_m, arms_m, binding_m, bindings_m, block_m, cf_m, expr_m, exprs_m, field_expr_m, field_exprs_m, field_m,
    field_pat_m, field_pats_m, fields_m, gate_m, generic_m, generics_m, item_m, items_m, lit_m, names_m, opt_expr_m,
    opt_ty_m, param_m, params_m, pat_m, pats_m, stmt_m, stmts_m, ty_m, variant_m, variants_m, TyKindM,
};
use crate::text::str_eq;
use crate::parser::{moved, quantity_at, span_from_tokens, token_span, Parser};
use crate::parser::grammar::{gives, parsed, step_ok};
use crate::parser::syntax::{lemma_stmts_joined_cons, lemma_stmts_joined_nil};
use crate::ast::model::StmtM;
use crate::parser::stmt::lemma_spread_model;
use crate::parser::expr::control_flow;

verus! {

broadcast use crate::ast::model::group_model_push, crate::parser::syntax::group_joined;

impl<'a> Parser<'a> {
    // ===== Patterns =====

    /// A literal, tuple, or identifier pattern.
    pub fn parse_pattern(&mut self) -> (r: Result<Pattern, String>)
        requires
            old(self).wf(),
        ensures
            step_ok(*old(self), *final(self), r),
            gives(*old(self), *final(self), r, syntax::pattern(old(self).toks(), old(self).cursor()), |x: Pattern| pat_m(x)),
        decreases old(self).toks().len() - old(self).cursor(), 26int,
    {
        match self.peek() {
            Some(TokenKind::Int(_)) | Some(TokenKind::Float(_)) | Some(TokenKind::Bool(_))
            | Some(TokenKind::Str(_)) | Some(TokenKind::Char(_)) => {
                let lit = self.parse_literal_token()?;
                let id = self.fresh_id();
                Ok(Pattern::new(PatternKind::Literal(lit.0), lit.1, id))
            },
            Some(TokenKind::LParen) => self.parse_tuple_pattern(),
            Some(TokenKind::Ident(_)) | Some(TokenKind::TypeIdent(_)) => self.parse_ident_pattern(),
            _ => Err(self.unexpected("a pattern")),
        }
    }

    /// `( pattern, ... )`
    pub(crate) fn parse_tuple_pattern(&mut self) -> (r: Result<Pattern, String>)
        requires
            old(self).wf(),
        ensures
            step_ok(*old(self), *final(self), r),
            gives(*old(self), *final(self), r, syntax::tuple_pattern(old(self).toks(), old(self).cursor()), |x: Pattern| pat_m(x)),
        decreases old(self).toks().len() - old(self).cursor(), 10int,
    {
        let start = self.pos;
        self.expect_kind(TokenKind::LParen)?;
        let mut items: Vec<Pattern> = Vec::new();
        let ghost l0 = syntax::joined(pats_m(items@), syntax::pattern_list(old(self).toks(), self.cursor()));
        while !self.at(TokenKind::RParen)
            invariant
                self.wf(),
                moved(*old(self), *self),
                old(self).cursor() < self.cursor(),
                syntax::joined(pats_m(items@), syntax::pattern_list(old(self).toks(), self.cursor())) == l0,
                l0 is None ==> syntax::tuple_pattern(old(self).toks(), old(self).cursor()) is None,
            ensures
                l0 == Some((self.cursor(), pats_m(items@))),
            decreases self.toks().len() - self.cursor(),
        {
            let p = self.parse_pattern()?;
            items.push(p);
            if self.at(TokenKind::RParen) {
                break;
            }
            self.expect_kind(TokenKind::Comma)?;
        }
        self.expect_kind(TokenKind::RParen)?;
        let span = self.span_from(start);
        let id = self.fresh_id();
        Ok(Pattern::new(PatternKind::Tuple(items), span, id))
    }

    /// `_`, a name, `Name { field: pattern, ... }`, or `Name ( pattern,
    /// ... )` whose arguments are dropped.
    #[verifier::rlimit(100)]
    #[verifier::spinoff_prover]
    pub(crate) fn parse_ident_pattern(&mut self) -> (r: Result<Pattern, String>)
        requires
            old(self).wf(),
        ensures
            step_ok(*old(self), *final(self), r),
            gives(*old(self), *final(self), r, syntax::ident_pattern(old(self).toks(), old(self).cursor()), |x: Pattern| pat_m(x)),
        decreases old(self).toks().len() - old(self).cursor(), 10int,
    {
        let is_wildcard = self.at_ident("_");
        let start = self.pos;
        let name = self.ident()?;
        let span = self.span_from(start);
        if is_wildcard {
            let id = self.fresh_id();
            return Ok(Pattern::new(PatternKind::Wildcard, span, id));
        }
        if self.at(TokenKind::LBrace) {
            self.bump();
            let mut fields: Vec<FieldPattern> = Vec::new();
            let ghost f0 = syntax::joined(field_pats_m(fields@), syntax::field_patterns(old(self).toks(), self.cursor()));
            while !self.at(TokenKind::RBrace)
            invariant
                self.wf(),
                moved(*old(self), *self),
                old(self).cursor() < self.cursor(),
                syntax::joined(field_pats_m(fields@), syntax::field_patterns(old(self).toks(), self.cursor())) == f0,
                f0 is None ==> syntax::ident_pattern(old(self).toks(), old(self).cursor()) is None,
            ensures
                f0 == Some((self.cursor(), field_pats_m(fields@))),
            decreases self.toks().len() - self.cursor(),
            {
                let f = self.parse_field_pattern()?;
                fields.push(f);
                if self.at(TokenKind::RBrace) {
                    break;
                }
                self.expect_kind(TokenKind::Comma)?;
            }
            self.expect_kind(TokenKind::RBrace)?;
            let id = self.fresh_id();
            return Ok(Pattern::new(PatternKind::Struct(name, fields), span, id));
        }
        if self.at(TokenKind::LParen) {
            self.bump();
            let ghost l0 = syntax::list_end(syntax::pattern_list(old(self).toks(), self.cursor()));
            while !self.at(TokenKind::RParen)
            invariant
                self.wf(),
                moved(*old(self), *self),
                old(self).cursor() < self.cursor(),
                syntax::list_end(syntax::pattern_list(old(self).toks(), self.cursor())) == l0,
                l0 is None ==> syntax::ident_pattern(old(self).toks(), old(self).cursor()) is None,
            ensures
                l0 == Some(self.cursor()),
            decreases self.toks().len() - self.cursor(),
            {
                let _arg = self.parse_pattern()?;
                if self.at(TokenKind::RParen) {
                    break;
                }
                self.expect_kind(TokenKind::Comma)?;
            }
            self.expect_kind(TokenKind::RParen)?;
        }
        let id = self.fresh_id();
        Ok(Pattern::new(PatternKind::Ident(name), span, id))
    }

    /// `name : pattern`
    pub(crate) fn parse_field_pattern(&mut self) -> (r: Result<FieldPattern, String>)
        requires
            old(self).wf(),
        ensures
            step_ok(*old(self), *final(self), r),
            gives(*old(self), *final(self), r, syntax::field_pattern(old(self).toks(), old(self).cursor()), |x: FieldPattern| field_pat_m(x)),
        decreases old(self).toks().len() - old(self).cursor(), 10int,
    {
        let start = self.pos;
        let name = self.ident()?;
        self.expect_kind(TokenKind::Colon)?;
        let pattern = self.parse_pattern()?;
        Ok(FieldPattern { name, pattern, span: self.span_from(start) })
    }

    // ===== Statements and blocks =====

    /// `let inout name [: type] = expr [;]`, `let consume name [: type] =
    /// expr [;]`, or `let [q] [mut|inout|consume] name [: type] = expr [;]`
    /// whose quantity is also spread over the annotated type.
    #[verifier::rlimit(100)]
    #[verifier::spinoff_prover]
    pub fn parse_let_stmt(&mut self) -> (r: Result<Stmt, String>)
        requires
            old(self).wf(),
        ensures
            step_ok(*old(self), *final(self), r),
            gives(*old(self), *final(self), r, syntax::let_stmt(old(self).toks(), old(self).cursor()), |x: Stmt| stmt_m(x)),
        decreases old(self).toks().len() - old(self).cursor(), 10int,
    {
        let start = self.pos;
        self.expect_kind(TokenKind::Let)?;
        if self.eat(TokenKind::InOut) {
            assert(self.cursor() == syntax::let_name(old(self).toks(), old(self).cursor()));
            let name = self.ident()?;
            let ty = self.parse_optional_type_annotation()?;
            self.expect_kind(TokenKind::Assign)?;
            let value = self.parse_expr()?;
            self.eat(TokenKind::Semicolon);
            let span = self.span_from(start);
            let id = self.fresh_id();
            Ok(Stmt::new(StmtKind::LetInOut(LetInOutStmt { name, ty, value, span }), span, id))
        } else if self.eat(TokenKind::Consume) {
            assert(self.cursor() == syntax::let_name(old(self).toks(), old(self).cursor()));
            let name = self.ident()?;
            let ty = self.parse_optional_type_annotation()?;
            self.expect_kind(TokenKind::Assign)?;
            let value = self.parse_expr()?;
            self.eat(TokenKind::Semicolon);
            let span = self.span_from(start);
            let id = self.fresh_id();
            Ok(Stmt::new(StmtKind::LetConsume(LetConsumeStmt { name, ty, value, span }), span, id))
        } else {
            let quantity = match self.parse_quantity() {
                Some(q) => q,
                None => Quantity::Many,
            };
            let mutability = if self.at_ident("mut") {
                self.bump();
                Mutability::Immutable
            } else if self.eat(TokenKind::InOut) {
                Mutability::InOut
            } else if self.eat(TokenKind::Consume) {
                Mutability::Consume
            } else {
                Mutability::Immutable
            };
            assert(self.cursor() == syntax::let_name(old(self).toks(), old(self).cursor()));
            let name = self.ident()?;
            let ty = match self.parse_optional_type_annotation()? {
                Some(t) => {
                    let ghost t0 = t;
                    let mut t = t;
                    Parser::apply_quantity_to_type(&mut t, quantity);
                    proof {
                        lemma_spread_model(t0, t, quantity);
                    }
                    Some(t)
                },
                None => None,
            };
            self.expect_kind(TokenKind::Assign)?;
            let value = self.parse_expr()?;
            self.eat(TokenKind::Semicolon);
            let span = self.span_from(start);
            let id = self.fresh_id();
            Ok(Stmt::new(StmtKind::Let(LetStmt { name, ty, quantity, mutability, value, span }), span, id))
        }
    }

    /// `: type`, if a colon follows.
    pub(crate) fn parse_optional_type_annotation(&mut self) -> (r: Result<Option<Type>, String>)
        requires
            old(self).wf(),
        ensures
            moved(*old(self), *final(self)),
            gives(*old(self), *final(self), r, syntax::opt_annotation(old(self).toks(), old(self).cursor()), |x: Option<Type>| opt_ty_m(x)),
        decreases old(self).toks().len() - old(self).cursor(), 10int,
    {
        if self.at(TokenKind::Colon) {
            self.bump();
            Ok(Some(self.parse_type()?))
        } else {
            Ok(None)
        }
    }

    /// `reversible block`
    pub(crate) fn parse_reversible_block(&mut self) -> (r: Result<ReversibleBlock, String>)
        requires
            old(self).wf(),
        ensures
            step_ok(*old(self), *final(self), r),
            gives(*old(self), *final(self), r, syntax::reversible_block(old(self).toks(), old(self).cursor()), |x: ReversibleBlock| block_m(x.body)),
        decreases old(self).toks().len() - old(self).cursor(), 5int,
    {
        let start = self.pos;
        self.expect_kind(TokenKind::Reversible)?;
        let body = self.parse_block()?;
        let span = self.span_from(start);
        Ok(ReversibleBlock { body, uncomputes: Vec::new(), span })
    }
}

} // verus!
