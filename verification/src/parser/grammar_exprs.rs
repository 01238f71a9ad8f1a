//! The expression grammar: assignment, precedence climbing, unary and
//! postfix operators, and the primary expressions.

use vstd::prelude::*;
use crate::ast::expr::{
    Expr, ExprKind, FieldExpr, ForLoop, ForallLoop, GateKind, MatchArm, QuantumOp, ReversibleBlock,
};
use crate::ast::items::{
    Block, ConstDef, Field, Function, Item, Literal, Module, Program, TypeDef, TypeDefKind, Variant,
};
use crate::ast::ops::{BinOp, UnOp};
use crate::ast::pattern::{FieldPattern, Pattern, PatternKind};
use crate::ast::stmt::{LetConsumeStmt, LetInOutStmt, LetStmt, Stmt, StmtKind};
use crate::ast::ty::{NatExpr, Type, TypeArg, TypeKind};
use crate::ast::{GenericKind, GenericParam, Ident, Import, ImportItems, Mutability, Param, Quantity, Span};
use crate::lexer::token::{Token, TokenKind, is_trivia, trivia};
use crate::lexer::scan::lex_extents;
use crate::lexer::{lexes_to, Lexer};
use crate::parser::expr::is_control_flow_stmt;
use crate::parser::syntax;
use crate::ast::model::{
    arg_m, args_m, arm_m, arms_m, binding_m, bindings_m, block_m, cf_m, expr_m, exprs_m, field_expr_m, field_exprs_m, field_m,
    field_pat_m, field_pats_m, fields_m, gate_m, generic_m, generics_m, item_m, items_m, lit_m, names_m, opt_expr_m,
    opt_ty_m, param_m, params_m, pat_m, pats_m, stmt_m, stmts_m, ty_m, variant_m, variants_m, TyKindM,
};
use crate::text::str_eq;
use crate::parser::{moved, quantity_at, span_from_tokens, token_span, Parser};
use crate::parser::grammar::{gives, parsed, step_ok};

verus! {

broadcast use crate::ast::model::group_model_push, crate::parser::syntax::group_joined;

impl<'a> Parser<'a> {
    // ===== Expressions =====

    /// An expression: a binary expression, then `= expr` (right
    /// associative) when an assignment follows.
    pub fn parse_expr(&mut self) -> (r: Result<Expr, String>)
        requires
            old(self).wf(),
        ensures
            step_ok(*old(self), *final(self), r),
            gives(*old(self), *final(self), r, syntax::expr(old(self).toks(), old(self).cursor()), |x: Expr| expr_m(x)),
        decreases old(self).toks().len() - old(self).cursor(), 35int,
    {
        let lhs = self.parse_expr_precedence(0)?;
        if self.at(TokenKind::Assign) {
            self.bump();
            let rhs = self.parse_expr()?;
            let span = lhs.span.merge(rhs.span);
            let id = self.fresh_id();
            Ok(Expr::new(ExprKind::Assign(Box::new(lhs), Box::new(rhs)), span, id))
        } else {
            Ok(lhs)
        }
    }

    /// Precedence climbing: unary operands joined by binary operators of
    /// precedence at least `min_prec`, left associative.
    #[verifier::rlimit(100)]
    #[verifier::spinoff_prover]
    pub fn parse_expr_precedence(&mut self, min_prec: u8) -> (r: Result<Expr, String>)
        requires
            old(self).wf(),
        ensures
            step_ok(*old(self), *final(self), r),
            gives(*old(self), *final(self), r, syntax::binary(old(self).toks(), old(self).cursor(), min_prec as int), |x: Expr| expr_m(x)),
        decreases old(self).toks().len() - old(self).cursor(), 34int,
    {
        let mut lhs = self.parse_unary()?;
        loop
            invariant
                self.wf(),
                moved(*old(self), *self),
                old(self).cursor() < self.cursor(),
                syntax::binary_rest(old(self).toks(), self.cursor(), min_prec as int, expr_m(lhs))
                    == syntax::binary(old(self).toks(), old(self).cursor(), min_prec as int),
            ensures
                syntax::binary(old(self).toks(), old(self).cursor(), min_prec as int) == Some((self.cursor(), expr_m(lhs))),
            decreases self.toks().len() - self.cursor(),
        {
            let op = match self.peek_binary_op() {
                Some(op) => op,
                None => break,
            };
            let prec = crate::parser::expr::binop_prec(op);
            if prec < min_prec {
                break;
            }
            self.bump();
            let rhs = self.parse_expr_precedence(prec + 1)?;
            let span = lhs.span.merge(rhs.span);
            let id = self.fresh_id();
            lhs = Expr::new(ExprKind::Binary(op, Box::new(lhs), Box::new(rhs)), span, id);
        }
        Ok(lhs)
    }

    /// `- e`, `! e`, `* e`, or a postfix expression.
    pub(crate) fn parse_unary(&mut self) -> (r: Result<Expr, String>)
        requires
            old(self).wf(),
        ensures
            step_ok(*old(self), *final(self), r),
            gives(*old(self), *final(self), r, syntax::unary(old(self).toks(), old(self).cursor()), |x: Expr| expr_m(x)),
        decreases old(self).toks().len() - old(self).cursor(), 33int,
    {
        let op = if self.eat(TokenKind::Minus) {
            Some(UnOp::Neg)
        } else if self.eat(TokenKind::Not) {
            Some(UnOp::Not)
        } else if self.eat(TokenKind::Star) {
            Some(UnOp::Deref)
        } else {
            None
        };
        match op {
            Some(u) => {
                let e = self.parse_unary()?;
                let span = e.span;
                let id = self.fresh_id();
                Ok(Expr::new(ExprKind::Unary(u, Box::new(e)), span, id))
            },
            None => self.parse_postfix(),
        }
    }

    /// A primary expression followed by calls `( args )`, method calls and
    /// fields `. name`, and indexing `[ indices ]`.
    #[verifier::rlimit(100)]
    #[verifier::spinoff_prover]
    pub(crate) fn parse_postfix(&mut self) -> (r: Result<Expr, String>)
        requires
            old(self).wf(),
        ensures
            step_ok(*old(self), *final(self), r),
            gives(*old(self), *final(self), r, syntax::postfix(old(self).toks(), old(self).cursor()), |x: Expr| expr_m(x)),
        decreases old(self).toks().len() - old(self).cursor(), 32int,
    {
        let mut expr = self.parse_primary()?;
        loop
            invariant
                self.wf(),
                moved(*old(self), *self),
                old(self).cursor() < self.cursor(),
                syntax::postfix_rest(old(self).toks(), self.cursor(), expr_m(expr))
                    == syntax::postfix(old(self).toks(), old(self).cursor()),
            ensures
                syntax::postfix(old(self).toks(), old(self).cursor()) == Some((self.cursor(), expr_m(expr))),
            decreases self.toks().len() - self.cursor(),
        {
            if self.at(TokenKind::LParen) {
                self.bump();
                let args = self.parse_args_until(TokenKind::RParen)?;
                self.expect_kind(TokenKind::RParen)?;
                let span = expr.span;
                let id = self.fresh_id();
                expr = Expr::new(ExprKind::Call(Box::new(expr), args), span, id);
            } else if self.at(TokenKind::Dot) {
                self.bump();
                let name = self.ident()?;
                if self.at(TokenKind::LParen) {
                    self.bump();
                    let args = self.parse_args_until(TokenKind::RParen)?;
                    self.expect_kind(TokenKind::RParen)?;
                    let span = expr.span;
                    let id = self.fresh_id();
                    expr = Expr::new(ExprKind::MethodCall(Box::new(expr), name, args), span, id);
                } else {
                    let span = expr.span;
                    let id = self.fresh_id();
                    expr = Expr::new(ExprKind::Field(Box::new(expr), name), span, id);
                }
            } else if self.at(TokenKind::LBracket) {
                self.bump();
                let mut indices = self.parse_args_until(TokenKind::RBracket)?;
                self.expect_kind(TokenKind::RBracket)?;
                let span = expr.span;
                let ghost im = exprs_m(indices@);
                let ghost first = indices@[0];
                let idx = if indices.len() == 1 {
                    let x = indices.pop().unwrap();
                    proof {
                        assert(x == first);
                        assert(im[0] == expr_m(first));
                    }
                    x
                } else {
                    let id = self.fresh_id();
                    Expr::new(ExprKind::Tuple(indices), span, id)
                };
                assert(expr_m(idx) == syntax::index_of(im));
                let id = self.fresh_id();
                expr = Expr::new(ExprKind::Index(Box::new(expr), Box::new(idx)), span, id);
            } else {
                break;
            }
        }
        Ok(expr)
    }

    /// Comma-separated expressions up to `closer`, which is left.
    pub(crate) fn parse_args_until(&mut self, closer: TokenKind) -> (r: Result<Vec<Expr>, String>)
        requires
            old(self).wf(),
        ensures
            moved(*old(self), *final(self)),
            gives(*old(self), *final(self), r, syntax::args_until(old(self).toks(), old(self).cursor(), closer), |x: Vec<Expr>| exprs_m(x@)),
        decreases old(self).toks().len() - old(self).cursor(), 36int,
    {
        let mut args: Vec<Expr> = Vec::new();
        while !self.at(closer.clone())
            invariant
                self.wf(),
                moved(*old(self), *self),
                syntax::args_until(old(self).toks(), old(self).cursor(), closer) == syntax::joined(exprs_m(args@), syntax::args_until(old(self).toks(), self.cursor(), closer)),
            ensures
                syntax::args_until(old(self).toks(), old(self).cursor(), closer) == Some((self.cursor(), exprs_m(args@))),
            decreases self.toks().len() - self.cursor(),
        {
            let e = self.parse_expr()?;
            args.push(e);
            if self.at(closer.clone()) {
                break;
            }
            self.expect_kind(TokenKind::Comma)?;
        }
        Ok(args)
    }

    /// A primary expression, chosen by its first token.
    #[verifier::rlimit(100)]
    #[verifier::spinoff_prover]
    pub(crate) fn parse_primary(&mut self) -> (r: Result<Expr, String>)
        requires
            old(self).wf(),
        ensures
            step_ok(*old(self), *final(self), r),
            gives(*old(self), *final(self), r, syntax::primary(old(self).toks(), old(self).cursor()), |x: Expr| expr_m(x)),
        decreases old(self).toks().len() - old(self).cursor(), 31int,
    {
        match self.peek() {
            Some(TokenKind::If) => self.parse_if(),
            Some(TokenKind::Match) => self.parse_match(),
            Some(TokenKind::For) => self.parse_for(),
            Some(TokenKind::While) => self.parse_while(),
            Some(TokenKind::Return) => self.parse_return(),
            Some(TokenKind::Reversible) => self.parse_reversible_expr(),
            Some(TokenKind::Measure) => self.parse_measure(),
            Some(TokenKind::Entangle) => self.parse_entangle(),
            Some(TokenKind::QAlloc) => self.parse_qalloc(),
            Some(TokenKind::Hadamard) => self.parse_gate(TokenKind::Hadamard, GateKind::H),
            Some(TokenKind::CNot) => self.parse_gate(TokenKind::CNot, GateKind::CX),
            Some(TokenKind::Int(_)) | Some(TokenKind::Float(_)) | Some(TokenKind::Bool(_))
            | Some(TokenKind::Str(_)) | Some(TokenKind::Char(_)) => {
                let lit = self.parse_literal_token()?;
                let span = lit.1;
                let id = self.fresh_id();
                Ok(Expr::new(ExprKind::Literal(lit.0), span, id))
            },
            Some(TokenKind::LBrace) => self.parse_block_expr(),
            Some(TokenKind::LParen) => self.parse_tuple_or_paren(),
            Some(TokenKind::LBracket) => self.parse_array(),
            Some(TokenKind::Ident(s)) => {
                if str_eq(s.as_str(), "forall") {
                    self.parse_forall()
                } else {
                    let start = self.pos;
                    let name = self.ident()?;
                    let span = self.span_from(start);
                    let id = self.fresh_id();
                    Ok(Expr::new(ExprKind::Var(name), span, id))
                }
            },
            Some(TokenKind::TypeIdent(_)) => self.parse_struct_literal_or_var(),
            None => Err(self.unexpected("an expression")),
            Some(_) => Err(self.unexpected("an expression")),
        }
    }

    /// A literal token as a literal, with its span.
    pub(crate) fn parse_literal_token(&mut self) -> (r: Result<(Literal, Span), String>)
        requires
            old(self).wf(),
        ensures
            step_ok(*old(self), *final(self), r),
            gives(*old(self), *final(self), r, if syntax::literal_at(old(self).toks(), old(self).cursor()) { Some((old(self).cursor() + 1, syntax::lit_at(old(self).toks(), old(self).cursor()))) } else { None }, |x: (Literal, Span)| lit_m(x.0)),

    {
        match self.bump() {
            Some(tok) => {
                let span = token_span(&tok);
                let lit = match &tok.kind {
                    TokenKind::Int(n) => Literal::Int(*n),
                    TokenKind::Float(f) => Literal::Float(f.clone()),
                    TokenKind::Bool(b) => Literal::Bool(*b),
                    TokenKind::Str(s) => Literal::String(s.clone()),
                    TokenKind::Char(c) => Literal::Char(*c),
                    _ => {
                        return Err(self.unexpected("a literal"));
                    },
                };
                Ok((lit, span))
            },
            None => Err(self.unexpected("a literal")),
        }
    }

    /// `Name { field: expr, ... }` or the type name as a variable.
    pub(crate) fn parse_struct_literal_or_var(&mut self) -> (r: Result<Expr, String>)
        requires
            old(self).wf(),
        ensures
            step_ok(*old(self), *final(self), r),
            gives(*old(self), *final(self), r, syntax::struct_or_var(old(self).toks(), old(self).cursor()), |x: Expr| expr_m(x)),
        decreases old(self).toks().len() - old(self).cursor(), 30int,
    {
        let start = self.pos;
        let name = self.ident()?;
        if self.at(TokenKind::LBrace) {
            self.bump();
            let mut fields: Vec<FieldExpr> = Vec::new();
            let ghost f0 = syntax::joined(field_exprs_m(fields@), syntax::field_exprs(old(self).toks(), self.cursor()));
            while !self.at(TokenKind::RBrace)
            invariant
                self.wf(),
                moved(*old(self), *self),
                old(self).cursor() < self.cursor(),
                syntax::joined(field_exprs_m(fields@), syntax::field_exprs(old(self).toks(), self.cursor())) == f0,
                f0 is None ==> syntax::struct_or_var(old(self).toks(), old(self).cursor()) is None,
            ensures
                f0 == Some((self.cursor(), field_exprs_m(fields@))),
            decreases self.toks().len() - self.cursor(),
            {
                let f = self.parse_field_expr()?;
                fields.push(f);
                if self.at(TokenKind::RBrace) {
                    break;
                }
                self.expect_kind(TokenKind::Comma)?;
            }
            self.expect_kind(TokenKind::RBrace)?;
            let span = self.span_from(start);
            let id = self.fresh_id();
            Ok(Expr::new(ExprKind::Struct(name, fields), span, id))
        } else {
            let span = self.span_from(start);
            let id = self.fresh_id();
            Ok(Expr::new(ExprKind::Var(name), span, id))
        }
    }

    /// `name : expr`
    pub(crate) fn parse_field_expr(&mut self) -> (r: Result<FieldExpr, String>)
        requires
            old(self).wf(),
        ensures
            step_ok(*old(self), *final(self), r),
            gives(*old(self), *final(self), r, syntax::field_expr(old(self).toks(), old(self).cursor()), |x: FieldExpr| field_expr_m(x)),
        decreases old(self).toks().len() - old(self).cursor(), 10int,
    {
        let start = self.pos;
        let name = self.ident()?;
        self.expect_kind(TokenKind::Colon)?;
        let value = self.parse_expr()?;
        Ok(FieldExpr { name, value, span: self.span_from(start) })
    }

    /// `()`, `( expr )` or a tuple `( expr, ... )`.
    #[verifier::rlimit(100)]
    #[verifier::spinoff_prover]
    pub(crate) fn parse_tuple_or_paren(&mut self) -> (r: Result<Expr, String>)
        requires
            old(self).wf(),
        ensures
            step_ok(*old(self), *final(self), r),
            gives(*old(self), *final(self), r, syntax::tuple_or_paren(old(self).toks(), old(self).cursor()), |x: Expr| expr_m(x)),
        decreases old(self).toks().len() - old(self).cursor(), 10int,
    {
        let start = self.pos;
        self.expect_kind(TokenKind::LParen)?;
        if self.at(TokenKind::RParen) {
            self.bump();
            let span = self.span_from(start);
            let id = self.fresh_id();
            return Ok(Expr::new(ExprKind::Literal(Literal::Unit), span, id));
        }
        let first = self.parse_expr()?;
        if !self.at(TokenKind::Comma) {
            self.expect_kind(TokenKind::RParen)?;
            return Ok(first);
        }
        let mut items: Vec<Expr> = Vec::new();
        items.push(first);
        let ghost t0 = syntax::joined(exprs_m(items@), syntax::tuple_rest(old(self).toks(), self.cursor()));
        while self.at(TokenKind::Comma)
            invariant
                self.wf(),
                moved(*old(self), *self),
                old(self).cursor() < self.cursor(),
                syntax::joined(exprs_m(items@), syntax::tuple_rest(old(self).toks(), self.cursor())) == t0,
                t0 is None ==> syntax::tuple_or_paren(old(self).toks(), old(self).cursor()) is None,
            ensures
                t0 == Some((self.cursor(), exprs_m(items@))),
            decreases self.toks().len() - self.cursor(),
        {
            self.bump();
            if self.at(TokenKind::RParen) {
                break;
            }
            let e = self.parse_expr()?;
            items.push(e);
        }
        self.expect_kind(TokenKind::RParen)?;
        let span = self.span_from(start);
        let id = self.fresh_id();
        Ok(Expr::new(ExprKind::Tuple(items), span, id))
    }

    /// `[ expr, ... ]`
    pub(crate) fn parse_array(&mut self) -> (r: Result<Expr, String>)
        requires
            old(self).wf(),
        ensures
            step_ok(*old(self), *final(self), r),
            gives(*old(self), *final(self), r, syntax::array_expr(old(self).toks(), old(self).cursor()), |x: Expr| expr_m(x)),
        decreases old(self).toks().len() - old(self).cursor(), 10int,
    {
        let start = self.pos;
        self.expect_kind(TokenKind::LBracket)?;
        let items = self.parse_args_until(TokenKind::RBracket)?;
        self.expect_kind(TokenKind::RBracket)?;
        let span = self.span_from(start);
        let id = self.fresh_id();
        Ok(Expr::new(ExprKind::Array(items), span, id))
    }

    /// A block as an expression.
    pub(crate) fn parse_block_expr(&mut self) -> (r: Result<Expr, String>)
        requires
            old(self).wf(),
        ensures
            step_ok(*old(self), *final(self), r),
            gives(*old(self), *final(self), r, syntax::block_expr(syntax::block(old(self).toks(), old(self).cursor())), |x: Expr| expr_m(x)),
        decreases old(self).toks().len() - old(self).cursor(), 30int,
    {
        let b = self.parse_block()?;
        let span = b.span;
        let id = self.fresh_id();
        Ok(Expr::new(ExprKind::Block(Box::new(b)), span, id))
    }

    /// `if cond block [else (if ... | block)]`
    pub(crate) fn parse_if(&mut self) -> (r: Result<Expr, String>)
        requires
            old(self).wf(),
        ensures
            step_ok(*old(self), *final(self), r),
            gives(*old(self), *final(self), r, syntax::if_expr(old(self).toks(), old(self).cursor()), |x: Expr| expr_m(x)),
        decreases old(self).toks().len() - old(self).cursor(), 30int,
    {
        let start = self.pos;
        self.expect_kind(TokenKind::If)?;
        let cond = self.parse_expr()?;
        let then = self.parse_block_expr()?;
        let else_ = if self.at(TokenKind::Else) {
            self.bump();
            if self.at(TokenKind::If) {
                Some(Box::new(self.parse_if()?))
            } else {
                Some(Box::new(self.parse_block_expr()?))
            }
        } else {
            None
        };
        let span = self.span_from(start);
        let id = self.fresh_id();
        Ok(Expr::new(ExprKind::If(Box::new(cond), Box::new(then), else_), span, id))
    }

    /// `match scrutinee { arm [,] ... }`
    pub(crate) fn parse_match(&mut self) -> (r: Result<Expr, String>)
        requires
            old(self).wf(),
        ensures
            step_ok(*old(self), *final(self), r),
            gives(*old(self), *final(self), r, syntax::match_expr(old(self).toks(), old(self).cursor()), |x: Expr| expr_m(x)),
        decreases old(self).toks().len() - old(self).cursor(), 30int,
    {
        let start = self.pos;
        self.expect_kind(TokenKind::Match)?;
        let scrutinee = self.parse_expr()?;
        self.expect_kind(TokenKind::LBrace)?;
        let mut arms: Vec<MatchArm> = Vec::new();
        let ghost a0 = syntax::joined(arms_m(arms@), syntax::arms(old(self).toks(), self.cursor()));
        while !self.at(TokenKind::RBrace)
            invariant
                self.wf(),
                moved(*old(self), *self),
                old(self).cursor() < self.cursor(),
                syntax::joined(arms_m(arms@), syntax::arms(old(self).toks(), self.cursor())) == a0,
                a0 is None ==> syntax::match_expr(old(self).toks(), old(self).cursor()) is None,
            decreases self.toks().len() - self.cursor(),
        {
            let a = self.parse_match_arm()?;
            arms.push(a);
            self.eat(TokenKind::Comma);
        }
        self.expect_kind(TokenKind::RBrace)?;
        let span = self.span_from(start);
        let id = self.fresh_id();
        Ok(Expr::new(ExprKind::Match(Box::new(scrutinee), arms), span, id))
    }

    /// `pattern [if guard] => body`
    pub(crate) fn parse_match_arm(&mut self) -> (r: Result<MatchArm, String>)
        requires
            old(self).wf(),
        ensures
            step_ok(*old(self), *final(self), r),
            gives(*old(self), *final(self), r, syntax::match_arm(old(self).toks(), old(self).cursor()), |x: MatchArm| arm_m(x)),
        decreases old(self).toks().len() - old(self).cursor(), 27int,
    {
        let start = self.pos;
        let pattern = self.parse_pattern()?;
        let guard = if self.at(TokenKind::If) {
            self.bump();
            Some(self.parse_expr()?)
        } else {
            None
        };
        self.expect_kind(TokenKind::FatArrow)?;
        let body = self.parse_expr()?;
        Ok(MatchArm { pattern, guard, body, span: self.span_from(start) })
    }

    /// The identifier `in`, which must stand at the cursor.
    pub(crate) fn expect_in(&mut self) -> (r: Result<(), String>)
        requires
            old(self).wf(),
        ensures
            step_ok(*old(self), *final(self), r),
            parsed(*old(self), *final(self), r, if syntax::word_at(old(self).toks(), old(self).cursor(), "in"@) { Some(old(self).cursor() + 1) } else { None }),
    {
        if self.at_ident("in") {
            self.bump();
            Ok(())
        } else {
            Err(self.unexpected("`in`"))
        }
    }

    /// `for var in iter block`
    pub(crate) fn parse_for(&mut self) -> (r: Result<Expr, String>)
        requires
            old(self).wf(),
        ensures
            step_ok(*old(self), *final(self), r),
            gives(*old(self), *final(self), r, syntax::for_expr(old(self).toks(), old(self).cursor()), |x: Expr| expr_m(x)),
        decreases old(self).toks().len() - old(self).cursor(), 30int,
    {
        let start = self.pos;
        self.expect_kind(TokenKind::For)?;
        let var = self.ident()?;
        self.expect_in()?;
        let iter = self.parse_expr()?;
        let body = self.parse_block()?;
        let span = self.span_from(start);
        let id = self.fresh_id();
        Ok(Expr::new(ExprKind::For(Box::new(ForLoop { var, iter, body, span })), span, id))
    }

    /// `forall var in lo .. hi, ... block`
    #[verifier::rlimit(100)]
    #[verifier::spinoff_prover]
    pub(crate) fn parse_forall(&mut self) -> (r: Result<Expr, String>)
        requires
            old(self).wf(),
        ensures
            step_ok(*old(self), *final(self), r),
            gives(*old(self), *final(self), r, syntax::forall_expr(old(self).toks(), old(self).cursor()), |x: Expr| expr_m(x)),
        decreases old(self).toks().len() - old(self).cursor(), 30int,
    {
        let start = self.pos;
        if !self.at_ident("forall") {
            return Err(self.unexpected("`forall`"));
        }
        self.bump();
        let mut bindings: Vec<(Ident, Expr, Expr)> = Vec::new();
        let ghost b0 = syntax::joined(bindings_m(bindings@), syntax::bindings(old(self).toks(), self.cursor()));
        loop
            invariant_except_break
                syntax::joined(bindings_m(bindings@), syntax::bindings(old(self).toks(), self.cursor())) == b0,
            invariant
                self.wf(),
                moved(*old(self), *self),
                old(self).cursor() < self.cursor(),
                b0 is None ==> syntax::forall_expr(old(self).toks(), old(self).cursor()) is None,
            ensures
                b0 == Some((self.cursor(), bindings_m(bindings@))),
            decreases self.toks().len() - self.cursor(),
        {
            let ghost c0 = self.cursor();
            let var = self.ident()?;
            self.expect_in()?;
            let lower = self.parse_expr()?;
            self.expect_kind(TokenKind::DotDot)?;
            let upper = self.parse_expr()?;
            bindings.push((var, lower, upper));
            if !self.at(TokenKind::Comma) {
                break;
            }
            self.bump();
        }
        let body = self.parse_block()?;
        let span = self.span_from(start);
        let id = self.fresh_id();
        Ok(Expr::new(ExprKind::Forall(Box::new(ForallLoop { bindings, body, span })), span, id))
    }

    /// `while cond block`
    pub(crate) fn parse_while(&mut self) -> (r: Result<Expr, String>)
        requires
            old(self).wf(),
        ensures
            step_ok(*old(self), *final(self), r),
            gives(*old(self), *final(self), r, syntax::while_expr(old(self).toks(), old(self).cursor()), |x: Expr| expr_m(x)),
        decreases old(self).toks().len() - old(self).cursor(), 30int,
    {
        let start = self.pos;
        self.expect_kind(TokenKind::While)?;
        let cond = self.parse_expr()?;
        let body = self.parse_block_expr()?;
        let span = self.span_from(start);
        let id = self.fresh_id();
        Ok(Expr::new(ExprKind::While(Box::new(cond), Box::new(body)), span, id))
    }

    /// `return [expr]`: no value before `;`, `}`, `)` or the end.
    pub(crate) fn parse_return(&mut self) -> (r: Result<Expr, String>)
        requires
            old(self).wf(),
        ensures
            step_ok(*old(self), *final(self), r),
            gives(*old(self), *final(self), r, syntax::return_expr(old(self).toks(), old(self).cursor()), |x: Expr| expr_m(x)),
        decreases old(self).toks().len() - old(self).cursor(), 30int,
    {
        let start = self.pos;
        self.expect_kind(TokenKind::Return)?;
        let value = if self.is_eof() || self.at(TokenKind::Semicolon) || self.at(TokenKind::RBrace) || self.at(
            TokenKind::RParen,
        ) {
            None
        } else {
            Some(Box::new(self.parse_expr()?))
        };
        let span = self.span_from(start);
        let id = self.fresh_id();
        Ok(Expr::new(ExprKind::Return(value), span, id))
    }

    /// `measure unary`
    pub(crate) fn parse_measure(&mut self) -> (r: Result<Expr, String>)
        requires
            old(self).wf(),
        ensures
            step_ok(*old(self), *final(self), r),
            gives(*old(self), *final(self), r, syntax::measure(old(self).toks(), old(self).cursor()), |x: Expr| expr_m(x)),
        decreases old(self).toks().len() - old(self).cursor(), 30int,
    {
        let start = self.pos;
        self.expect_kind(TokenKind::Measure)?;
        let target = self.parse_unary()?;
        let span = self.span_from(start);
        let id = self.fresh_id();
        Ok(Expr::new(ExprKind::QuantumOp(QuantumOp::Measure(Box::new(target))), span, id))
    }

    /// `entangle [( args )]`
    pub(crate) fn parse_entangle(&mut self) -> (r: Result<Expr, String>)
        requires
            old(self).wf(),
        ensures
            step_ok(*old(self), *final(self), r),
            gives(*old(self), *final(self), r, syntax::entangle(old(self).toks(), old(self).cursor()), |x: Expr| expr_m(x)),
        decreases old(self).toks().len() - old(self).cursor(), 30int,
    {
        let start = self.pos;
        self.expect_kind(TokenKind::Entangle)?;
        let args = if self.at(TokenKind::LParen) {
            self.bump();
            let args = self.parse_args_until(TokenKind::RParen)?;
            self.expect_kind(TokenKind::RParen)?;
            args
        } else {
            Vec::new()
        };
        let span = self.span_from(start);
        let id = self.fresh_id();
        Ok(Expr::new(ExprKind::QuantumOp(QuantumOp::Entangle(args)), span, id))
    }

    /// `qalloc ( [size] )`: the size is parsed and dropped.
    pub(crate) fn parse_qalloc(&mut self) -> (r: Result<Expr, String>)
        requires
            old(self).wf(),
        ensures
            step_ok(*old(self), *final(self), r),
            gives(*old(self), *final(self), r, syntax::qalloc(old(self).toks(), old(self).cursor()), |x: Expr| expr_m(x)),
        decreases old(self).toks().len() - old(self).cursor(), 30int,
    {
        let start = self.pos;
        self.expect_kind(TokenKind::QAlloc)?;
        self.expect_kind(TokenKind::LParen)?;
        if !self.at(TokenKind::RParen) {
            let _size = self.parse_expr()?;
        }
        self.expect_kind(TokenKind::RParen)?;
        let span = self.span_from(start);
        let id = self.fresh_id();
        let name = "qalloc".to_string();
        assert(name@ == "qalloc"@) by {
            broadcast use vstd::string::group_string_axioms;
        }
        Ok(Expr::new(ExprKind::QuantumOp(QuantumOp::Alloc(Ident::new(name, span))), span, id))
    }

    /// A Hadamard or CNOT gate: the keyword, then its operands in
    /// parentheses.
    pub(crate) fn parse_gate(&mut self, keyword: TokenKind, gate: GateKind) -> (r: Result<Expr, String>)
        requires
            old(self).wf(),
        ensures
            step_ok(*old(self), *final(self), r),
            gives(*old(self), *final(self), r, if syntax::tok_is(old(self).toks(), old(self).cursor(), keyword) { syntax::gate(old(self).toks(), old(self).cursor(), gate_m(gate)) } else { None }, |x: Expr| expr_m(x)),
        decreases old(self).toks().len() - old(self).cursor(), 30int,
    {
        let start = self.pos;
        self.expect_kind(keyword)?;
        self.expect_kind(TokenKind::LParen)?;
        let args = self.parse_args_until(TokenKind::RParen)?;
        self.expect_kind(TokenKind::RParen)?;
        let span = self.span_from(start);
        let id = self.fresh_id();
        Ok(Expr::new(ExprKind::QuantumOp(QuantumOp::ApplyGate(gate, args)), span, id))
    }

    /// A `reversible { ... }` block as an expression.
    pub(crate) fn parse_reversible_expr(&mut self) -> (r: Result<Expr, String>)
        requires
            old(self).wf(),
        ensures
            step_ok(*old(self), *final(self), r),
            gives(*old(self), *final(self), r, syntax::reversible_expr(old(self).toks(), old(self).cursor()), |x: Expr| expr_m(x)),
        decreases old(self).toks().len() - old(self).cursor(), 30int,
    {
        let start = self.pos;
        let rb = self.parse_reversible_block()?;
        let span = self.span_from(start);
        let id = self.fresh_id();
        Ok(Expr::new(ExprKind::Reversible(Box::new(rb)), span, id))
    }

}

} // verus!
