//! The type grammar: quantity markers, base types, type arguments and
//! array types.

use vstd::prelude::*;
use crate::ast::expr::{
    Expr, ExprKind, FieldExpr, ForLoop, ForallLoop, GateKind, MatchArm, QuantumOp, ReversibleBlock,
};
use crate::ast::items::{
    Block, ConstDef, Field, Function, Item, Literal, Module, Program, TypeDef, TypeDefKind, Variant,
};
use crate::ast::ops::{BinOp, UnOp};
use crate::ast::pattern::{FieldPattern, Pattern, PatternKind};
use crate::ast::stmt::{LetConsumeStmt, LetInOutStmt, LetStmt, Stmt, StmtKind};
use crate::ast::ty::{NatExpr, Type, TypeArg, TypeKind};
use crate::ast::{GenericKind, GenericParam, Ident, Import, ImportItems, Mutability, Param, Quantity, Span};
use crate::lexer::token::{Token, TokenKind, is_trivia, trivia};
use crate::lexer::scan::lex_extents;
use crate::lexer::{lexes_to, Lexer};
use crate::parser::expr::is_control_flow_stmt;
use crate::parser::syntax;
use crate::ast::model::{
    nat_m,
    arg_m, args_m, arm_m, arms_m, binding_m, bindings_m, block_m, cf_m, expr_m, exprs_m, field_expr_m, field_exprs_m, field_m,
    field_pat_m, field_pats_m, fields_m, gate_m, generic_m, generics_m, item_m, items_m, lit_m, names_m, opt_expr_m,
    opt_ty_m, param_m, params_m, pat_m, pats_m, stmt_m, stmts_m, ty_m, variant_m, variants_m, TyKindM,
};
use crate::text::str_eq;
use crate::parser::{moved, quantity_at, span_from_tokens, token_span, Parser};
use crate::parser::grammar::{gives, parsed, step_ok};

verus! {

broadcast use crate::ast::model::group_model_push, crate::parser::syntax::group_joined;

impl<'a> Parser<'a> {
    // ===== Types =====

    /// Whether a type name stands at the cursor.
    pub(crate) fn at_type_name(&self) -> (r: bool)
        ensures
            r == (self.cursor() < self.toks().len() && self.toks()[self.cursor()].kind is TypeIdent),
    {
        match self.peek() {
            Some(TokenKind::TypeIdent(_)) => true,
            _ => false,
        }
    }

    /// A type: an optional quantity marker, a base type, and type arguments
    /// `[ ... ]` after a named type.
    pub fn parse_type(&mut self) -> (r: Result<Type, String>)
        requires
            old(self).wf(),
        ensures
            step_ok(*old(self), *final(self), r),
            gives(*old(self), *final(self), r, syntax::ty(old(self).toks(), old(self).cursor()), |x: Type| ty_m(x)),
        decreases old(self).toks().len() - old(self).cursor(), 40int,
    {
        let start = self.pos;
        let qty = self.parse_quantity();
        let base = self.parse_base_type()?;
        let kind = match base.kind {
            TypeKind::Named(name, args) => {
                if self.at(TokenKind::LBracket) {
                    let args2 = self.parse_type_args()?;
                    TypeKind::Named(name, args2)
                } else {
                    TypeKind::Named(name, args)
                }
            },
            other => other,
        };
        let span = self.span_from(start);
        let q = match qty {
            Some(q) => q,
            None => Quantity::Many,
        };
        Ok(Type::new(kind, q, span))
    }

    /// `[ arg, ... ]` type arguments.
    pub(crate) fn parse_type_args(&mut self) -> (r: Result<Vec<TypeArg>, String>)
        requires
            old(self).wf(),
        ensures
            step_ok(*old(self), *final(self), r),
            gives(*old(self), *final(self), r, syntax::type_args(old(self).toks(), old(self).cursor()), |x: Vec<TypeArg>| args_m(x@)),
        decreases old(self).toks().len() - old(self).cursor(), 10int,
    {
        self.expect_kind(TokenKind::LBracket)?;
        let mut args: Vec<TypeArg> = Vec::new();
        let ghost a0 = syntax::joined(args_m(args@), syntax::type_arg_list(old(self).toks(), self.cursor()));
        while !self.at(TokenKind::RBracket)
            invariant
                self.wf(),
                moved(*old(self), *self),
                old(self).cursor() < self.cursor(),
                syntax::joined(args_m(args@), syntax::type_arg_list(old(self).toks(), self.cursor())) == a0,
                a0 is None ==> syntax::type_args(old(self).toks(), old(self).cursor()) is None,
            ensures
                a0 == Some((self.cursor(), args_m(args@))),
            decreases self.toks().len() - self.cursor(),
        {
            let a = self.parse_type_arg()?;
            args.push(a);
            if self.at(TokenKind::RBracket) {
                break;
            }
            self.expect_kind(TokenKind::Comma)?;
        }
        self.expect_kind(TokenKind::RBracket)?;
        Ok(args)
    }

    /// A type argument: an integer literal as a natural number, or a type.
    pub(crate) fn parse_type_arg(&mut self) -> (r: Result<TypeArg, String>)
        requires
            old(self).wf(),
        ensures
            step_ok(*old(self), *final(self), r),
            gives(*old(self), *final(self), r, syntax::type_arg(old(self).toks(), old(self).cursor()), |x: TypeArg| arg_m(x)),
        decreases old(self).toks().len() - old(self).cursor(), 41int,
    {
        if let Some(TokenKind::Int(n)) = self.peek() {
            let n = *n;
            self.bump();
            return Ok(TypeArg::Nat(NatExpr::from_u64(n as u64)));
        }
        Ok(TypeArg::Type(self.parse_type()?))
    }

    /// The base of a type: `()`, an array type, `inout T`, `reversible T`,
    /// a primitive, or a named type.
    pub(crate) fn parse_base_type(&mut self) -> (r: Result<Type, String>)
        requires
            old(self).wf(),
        ensures
            step_ok(*old(self), *final(self), r),
            moved(*old(self), *final(self)),
            gives(*old(self), *final(self), r, syntax::base_type(old(self).toks(), old(self).cursor()), |x: Type| ty_m(x).kind),
        decreases old(self).toks().len() - old(self).cursor(), 39int,
    {
        let dflt = Span::new(0, 0, 1, 1);
        if self.at(TokenKind::LParen) {
            self.bump();
            self.expect_kind(TokenKind::RParen)?;
            Ok(Type::unit(dflt))
        } else if self.at(TokenKind::LBracket) {
            self.parse_array_type()
        } else if self.eat(TokenKind::InOut) {
            let inner = self.parse_atom_type()?;
            Ok(Type::new(TypeKind::Projection(Box::new(inner)), Quantity::Many, dflt))
        } else if self.eat(TokenKind::Reversible) {
            let inner = self.parse_atom_type()?;
            Ok(Type::new(TypeKind::Reversible(Box::new(inner)), Quantity::Many, dflt))
        } else if self.eat(TokenKind::Qubit) {
            Ok(Type::qubit(dflt))
        } else if self.eat(TokenKind::Nat) {
            Ok(Type::nat_type(dflt))
        } else if self.eat(TokenKind::FloatKw) {
            Ok(Type::new(TypeKind::Float, Quantity::Many, dflt))
        } else if self.at_type_name() || self.at(TokenKind::QRegister) {
            self.parse_named_type()
        } else if self.at_ident("int") {
            self.bump();
            Ok(Type::int_type(dflt))
        } else if self.at_ident("bool") {
            self.bump();
            Ok(Type::bool(dflt))
        } else if self.at_ident("float") {
            self.bump();
            Ok(Type::new(TypeKind::Float, Quantity::Many, dflt))
        } else if self.at_ident("uint") {
            self.bump();
            Ok(Type::new(TypeKind::UInt, Quantity::Many, dflt))
        } else if self.is_eof() {
            Err(self.unexpected("a type"))
        } else {
            Err(self.unexpected("a type"))
        }
    }

    /// A type name, or `QRegister`, as a named type with no arguments yet.
    pub(crate) fn parse_named_type(&mut self) -> (r: Result<Type, String>)
        requires
            old(self).wf(),
        ensures
            step_ok(*old(self), *final(self), r),
            gives(*old(self), *final(self), r, if old(self).cursor() < old(self).toks().len() && old(self).toks()[old(self).cursor()].kind is TypeIdent { Some((old(self).cursor() + 1, TyKindM::Named(syntax::name_at(old(self).toks(), old(self).cursor()), Seq::empty()))) } else if syntax::tok_is(old(self).toks(), old(self).cursor(), TokenKind::QRegister) { Some((old(self).cursor() + 1, TyKindM::Named("QRegister"@, Seq::empty()))) } else { None }, |x: Type| ty_m(x).kind),

    {
        match self.bump() {
            Some(tok) => {
                let span = token_span(&tok);
                let name = match &tok.kind {
                    TokenKind::TypeIdent(s) => Ident::new(s.clone(), span),
                    TokenKind::QRegister => {
                        let name = "QRegister".to_string();
                        assert(name@ == "QRegister"@) by {
                            broadcast use vstd::string::group_string_axioms;
                        }
                        Ident::new(name, span)
                    },
                    _ => {
                        return Err(self.unexpected("a named type"));
                    },
                };
                Ok(Type::new(TypeKind::Named(name, Vec::new()), Quantity::Many, span))
            },
            None => Err(self.unexpected("a named type")),
        }
    }

    /// The type under `inout` or `reversible`.
    pub(crate) fn parse_atom_type(&mut self) -> (r: Result<Type, String>)
        requires
            old(self).wf(),
        ensures
            step_ok(*old(self), *final(self), r),
            gives(*old(self), *final(self), r, syntax::ty(old(self).toks(), old(self).cursor()), |x: Type| ty_m(x)),
        decreases old(self).toks().len() - old(self).cursor(), 41int,
    {
        self.parse_type()
    }

    /// `[ type ; expr ]` or `[ type ]`
    pub(crate) fn parse_array_type(&mut self) -> (r: Result<Type, String>)
        requires
            old(self).wf(),
        ensures
            step_ok(*old(self), *final(self), r),
            gives(*old(self), *final(self), r, syntax::array_type(old(self).toks(), old(self).cursor()), |x: Type| ty_m(x)),
        decreases old(self).toks().len() - old(self).cursor(), 38int,
    {
        let start = self.pos;
        self.expect_kind(TokenKind::LBracket)?;
        let elem_ty = self.parse_type()?;
        let size = if self.eat(TokenKind::Semicolon) {
            let e = self.parse_expr()?;
            Some(expr_to_nat_expr(e))
        } else {
            None
        };
        self.expect_kind(TokenKind::RBracket)?;
        let span = self.span_from(start);
        Ok(Type::new(TypeKind::Array(Box::new(elem_ty), size), Quantity::Many, span))
    }

}

/// A natural-number expression from an array size: a variable, an integer
/// literal, or otherwise the placeholder variable `unknown`.
pub(crate) fn expr_to_nat_expr(expr: Expr) -> (r: NatExpr)
    ensures
        nat_m(r) == syntax::nat_of(expr_m(expr)),
{
    match expr.kind {
        ExprKind::Var(ident) => NatExpr::Var(ident),
        ExprKind::Literal(Literal::Int(n)) => NatExpr::from_u64(n as u64),
        _ => {
            let name = "unknown".to_string();
            assert(name@ == "unknown"@) by {
                broadcast use vstd::string::group_string_axioms;
            }
            NatExpr::Var(Ident::new(name, expr.span))
        },
    }
}

} // verus!
