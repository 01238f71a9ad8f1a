//! The recursive-descent grammar of Naso over a token stream: items,
//! types, statements, expressions and patterns. Where the input does not
//! follow the grammar, parsing stops with an error that names what was
//! expected and what was found.

use vstd::prelude::*;
use crate::ast::expr::{
    Expr, ExprKind, FieldExpr, ForLoop, ForallLoop, GateKind, MatchArm, QuantumOp, ReversibleBlock,
};
use crate::ast::items::{
    Block, ConstDef, Field, Function, Item, Literal, Module, Program, TypeDef, TypeDefKind, Variant,
};
use crate::ast::ops::{BinOp, UnOp};
use crate::ast::pattern::{FieldPattern, Pattern, PatternKind};
use crate::ast::stmt::{LetConsumeStmt, LetInOutStmt, LetStmt, Stmt, StmtKind};
use crate::ast::ty::{NatExpr, Type, TypeArg, TypeKind};
use crate::ast::{GenericKind, GenericParam, Ident, Import, ImportItems, Mutability, Param, Quantity, Span};
use crate::lexer::token::{Token, TokenKind, is_trivia, trivia};
use crate::lexer::scan::lex_extents;
use crate::lexer::{lexes_to, Lexer};
use crate::parser::expr::is_control_flow_stmt;
use crate::parser::syntax;
use crate::parser::syntax::{lemma_joined_cons, lemma_joined_empty, lemma_joined_nil, lemma_joined_one};
use crate::ast::model::{
    lemma_fields_m_push, lemma_generics_m_push, lemma_items_m_push, lemma_names_m_push, lemma_params_m_push,
    lemma_variants_m_push, FieldM, GenM, ItemM, ParamM,
};
use crate::ast::model::{
    arg_m, args_m, arm_m, arms_m, binding_m, bindings_m, block_m, cf_m, expr_m, exprs_m, field_expr_m, field_exprs_m, field_m,
    field_pat_m, field_pats_m, fields_m, gate_m, generic_m, generics_m, item_m, items_m, lit_m, names_m, opt_expr_m,
    opt_ty_m, param_m, params_m, pat_m, pats_m, stmt_m, stmts_m, ty_m, variant_m, variants_m, TyKindM,
};
use crate::text::str_eq;
use crate::parser::{moved, quantity_at, span_from_tokens, token_span, Parser};

verus! {



/// The parser moved on, and on success past at least one token.
pub open spec fn step_ok<'a, T>(before: Parser<'a>, after: Parser<'a>, r: Result<T, String>) -> bool {
    &&& moved(before, after)
    &&& r is Ok ==> before.cursor() < after.cursor()
}

/// The parser moved on; it succeeded exactly where the grammar gives a
/// position `g` for the construct at its cursor, and then stands there.
pub open spec fn parsed<'a, T>(before: Parser<'a>, after: Parser<'a>, r: Result<T, String>, g: Option<int>) -> bool {
    &&& moved(before, after)
    &&& (r is Ok <==> g is Some)
    &&& r is Ok ==> g == Some(after.cursor())
}

/// The parser moved on; it succeeded exactly where the grammar `g` reads a
/// construct at its cursor, and then stands after it, with a result whose
/// value under `view` is the tree the grammar reads.
pub open spec fn gives<'a, T, M>(
    before: Parser<'a>,
    after: Parser<'a>,
    r: Result<T, String>,
    g: Option<(int, M)>,
    view: spec_fn(T) -> M,
) -> bool {
    &&& moved(before, after)
    &&& (r is Ok <==> g is Some)
    &&& r matches Ok(x) ==> g == Some((after.cursor(), view(x)))
}

/// The tokens that begin an item.
pub open spec fn item_keyword(k: TokenKind) -> bool {
    k is Fn || k is Struct || k is Enum || k is Type || k is Const || k is Import || k is Mod
}

/// The item is the kind that its first token begins: a function after
/// `fn`, a struct, enum or alias after `struct`, `enum` or `type`, a
/// constant, an import or a module.
pub open spec fn item_starts(k: TokenKind, item: Item) -> bool {
    match item {
        Item::Function(_) => k is Fn,
        Item::TypeDef(td) => (k is Struct && td.kind is Struct) || (k is Enum && td.kind is Enum) || (k is Type
            && td.kind is Alias),
        Item::Const(_) => k is Const,
        Item::Import(_) => k is Import,
        Item::Module(_) => k is Mod,
    }
}

/// The items stand in the tokens in order: item `k` begins at token
/// `starts[k]` with the keyword of its kind, the first at `from`, each later
/// one after the one before, all before `to`.
pub open spec fn items_at(toks: Seq<Token>, items: Seq<Item>, starts: Seq<int>, from: int, to: int) -> bool {
    &&& starts.len() == items.len()
    &&& items.len() > 0 ==> starts[0] == from
    &&& forall|k: int| 0 <= k < starts.len() ==> from <= #[trigger] starts[k] < to && to <= toks.len()
        && item_starts(toks[starts[k]].kind, items[k])
    &&& forall|k: int| 0 < k < starts.len() ==> #[trigger] starts[k - 1] < starts[k]
}

impl<'a> Parser<'a> {
    // ===== Items =====

    /// The items up to the end of the input.
    #[verifier::rlimit(100)]
    #[verifier::spinoff_prover]
    pub fn parse_program_items(&mut self) -> (r: Result<Vec<Item>, String>)
        requires
            old(self).wf(),
        ensures
            moved(*old(self), *final(self)),
            r is Ok ==> final(self).cursor() == final(self).toks().len(),
            old(self).cursor() == old(self).toks().len() ==> (r matches Ok(v) && v@.len() == 0),
            old(self).cursor() < old(self).toks().len() ==> {
                &&& r matches Ok(v) ==> v@.len() > 0 && item_starts(old(self).toks()[old(self).cursor()].kind, v@[0])
                &&& !item_keyword(old(self).toks()[old(self).cursor()].kind) ==> r is Err
            },
            r matches Ok(v) ==> exists|starts: Seq<int>|
                items_at(old(self).toks(), v@, starts, old(self).cursor(), old(self).toks().len() as int),
            r is Ok <==> syntax::program_items(old(self).toks(), old(self).cursor()) is Some,
            r matches Ok(v) ==> syntax::program_items(old(self).toks(), old(self).cursor()) == Some(items_m(v@)),
        decreases old(self).toks().len() - old(self).cursor(), 60int,
    {
        let mut items: Vec<Item> = Vec::new();
        let ghost mut starts: Seq<int> = Seq::empty();
        proof {
            assert(items_m(items@) =~= Seq::<ItemM>::empty());
            if let Some(rest) = syntax::program_items(old(self).toks(), old(self).cursor()) {
                assert(Seq::<ItemM>::empty() + rest =~= rest);
            }
        }
        while !self.is_eof()
            invariant
                self.wf(),
                moved(*old(self), *self),
                items_at(old(self).toks(), items@, starts, old(self).cursor(), self.cursor()),
                items@.len() > 0 ==> old(self).cursor() < self.cursor(),
                items@.len() > 0 ==> item_starts(old(self).toks()[old(self).cursor()].kind, items@[0]),
                items@.len() == 0 ==> self.cursor() == old(self).cursor(),
                syntax::program_items(old(self).toks(), old(self).cursor()) == match syntax::program_items(old(self).toks(), self.cursor()) {
                    Some(rest) => Some(items_m(items@) + rest),
                    None => None,
                },
            decreases self.toks().len() - self.cursor(),
        {
            let ghost at = self.cursor();
            let ghost w0 = items@;
            let item = self.parse_item()?;
            proof {
                starts = starts.push(at);
                lemma_items_m_push(items@, item);
                if let Some(rest) = syntax::program_items(old(self).toks(), self.cursor()) {
                    assert(items_m(w0) + (seq![item_m(item)] + rest) =~= items_m(w0).push(item_m(item)) + rest);
                }
            }
            items.push(item);
        }
        proof {
            assert(items_m(items@) + Seq::<ItemM>::empty() =~= items_m(items@));
        }
        assert(items_at(old(self).toks(), items@, starts, old(self).cursor(), old(self).toks().len() as int));
        Ok(items)
    }

    /// One item: a function, struct, enum, type alias, constant, import or
    /// module, chosen by its first token.
    pub fn parse_item(&mut self) -> (r: Result<Item, String>)
        requires
            old(self).wf(),
        ensures
            step_ok(*old(self), *final(self), r),
            r matches Ok(it) ==> old(self).cursor() < old(self).toks().len() && item_starts(
                old(self).toks()[old(self).cursor()].kind,
                it,
            ),
            old(self).cursor() < old(self).toks().len() && !item_keyword(old(self).toks()[old(self).cursor()].kind)
                ==> r is Err,
            gives(*old(self), *final(self), r, syntax::item(old(self).toks(), old(self).cursor()), |x: Item| item_m(x)),
        decreases old(self).toks().len() - old(self).cursor(), 59int,
    {
        match self.peek() {
            Some(TokenKind::Fn) => Ok(Item::Function(self.parse_fn()?)),
            Some(TokenKind::Struct) => Ok(Item::TypeDef(self.parse_struct()?)),
            Some(TokenKind::Enum) => Ok(Item::TypeDef(self.parse_enum()?)),
            Some(TokenKind::Type) => Ok(Item::TypeDef(self.parse_type_alias()?)),
            Some(TokenKind::Const) => Ok(Item::Const(self.parse_const()?)),
            Some(TokenKind::Import) => Ok(Item::Import(self.parse_import()?)),
            Some(TokenKind::Mod) => Ok(Item::Module(self.parse_module()?)),
            _ => Err(self.unexpected("a top-level item")),
        }
    }

    /// `fn [q] name [generics] ( params ) [-> type] block`
    #[verifier::rlimit(100)]
    #[verifier::spinoff_prover]
    pub fn parse_fn(&mut self) -> (r: Result<Function, String>)
        requires
            old(self).wf(),
        ensures
            step_ok(*old(self), *final(self), r),
            gives(*old(self), *final(self), r, syntax::fn_def(old(self).toks(), old(self).cursor()), |x: Function| item_m(Item::Function(x))),
        decreases old(self).toks().len() - old(self).cursor(), 58int,
    {
        proof {
            assert(generics_m(Seq::<GenericParam>::empty()) =~= Seq::<GenM>::empty());
            assert(params_m(Seq::<Param>::empty()) =~= Seq::<ParamM>::empty());
        }
        let start = self.pos;
        self.expect_kind(TokenKind::Fn)?;
        let quantity = match self.parse_quantity() {
            Some(q) => q,
            None => Quantity::Many,
        };
        let name = self.ident()?;
        let generics = if self.at(TokenKind::LBracket) {
            self.parse_generic_params()?
        } else {
            Vec::new()
        };
        self.expect_kind(TokenKind::LParen)?;
        let params = if self.at(TokenKind::RParen) {
            Vec::new()
        } else {
            self.parse_params()?
        };
        self.expect_kind(TokenKind::RParen)?;
        let ret_ty = if self.at(TokenKind::Arrow) {
            self.bump();
            Some(self.parse_type()?)
        } else {
            None
        };
        let body = self.parse_block()?;
        let span = self.span_from(start);
        Ok(Function {
            name,
            generics,
            params,
            ret_ty,
            body,
            span,
            attributes: Vec::new(),
            is_reversible: false,
            quantity,
        })
    }

    /// Comma-separated parameters up to the closing `)`, which is left.
    pub fn parse_params(&mut self) -> (r: Result<Vec<Param>, String>)
        requires
            old(self).wf(),
        ensures
            step_ok(*old(self), *final(self), r),
            gives(*old(self), *final(self), r, syntax::params(old(self).toks(), old(self).cursor()), |x: Vec<Param>| params_m(x@)),
        decreases old(self).toks().len() - old(self).cursor(), 57int,
    {
        let mut params: Vec<Param> = Vec::new();
        let p = self.parse_param()?;
        proof {
            lemma_params_m_push(params@, p);
            assert(params_m(Seq::<Param>::empty()) =~= Seq::<ParamM>::empty());
        }
        params.push(p);
        loop
            invariant
                self.wf(),
                moved(*old(self), *self),
                old(self).cursor() < self.cursor(),
                syntax::params(old(self).toks(), old(self).cursor()) == syntax::joined(params_m(params@), syntax::params_rest(old(self).toks(), self.cursor())),
            ensures
                syntax::params(old(self).toks(), old(self).cursor()) == Some((self.cursor(), params_m(params@))),
            decreases self.toks().len() - self.cursor(),
        {
            if self.at(TokenKind::RParen) {
                proof {
                    lemma_joined_nil(params_m(params@), self.cursor());
                }
                break;
            }
            let ghost v0 = params@;
            self.expect_kind(TokenKind::Comma)?;
            if self.at(TokenKind::RParen) {
                proof {
                    lemma_joined_nil(params_m(params@), self.cursor());
                }
                break;
            }
            let p = self.parse_param()?;
            proof {
                lemma_params_m_push(params@, p);
                lemma_joined_cons(params_m(v0), param_m(p), syntax::params_rest(old(self).toks(), self.cursor()));
            }
            params.push(p);
        }
        Ok(params)
    }

    /// `[inout|consume] [q] name : [consume|inout] type`
    pub(crate) fn parse_param(&mut self) -> (r: Result<Param, String>)
        requires
            old(self).wf(),
        ensures
            step_ok(*old(self), *final(self), r),
            gives(*old(self), *final(self), r, syntax::param(old(self).toks(), old(self).cursor()), |x: Param| param_m(x)),
        decreases old(self).toks().len() - old(self).cursor(), 56int,
    {
        let start = self.pos;
        let pre_mut = if self.eat(TokenKind::InOut) {
            Mutability::InOut
        } else if self.eat(TokenKind::Consume) {
            Mutability::Consume
        } else {
            Mutability::Immutable
        };
        let quantity = match self.parse_quantity() {
            Some(q) => q,
            None => Quantity::Many,
        };
        let name = self.ident()?;
        self.expect_kind(TokenKind::Colon)?;
        let mutability = if self.eat(TokenKind::Consume) {
            Mutability::Consume
        } else if self.eat(TokenKind::InOut) {
            Mutability::InOut
        } else {
            pre_mut
        };
        let ty = self.parse_type()?;
        Ok(Param { name, ty, quantity, mutability, span: self.span_from(start) })
    }

    /// `[ generic, ... ]`
    pub fn parse_generic_params(&mut self) -> (r: Result<Vec<GenericParam>, String>)
        requires
            old(self).wf(),
        ensures
            step_ok(*old(self), *final(self), r),
            gives(*old(self), *final(self), r, syntax::generic_params(old(self).toks(), old(self).cursor()), |x: Vec<GenericParam>| generics_m(x@)),

    {
        self.expect_kind(TokenKind::LBracket)?;
        let mut params: Vec<GenericParam> = Vec::new();
        let p = self.parse_generic_param()?;
        proof {
            lemma_generics_m_push(params@, p);
            assert(generics_m(Seq::<GenericParam>::empty()) =~= Seq::<GenM>::empty());
        }
        params.push(p);
        let ghost g0 = syntax::joined(generics_m(params@), syntax::generic_rest(old(self).toks(), self.cursor()));
        loop
            invariant
                self.wf(),
                moved(*old(self), *self),
                old(self).cursor() < self.cursor(),
                syntax::joined(generics_m(params@), syntax::generic_rest(old(self).toks(), self.cursor())) == g0,
                g0 is None ==> syntax::generic_params(old(self).toks(), old(self).cursor()) is None,
            ensures
                g0 == Some((self.cursor(), generics_m(params@))),
            decreases self.toks().len() - self.cursor(),
        {
            if self.at(TokenKind::RBracket) {
                proof {
                    lemma_joined_nil(generics_m(params@), self.cursor());
                }
                break;
            }
            let ghost v0 = params@;
            self.expect_kind(TokenKind::Comma)?;
            if self.at(TokenKind::RBracket) {
                proof {
                    lemma_joined_nil(generics_m(params@), self.cursor());
                }
                break;
            }
            let p = self.parse_generic_param()?;
            proof {
                lemma_generics_m_push(params@, p);
                lemma_joined_cons(generics_m(v0), generic_m(p), syntax::generic_rest(old(self).toks(), self.cursor()));
            }
            params.push(p);
        }
        self.expect_kind(TokenKind::RBracket)?;
        Ok(params)
    }

    /// `[q] name [: kind]`
    pub(crate) fn parse_generic_param(&mut self) -> (r: Result<GenericParam, String>)
        requires
            old(self).wf(),
        ensures
            step_ok(*old(self), *final(self), r),
            gives(*old(self), *final(self), r, syntax::generic_param(old(self).toks(), old(self).cursor()), |x: GenericParam| generic_m(x)),

    {
        let start = self.pos;
        let _qty = self.parse_quantity();
        let name = self.ident()?;
        let kind = if self.at(TokenKind::Colon) {
            self.bump();
            self.parse_generic_kind()?
        } else {
            GenericKind::Type
        };
        Ok(GenericParam { name, kind, span: self.span_from(start) })
    }

    /// `type`, `nat` or `[*]`.
    pub(crate) fn parse_generic_kind(&mut self) -> (r: Result<GenericKind, String>)
        requires
            old(self).wf(),
        ensures
            step_ok(*old(self), *final(self), r),
            gives(*old(self), *final(self), r, syntax::generic_kind(old(self).toks(), old(self).cursor()), |x: GenericKind| x),

    {
        if self.eat(TokenKind::Type) {
            Ok(GenericKind::Type)
        } else if self.eat(TokenKind::Nat) {
            Ok(GenericKind::Nat)
        } else if self.eat(TokenKind::QtyStar) {
            Ok(GenericKind::Quantity)
        } else if self.at_ident("nat") {
            self.bump();
            Ok(GenericKind::Nat)
        } else if self.at_ident("type") {
            self.bump();
            Ok(GenericKind::Type)
        } else {
            Err(self.unexpected("a generic kind (`type`, `nat`, or `[*]`)"))
        }
    }

    /// `struct name [generics] { fields }`
    pub(crate) fn parse_struct(&mut self) -> (r: Result<TypeDef, String>)
        requires
            old(self).wf(),
        ensures
            step_ok(*old(self), *final(self), r),
            r matches Ok(td) ==> td.kind is Struct,
            gives(*old(self), *final(self), r, syntax::struct_def(old(self).toks(), old(self).cursor()), |x: TypeDef| item_m(Item::TypeDef(x))),
        decreases old(self).toks().len() - old(self).cursor(), 58int,
    {
        proof {
            assert(generics_m(Seq::<GenericParam>::empty()) =~= Seq::<GenM>::empty());
        }
        let start = self.pos;
        self.expect_kind(TokenKind::Struct)?;
        let name = self.ident()?;
        let generics = if self.at(TokenKind::LBracket) {
            self.parse_generic_params()?
        } else {
            Vec::new()
        };
        self.expect_kind(TokenKind::LBrace)?;
        let fields = self.parse_fields()?;
        self.expect_kind(TokenKind::RBrace)?;
        let span = self.span_from(start);
        Ok(TypeDef { name, generics, kind: TypeDefKind::Struct(fields), span, attributes: Vec::new() })
    }

    /// `enum name [generics] { variant, ... }`
    pub(crate) fn parse_enum(&mut self) -> (r: Result<TypeDef, String>)
        requires
            old(self).wf(),
        ensures
            step_ok(*old(self), *final(self), r),
            r matches Ok(td) ==> td.kind is Enum,
            gives(*old(self), *final(self), r, syntax::enum_def(old(self).toks(), old(self).cursor()), |x: TypeDef| item_m(Item::TypeDef(x))),
        decreases old(self).toks().len() - old(self).cursor(), 58int,
    {
        proof {
            assert(generics_m(Seq::<GenericParam>::empty()) =~= Seq::<GenM>::empty());
        }
        let start = self.pos;
        self.expect_kind(TokenKind::Enum)?;
        let name = self.ident()?;
        let generics = if self.at(TokenKind::LBracket) {
            self.parse_generic_params()?
        } else {
            Vec::new()
        };
        self.expect_kind(TokenKind::LBrace)?;
        let mut variants: Vec<Variant> = Vec::new();
        proof {
            assert(variants_m(variants@) =~= Seq::<(Seq<char>, Seq<FieldM>)>::empty());
            lemma_joined_empty(syntax::variants(old(self).toks(), self.cursor()));
        }
        let ghost v0 = syntax::joined(variants_m(variants@), syntax::variants(old(self).toks(), self.cursor()));
        loop
            invariant
                self.wf(),
                moved(*old(self), *self),
                old(self).cursor() < self.cursor(),
                syntax::joined(variants_m(variants@), syntax::variants(old(self).toks(), self.cursor())) == v0,
                v0 is None ==> syntax::enum_def(old(self).toks(), old(self).cursor()) is None,
            ensures
                v0 == Some((self.cursor(), variants_m(variants@))),
            decreases self.toks().len() - self.cursor(),
        {
            if self.at(TokenKind::RBrace) {
                proof {
                    lemma_joined_nil(variants_m(variants@), self.cursor());
                }
                break;
            }
            let ghost w0 = variants@;
            let v = self.parse_variant()?;
            proof {
                lemma_variants_m_push(variants@, v);
            }
            variants.push(v);
            if self.at(TokenKind::RBrace) {
                proof {
                    lemma_joined_one(variants_m(w0), variant_m(v), self.cursor());
                    lemma_joined_nil(variants_m(variants@), self.cursor());
                }
                break;
            }
            self.expect_kind(TokenKind::Comma)?;
            proof {
                lemma_joined_cons(variants_m(w0), variant_m(v), syntax::variants(old(self).toks(), self.cursor()));
            }
        }
        self.expect_kind(TokenKind::RBrace)?;
        let span = self.span_from(start);
        Ok(TypeDef { name, generics, kind: TypeDefKind::Enum(variants), span, attributes: Vec::new() })
    }

    /// `name [( field, ... )]`
    pub(crate) fn parse_variant(&mut self) -> (r: Result<Variant, String>)
        requires
            old(self).wf(),
        ensures
            step_ok(*old(self), *final(self), r),
            gives(*old(self), *final(self), r, syntax::variant(old(self).toks(), old(self).cursor()), |x: Variant| variant_m(x)),
        decreases old(self).toks().len() - old(self).cursor(), 20int,
    {
        proof {
            assert(fields_m(Seq::<Field>::empty()) =~= Seq::<FieldM>::empty());
        }
        let start = self.pos;
        let name = self.ident()?;
        let mut fields: Vec<Field> = Vec::new();
        if self.at(TokenKind::LParen) {
            self.bump();
            proof {
                assert(fields_m(fields@) =~= Seq::<FieldM>::empty());
                lemma_joined_empty(syntax::field_list(old(self).toks(), self.cursor(), TokenKind::RParen));
            }
            let ghost f0 = syntax::joined(fields_m(fields@), syntax::field_list(old(self).toks(), self.cursor(), TokenKind::RParen));
            loop
                invariant
                    self.wf(),
                    moved(*old(self), *self),
                    old(self).cursor() < self.cursor(),
                    syntax::joined(fields_m(fields@), syntax::field_list(old(self).toks(), self.cursor(), TokenKind::RParen)) == f0,
                    f0 is None ==> syntax::variant(old(self).toks(), old(self).cursor()) is None,
                ensures
                    f0 == Some((self.cursor(), fields_m(fields@))),
                decreases self.toks().len() - self.cursor(),
            {
                if self.at(TokenKind::RParen) {
                    proof {
                        lemma_joined_nil(fields_m(fields@), self.cursor());
                    }
                    break;
                }
                let ghost w0 = fields@;
                let f = self.parse_field()?;
                proof {
                    lemma_fields_m_push(fields@, f);
                }
                fields.push(f);
                if self.at(TokenKind::RParen) {
                    proof {
                        lemma_joined_one(fields_m(w0), field_m(f), self.cursor());
                        lemma_joined_nil(fields_m(fields@), self.cursor());
                    }
                    break;
                }
                self.expect_kind(TokenKind::Comma)?;
                proof {
                    lemma_joined_cons(fields_m(w0), field_m(f), syntax::field_list(old(self).toks(), self.cursor(), TokenKind::RParen));
                }
            }
            self.expect_kind(TokenKind::RParen)?;
        }
        Ok(Variant { name, fields, span: self.span_from(start), attributes: Vec::new() })
    }

    /// Comma-separated fields up to the closing `}`, which is left.
    pub fn parse_fields(&mut self) -> (r: Result<Vec<Field>, String>)
        requires
            old(self).wf(),
        ensures
            moved(*old(self), *final(self)),
            gives(*old(self), *final(self), r, syntax::field_list(old(self).toks(), old(self).cursor(), TokenKind::RBrace), |x: Vec<Field>| fields_m(x@)),
        decreases old(self).toks().len() - old(self).cursor(), 21int,
    {
        let mut fields: Vec<Field> = Vec::new();
        proof {
            assert(fields_m(fields@) =~= Seq::<FieldM>::empty());
            lemma_joined_empty(syntax::field_list(old(self).toks(), self.cursor(), TokenKind::RBrace));
        }
        loop
            invariant
                self.wf(),
                moved(*old(self), *self),
                syntax::field_list(old(self).toks(), old(self).cursor(), TokenKind::RBrace) == syntax::joined(fields_m(fields@), syntax::field_list(old(self).toks(), self.cursor(), TokenKind::RBrace)),
            ensures
                syntax::field_list(old(self).toks(), old(self).cursor(), TokenKind::RBrace) == Some((self.cursor(), fields_m(fields@))),
            decreases self.toks().len() - self.cursor(),
        {
            if self.at(TokenKind::RBrace) {
                proof {
                    lemma_joined_nil(fields_m(fields@), self.cursor());
                }
                break;
            }
            let ghost w0 = fields@;
            let f = self.parse_field()?;
            proof {
                lemma_fields_m_push(fields@, f);
            }
            fields.push(f);
            if self.at(TokenKind::RBrace) {
                proof {
                    lemma_joined_one(fields_m(w0), field_m(f), self.cursor());
                    lemma_joined_nil(fields_m(fields@), self.cursor());
                }
                break;
            }
            self.expect_kind(TokenKind::Comma)?;
            proof {
                lemma_joined_cons(fields_m(w0), field_m(f), syntax::field_list(old(self).toks(), self.cursor(), TokenKind::RBrace));
            }
        }
        Ok(fields)
    }

    /// `[q] name : type`
    pub(crate) fn parse_field(&mut self) -> (r: Result<Field, String>)
        requires
            old(self).wf(),
        ensures
            step_ok(*old(self), *final(self), r),
            gives(*old(self), *final(self), r, syntax::field(old(self).toks(), old(self).cursor()), |x: Field| field_m(x)),
        decreases old(self).toks().len() - old(self).cursor(), 19int,
    {
        let start = self.pos;
        let quantity = match self.parse_quantity() {
            Some(q) => q,
            None => Quantity::Many,
        };
        let name = self.ident()?;
        self.expect_kind(TokenKind::Colon)?;
        let ty = self.parse_type()?;
        Ok(Field { name, ty, quantity, span: self.span_from(start), attributes: Vec::new() })
    }

    /// `type name = type [;]`
    pub(crate) fn parse_type_alias(&mut self) -> (r: Result<TypeDef, String>)
        requires
            old(self).wf(),
        ensures
            step_ok(*old(self), *final(self), r),
            r matches Ok(td) ==> td.kind is Alias,
            gives(*old(self), *final(self), r, syntax::type_alias(old(self).toks(), old(self).cursor()), |x: TypeDef| item_m(Item::TypeDef(x))),
        decreases old(self).toks().len() - old(self).cursor(), 58int,
    {
        let start = self.pos;
        self.expect_kind(TokenKind::Type)?;
        let name = self.ident()?;
        self.expect_kind(TokenKind::Assign)?;
        let ty = self.parse_type()?;
        self.eat(TokenKind::Semicolon);
        let span = self.span_from(start);
        Ok(TypeDef { name, generics: Vec::new(), kind: TypeDefKind::Alias(ty), span, attributes: Vec::new() })
    }

    /// `const name [: type] = expr [;]`
    pub(crate) fn parse_const(&mut self) -> (r: Result<ConstDef, String>)
        requires
            old(self).wf(),
        ensures
            step_ok(*old(self), *final(self), r),
            gives(*old(self), *final(self), r, syntax::const_def(old(self).toks(), old(self).cursor()), |x: ConstDef| item_m(Item::Const(x))),
        decreases old(self).toks().len() - old(self).cursor(), 58int,
    {
        let start = self.pos;
        self.expect_kind(TokenKind::Const)?;
        let name = self.ident()?;
        let ty = if self.at(TokenKind::Colon) {
            self.bump();
            Some(self.parse_type()?)
        } else {
            None
        };
        self.expect_kind(TokenKind::Assign)?;
        let value = self.parse_expr()?;
        self.eat(TokenKind::Semicolon);
        let span = self.span_from(start);
        Ok(ConstDef { name, ty, value, span })
    }

    /// `import name . name ... [{ name, ... }] [;]`
    pub(crate) fn parse_import(&mut self) -> (r: Result<Import, String>)
        requires
            old(self).wf(),
        ensures
            step_ok(*old(self), *final(self), r),
            gives(*old(self), *final(self), r, syntax::import(old(self).toks(), old(self).cursor()), |x: Import| item_m(Item::Import(x))),

    {
        let start = self.pos;
        self.expect_kind(TokenKind::Import)?;
        let first = self.ident()?;
        let mut path: Vec<Ident> = Vec::new();
        proof {
            lemma_names_m_push(path@, first);
            assert(names_m(Seq::<Ident>::empty()) =~= Seq::<Seq<char>>::empty());
        }
        path.push(first);
        let ghost p0 = syntax::joined(names_m(path@), syntax::import_path(old(self).toks(), self.cursor()));
        while self.eat(TokenKind::Dot)
            invariant
                self.wf(),
                moved(*old(self), *self),
                old(self).cursor() < self.cursor(),
                syntax::joined(names_m(path@), syntax::import_path(old(self).toks(), self.cursor())) == p0,
                p0 is None ==> syntax::import(old(self).toks(), old(self).cursor()) is None,
            decreases self.toks().len() - self.cursor(),
        {
            let ghost w0 = path@;
            let id = self.ident()?;
            proof {
                lemma_names_m_push(path@, id);
                lemma_joined_cons(names_m(w0), id.name@, syntax::import_path(old(self).toks(), self.cursor()));
            }
            path.push(id);
        }
        proof {
            lemma_joined_nil(names_m(path@), self.cursor());
        }
        let items = if self.at(TokenKind::LBrace) {
            self.bump();
            let mut list: Vec<Ident> = Vec::new();
            proof {
                assert(names_m(list@) =~= Seq::<Seq<char>>::empty());
                lemma_joined_empty(syntax::import_names(old(self).toks(), self.cursor()));
            }
            let ghost n0 = syntax::joined(names_m(list@), syntax::import_names(old(self).toks(), self.cursor()));
            loop
                invariant
                    self.wf(),
                    moved(*old(self), *self),
                    old(self).cursor() < self.cursor(),
                    syntax::joined(names_m(list@), syntax::import_names(old(self).toks(), self.cursor())) == n0,
                    n0 is None ==> syntax::import(old(self).toks(), old(self).cursor()) is None,
                ensures
                    n0 == Some((self.cursor(), names_m(list@))),
                decreases self.toks().len() - self.cursor(),
            {
                if self.at(TokenKind::RBrace) {
                    proof {
                        lemma_joined_nil(names_m(list@), self.cursor());
                    }
                    break;
                }
                let ghost w0 = list@;
                let id = self.ident()?;
                proof {
                    lemma_names_m_push(list@, id);
                }
                list.push(id);
                if self.at(TokenKind::RBrace) {
                    proof {
                        lemma_joined_one(names_m(w0), id.name@, self.cursor());
                        lemma_joined_nil(names_m(list@), self.cursor());
                    }
                    break;
                }
                self.expect_kind(TokenKind::Comma)?;
                proof {
                    lemma_joined_cons(names_m(w0), id.name@, syntax::import_names(old(self).toks(), self.cursor()));
                }
            }
            self.expect_kind(TokenKind::RBrace)?;
            ImportItems::Specific(list)
        } else {
            ImportItems::All
        };
        self.eat(TokenKind::Semicolon);
        Ok(Import { path, items, span: self.span_from(start) })
    }

    /// `mod name { items }` or `mod name [;]`
    pub(crate) fn parse_module(&mut self) -> (r: Result<Module, String>)
        requires
            old(self).wf(),
        ensures
            step_ok(*old(self), *final(self), r),
            gives(*old(self), *final(self), r, syntax::module(old(self).toks(), old(self).cursor()), |x: Module| item_m(Item::Module(x))),
        decreases old(self).toks().len() - old(self).cursor(), 58int,
    {
        proof {
            assert(items_m(Seq::<Item>::empty()) =~= Seq::<ItemM>::empty());
        }
        let start = self.pos;
        self.expect_kind(TokenKind::Mod)?;
        let name = self.ident()?;
        let mut items: Vec<Item> = Vec::new();
        if self.at(TokenKind::LBrace) {
            self.bump();
            proof {
                assert(items_m(items@) =~= Seq::<ItemM>::empty());
                lemma_joined_empty(syntax::module_items(old(self).toks(), self.cursor()));
            }
            let ghost m0 = syntax::joined(items_m(items@), syntax::module_items(old(self).toks(), self.cursor()));
            while !self.is_eof() && !self.at(TokenKind::RBrace)
                invariant
                    self.wf(),
                    moved(*old(self), *self),
                    old(self).cursor() < self.cursor(),
                    syntax::joined(items_m(items@), syntax::module_items(old(self).toks(), self.cursor())) == m0,
                    m0 is None ==> syntax::module(old(self).toks(), old(self).cursor()) is None,
                decreases self.toks().len() - self.cursor(),
            {
                let ghost w0 = items@;
                let item = self.parse_item()?;
                proof {
                    lemma_items_m_push(items@, item);
                    lemma_joined_cons(items_m(w0), item_m(item), syntax::module_items(old(self).toks(), self.cursor()));
                }
                items.push(item);
            }
            proof {
                lemma_joined_nil(items_m(items@), self.cursor());
            }
            self.expect_kind(TokenKind::RBrace)?;
        } else {
            self.eat(TokenKind::Semicolon);
        }
        Ok(Module { name, items, span: self.span_from(start) })
    }
}

/// The span from the first token to the last, or the default span when
/// there are none.
pub open spec fn tokens_span(tokens: Seq<Token>) -> Span {
    if tokens.len() > 0 {
        Span {
            start: tokens[0].span.start as u32,
            end: tokens[tokens.len() - 1].span.end as u32,
            line: tokens[0].span.line,
            column: tokens[0].span.column,
        }
    } else {
        Span { start: 0, end: 0, line: 1, column: 1 }
    }
}

/// Parses a token stream, from which comments and newlines are filtered
/// out, into a program spanning from its first token to its last; no tokens
/// make an empty program.
pub fn parse_program_tokens(tokens: &[Token]) -> (r: Result<Program, String>)
    ensures
        r matches Ok(p) ==> p.span == tokens_span(tokens@),
        tokens@.len() == 0 ==> (r matches Ok(p) && p.items@.len() == 0),
        tokens@.len() > 0 ==> {
            &&& r matches Ok(p) ==> p.items@.len() > 0 && item_starts(tokens@[0].kind, p.items@[0])
            &&& !item_keyword(tokens@[0].kind) ==> r is Err
        },
        r matches Ok(p) ==> exists|starts: Seq<int>| items_at(tokens@, p.items@, starts, 0, tokens@.len() as int),
        r is Ok <==> syntax::program_items(tokens@, 0) is Some,
        r matches Ok(p) ==> syntax::program_items(tokens@, 0) == Some(items_m(p.items@)),
{
    let span = if tokens.len() > 0 {
        span_from_tokens(&tokens[0], &tokens[tokens.len() - 1])
    } else {
        Span::new(0, 0, 1, 1)
    };
    let mut parser = Parser::new(tokens);
    let items = parser.parse_program_items()?;
    Ok(Program::new(items, span))
}

/// The tokens other than newlines and comments, in order.
pub open spec fn grammar_tokens(ts: Seq<Token>) -> Seq<Token>
    decreases ts.len(),
{
    if ts.len() == 0 {
        Seq::empty()
    } else if trivia(ts.last().kind) {
        grammar_tokens(ts.drop_last())
    } else {
        grammar_tokens(ts.drop_last()).push(ts.last())
    }
}

/// Lexes a source text and parses its tokens other than newlines and
/// comments into a program; an empty source is an empty program.
pub fn parse_program(source: &str) -> (r: Result<Program, String>)
    requires
        vstd::utf8::encode_utf8(source@).len() <= usize::MAX,
    ensures
        source@.len() == 0 ==> (r matches Ok(p) && p.items@.len() == 0),
        exists|ts: Seq<Token>| lexes_to(source@, ts) && (r is Ok <==> syntax::program_items(grammar_tokens(ts), 0) is Some)
            && (r matches Ok(p) ==> syntax::program_items(grammar_tokens(ts), 0) == Some(items_m(p.items@))
                && p.span == tokens_span(grammar_tokens(ts))),
{
    let all = Lexer::lex(source);
    let mut tokens: Vec<Token> = Vec::new();
    let mut k: usize = 0;
    while k < all.len()
        invariant
            k <= all@.len(),
            tokens@ == grammar_tokens(all@.subrange(0, k as int)),
        decreases all@.len() - k,
    {
        proof {
            assert(all@.subrange(0, k + 1).drop_last() =~= all@.subrange(0, k as int));
        }
        if !is_trivia(&all[k].kind) {
            tokens.push(all[k].clone());
        }
        k = k + 1;
    }
    proof {
        if source@.len() == 0 {
            assert(lex_extents(source@, 0) =~= Seq::<(int, int)>::empty());
            assert(all@.subrange(0, k as int) =~= Seq::<Token>::empty());
        }
        assert(all@.subrange(0, k as int) =~= all@);
    }
    let r = parse_program_tokens(tokens.as_slice());
    assert(lexes_to(source@, all@) && (r is Ok <==> syntax::program_items(grammar_tokens(all@), 0) is Some)
        && (r matches Ok(p) ==> syntax::program_items(grammar_tokens(all@), 0) == Some(items_m(p.items@))
            && p.span == tokens_span(grammar_tokens(all@))));
    r
}

} // verus!
