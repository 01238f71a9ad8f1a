//! The grammar of Naso as functions on token sequences. Each one gives, for
//! the position of a construct's first token, the position just after the
//! construct together with the syntax tree read there (as a value: see
//! `ast::model`), or `None` where the tokens there do not form it.

use vstd::prelude::*;
use crate::ast::model::{
    nat_m, spread_m, ArgM, BlockM, ExprM, GateM, GenM, ItemM, LitM, NatM, ParamM, FieldM, PatM, StmtM, TyKindM,
    TyM,
};
use crate::ast::ops::UnOp;
use crate::ast::ty::numeral;
use crate::ast::{GenericKind, Mutability, Quantity};
use crate::lexer::token::{same_kind, Token, TokenKind};
use crate::parser::expr::{binary_op_of, precedence};
use crate::parser::quantity_at;

verus! {

/// The token at `c` is of kind `k`.
pub open spec fn tok_is(t: Seq<Token>, c: int, k: TokenKind) -> bool {
    0 <= c < t.len() && same_kind(t[c].kind, k)
}

/// An identifier or a type name stands at `c`.
pub open spec fn ident_at(t: Seq<Token>, c: int) -> bool {
    0 <= c < t.len() && (t[c].kind is Ident || t[c].kind is TypeIdent)
}

/// The name of the identifier or type name at `c`.
pub open spec fn name_at(t: Seq<Token>, c: int) -> Seq<char> {
    match t[c].kind {
        TokenKind::Ident(s) => s@,
        TokenKind::TypeIdent(s) => s@,
        _ => Seq::empty(),
    }
}

/// The identifier `w` stands at `c`.
pub open spec fn word_at(t: Seq<Token>, c: int, w: Seq<char>) -> bool {
    0 <= c < t.len() && (t[c].kind matches TokenKind::Ident(s) && s@ == w)
}

/// A literal token stands at `c`.
pub open spec fn literal_at(t: Seq<Token>, c: int) -> bool {
    0 <= c < t.len() && (t[c].kind is Int || t[c].kind is Float || t[c].kind is Bool || t[c].kind is Str
        || t[c].kind is Char)
}

/// The literal of the literal token at `c`.
pub open spec fn lit_at(t: Seq<Token>, c: int) -> LitM {
    match t[c].kind {
        TokenKind::Int(n) => LitM::Int(n),
        TokenKind::Float(f) => LitM::Float(f@),
        TokenKind::Bool(b) => LitM::Bool(b),
        TokenKind::Str(s) => LitM::Str(s@),
        TokenKind::Char(ch) => LitM::Char(ch),
        _ => LitM::Unit,
    }
}

/// The position after an optional quantity marker at `c`.
pub open spec fn after_quantity(t: Seq<Token>, c: int) -> int {
    match quantity_at(t, c) {
        Some((_, e)) => e,
        None => c,
    }
}

/// The quantity of an optional marker at `c`; many when there is none.
pub open spec fn quantity_or_many(t: Seq<Token>, c: int) -> Quantity {
    match quantity_at(t, c) {
        Some((q, _)) => q,
        None => Quantity::Many,
    }
}

/// The position after an optional token of kind `k` at `c`.
pub open spec fn eat_at(t: Seq<Token>, c: int, k: TokenKind) -> int {
    if tok_is(t, c, k) {
        c + 1
    } else {
        c
    }
}

/// A result whose position lies past `c` and within the tokens.
pub open spec fn past<M>(t: Seq<Token>, c: int, r: Option<(int, M)>) -> Option<(int, M)> {
    match r {
        Some((e, m)) => if c < e <= t.len() {
            Some((e, m))
        } else {
            None
        },
        None => None,
    }
}

/// The list `xs` in front of the list of a result.
pub open spec fn joined<M>(xs: Seq<M>, r: Option<(int, Seq<M>)>) -> Option<(int, Seq<M>)> {
    match r {
        Some((e, ys)) => Some((e, xs + ys)),
        None => None,
    }
}

/// The statements `xs` in front of a statement list.
pub open spec fn stmts_joined(xs: Seq<StmtM>, r: Option<(int, Seq<StmtM>, Option<ExprM>)>) -> Option<(int, Seq<StmtM>, Option<ExprM>)> {
    match r {
        Some((e, ys, tail)) => Some((e, xs + ys, tail)),
        None => None,
    }
}

/// The end position of a list result.
pub open spec fn list_end<M>(r: Option<(int, Seq<M>)>) -> Option<int> {
    match r {
        Some((e, _)) => Some(e),
        None => None,
    }
}

/// A list after `a` starting with `x` is a list after `a` and `x`.
pub broadcast proof fn lemma_joined_cons<M>(a: Seq<M>, x: M, r: Option<(int, Seq<M>)>)
    ensures
        #[trigger] joined(a, cons(x, r)) == joined(a.push(x), r),
{
    if let Some((e, ys)) = r {
        assert(a + (seq![x] + ys) =~= a.push(x) + ys);
    }
}

/// Nothing in front of a list leaves it.
pub proof fn lemma_joined_empty<M>(r: Option<(int, Seq<M>)>)
    ensures
        joined(Seq::<M>::empty(), r) == r,
{
    if let Some((e, ys)) = r {
        assert(Seq::<M>::empty() + ys =~= ys);
    }
}

/// Nothing after `a` leaves `a`.
pub broadcast proof fn lemma_joined_nil<M>(a: Seq<M>, e: int)
    ensures
        #[trigger] joined(a, Some((e, Seq::<M>::empty()))) == Some((e, a)),
{
    assert(a + Seq::<M>::empty() =~= a);
}

/// One element after `a`.
pub broadcast proof fn lemma_joined_one<M>(a: Seq<M>, x: M, e: int)
    ensures
        #[trigger] joined(a, Some((e, seq![x]))) == Some((e, a.push(x))),
{
    assert(a + seq![x] =~= a.push(x));
}

/// A statement list after `a` starting with `x` is a list after `a` and `x`.
pub broadcast proof fn lemma_stmts_joined_cons(a: Seq<StmtM>, x: StmtM, r: Option<(int, Seq<StmtM>, Option<ExprM>)>)
    ensures
        #[trigger] stmts_joined(a, stmt_cons(x, r)) == stmts_joined(a.push(x), r),
{
    if let Some((e, ys, tail)) = r {
        assert(a + (seq![x] + ys) =~= a.push(x) + ys);
    }
}

/// An empty statement list after `a` leaves `a`.
pub broadcast proof fn lemma_stmts_joined_nil(a: Seq<StmtM>, e: int, tail: Option<ExprM>)
    ensures
        #[trigger] stmts_joined(a, Some((e, Seq::<StmtM>::empty(), tail))) == Some((e, a, tail)),
{
    assert(a + Seq::<StmtM>::empty() =~= a);
}

pub broadcast group group_joined {
    lemma_joined_cons,
    lemma_joined_nil,
    lemma_joined_one,
    lemma_stmts_joined_cons,
    lemma_stmts_joined_nil,
}

/// `x` in front of the list of a result.
pub open spec fn cons<M>(x: M, r: Option<(int, Seq<M>)>) -> Option<(int, Seq<M>)> {
    match r {
        Some((e, xs)) => Some((e, seq![x] + xs)),
        None => None,
    }
}

// ===== Items =====

/// Items up to the end of the tokens.
pub open spec fn program_items(t: Seq<Token>, c: int) -> Option<Seq<ItemM>>
    decreases t.len() - c, 60int,
{
    if !(0 <= c <= t.len()) {
        None
    } else if c == t.len() {
        Some(Seq::empty())
    } else {
        match past(t, c, item(t, c)) {
            Some((c1, it)) => match program_items(t, c1) {
                Some(rest) => Some(seq![it] + rest),
                None => None,
            },
            None => None,
        }
    }
}

/// One item, chosen by its first token.
pub open spec fn item(t: Seq<Token>, c: int) -> Option<(int, ItemM)>
    decreases t.len() - c, 59int,
{
    if !(0 <= c < t.len()) {
        None
    } else {
        match t[c].kind {
            TokenKind::Fn => fn_def(t, c),
            TokenKind::Struct => struct_def(t, c),
            TokenKind::Enum => enum_def(t, c),
            TokenKind::Type => type_alias(t, c),
            TokenKind::Const => const_def(t, c),
            TokenKind::Import => import(t, c),
            TokenKind::Mod => module(t, c),
            _ => None,
        }
    }
}

/// Optional generic parameters at `c`: `[ ... ]` when a `[` stands there.
pub open spec fn opt_generics(t: Seq<Token>, c: int) -> Option<(int, Seq<GenM>)> {
    if tok_is(t, c, TokenKind::LBracket) {
        generic_params(t, c)
    } else {
        Some((c, Seq::empty()))
    }
}

/// `fn [q] name [generics] ( [params] ) [-> type] block`
pub open spec fn fn_def(t: Seq<Token>, c: int) -> Option<(int, ItemM)>
    decreases t.len() - c, 58int,
{
    let n = after_quantity(t, c + 1);
    if !tok_is(t, c, TokenKind::Fn) || !ident_at(t, n) {
        None
    } else {
        match past(t, c, opt_generics(t, n + 1)) {
            None => None,
            Some((c2, gens)) => if !tok_is(t, c2, TokenKind::LParen) {
                None
            } else {
                let p = if tok_is(t, c2 + 1, TokenKind::RParen) {
                    Some((c2 + 1, Seq::<ParamM>::empty()))
                } else {
                    params(t, c2 + 1)
                };
                match past(t, c, p) {
                    None => None,
                    Some((c3, ps)) => if !tok_is(t, c3, TokenKind::RParen) {
                        None
                    } else {
                        let r = if tok_is(t, c3 + 1, TokenKind::Arrow) {
                            match ty(t, c3 + 2) {
                                Some((e, m)) => Some((e, Some(m))),
                                None => None,
                            }
                        } else {
                            Some((c3 + 1, None))
                        };
                        match past(t, c, r) {
                            None => None,
                            Some((c4, ret)) => match block(t, c4) {
                                Some((c5, b)) => Some(
                                    (c5, ItemM::Function(name_at(t, n), gens, ps, ret, b, quantity_or_many(t, c + 1))),
                                ),
                                None => None,
                            },
                        }
                    },
                }
            },
        }
    }
}

/// Parameters separated by commas, a trailing comma allowed, up to `)`.
pub open spec fn params(t: Seq<Token>, c: int) -> Option<(int, Seq<ParamM>)>
    decreases t.len() - c, 57int,
{
    match past(t, c, param(t, c)) {
        Some((c1, p)) => cons(p, params_rest(t, c1)),
        None => None,
    }
}

/// The parameters after the first, up to `)`.
pub open spec fn params_rest(t: Seq<Token>, c: int) -> Option<(int, Seq<ParamM>)>
    decreases t.len() - c, 57int,
{
    if !(0 <= c <= t.len()) {
        None
    } else if tok_is(t, c, TokenKind::RParen) {
        Some((c, Seq::empty()))
    } else if !tok_is(t, c, TokenKind::Comma) {
        None
    } else if tok_is(t, c + 1, TokenKind::RParen) {
        Some((c + 1, Seq::empty()))
    } else {
        match past(t, c, param(t, c + 1)) {
            Some((c2, p)) => cons(p, params_rest(t, c2)),
            None => None,
        }
    }
}

/// `[inout|consume] [q] name : [consume|inout] type`: a mode after the
/// colon wins over one before the name.
pub open spec fn param(t: Seq<Token>, c: int) -> Option<(int, ParamM)>
    decreases t.len() - c, 56int,
{
    let pre = if tok_is(t, c, TokenKind::InOut) {
        Mutability::InOut
    } else if tok_is(t, c, TokenKind::Consume) {
        Mutability::Consume
    } else {
        Mutability::Immutable
    };
    let c1 = if tok_is(t, c, TokenKind::InOut) || tok_is(t, c, TokenKind::Consume) {
        c + 1
    } else {
        c
    };
    let n = after_quantity(t, c1);
    if !(0 <= c) || !ident_at(t, n) || !tok_is(t, n + 1, TokenKind::Colon) {
        None
    } else {
        let m = if tok_is(t, n + 2, TokenKind::Consume) {
            Mutability::Consume
        } else if tok_is(t, n + 2, TokenKind::InOut) {
            Mutability::InOut
        } else {
            pre
        };
        let c2 = if tok_is(t, n + 2, TokenKind::Consume) || tok_is(t, n + 2, TokenKind::InOut) {
            n + 3
        } else {
            n + 2
        };
        match ty(t, c2) {
            Some((e, tm)) => Some((e, (name_at(t, n), tm, quantity_or_many(t, c1), m))),
            None => None,
        }
    }
}

/// `[ generic, ... ]` with a trailing comma allowed.
pub open spec fn generic_params(t: Seq<Token>, c: int) -> Option<(int, Seq<GenM>)> {
    if !tok_is(t, c, TokenKind::LBracket) {
        None
    } else {
        match past(t, c + 1, generic_param(t, c + 1)) {
            None => None,
            Some((c1, g)) => match cons(g, generic_rest(t, c1)) {
                Some((c2, gs)) => if tok_is(t, c2, TokenKind::RBracket) {
                    Some((c2 + 1, gs))
                } else {
                    None
                },
                None => None,
            },
        }
    }
}

/// The generic parameters after the first, up to `]`.
pub open spec fn generic_rest(t: Seq<Token>, c: int) -> Option<(int, Seq<GenM>)>
    decreases t.len() - c,
{
    if !(0 <= c <= t.len()) {
        None
    } else if tok_is(t, c, TokenKind::RBracket) {
        Some((c, Seq::empty()))
    } else if !tok_is(t, c, TokenKind::Comma) {
        None
    } else if tok_is(t, c + 1, TokenKind::RBracket) {
        Some((c + 1, Seq::empty()))
    } else {
        match past(t, c, generic_param(t, c + 1)) {
            Some((c2, g)) => cons(g, generic_rest(t, c2)),
            None => None,
        }
    }
}

/// `[q] name [: kind]`; the kind is a type when not given.
pub open spec fn generic_param(t: Seq<Token>, c: int) -> Option<(int, GenM)> {
    let n = after_quantity(t, c);
    if !ident_at(t, n) {
        None
    } else if tok_is(t, n + 1, TokenKind::Colon) {
        match generic_kind(t, n + 2) {
            Some((e, k)) => Some((e, (name_at(t, n), k))),
            None => None,
        }
    } else {
        Some((n + 1, (name_at(t, n), GenericKind::Type)))
    }
}

/// `type`, `nat`, `[*]`, or the identifiers `nat` and `type`.
pub open spec fn generic_kind(t: Seq<Token>, c: int) -> Option<(int, GenericKind)> {
    if tok_is(t, c, TokenKind::Type) {
        Some((c + 1, GenericKind::Type))
    } else if tok_is(t, c, TokenKind::Nat) {
        Some((c + 1, GenericKind::Nat))
    } else if tok_is(t, c, TokenKind::QtyStar) {
        Some((c + 1, GenericKind::Quantity))
    } else if word_at(t, c, "nat"@) {
        Some((c + 1, GenericKind::Nat))
    } else if word_at(t, c, "type"@) {
        Some((c + 1, GenericKind::Type))
    } else {
        None
    }
}

/// `struct name [generics] { fields }`
pub open spec fn struct_def(t: Seq<Token>, c: int) -> Option<(int, ItemM)>
    decreases t.len() - c, 58int,
{
    if !tok_is(t, c, TokenKind::Struct) || !ident_at(t, c + 1) {
        None
    } else {
        match past(t, c, opt_generics(t, c + 2)) {
            None => None,
            Some((c2, gens)) => if !tok_is(t, c2, TokenKind::LBrace) {
                None
            } else {
                match past(t, c, field_list(t, c2 + 1, TokenKind::RBrace)) {
                    Some((c3, fs)) => if tok_is(t, c3, TokenKind::RBrace) {
                        Some((c3 + 1, ItemM::Struct(name_at(t, c + 1), gens, fs)))
                    } else {
                        None
                    },
                    None => None,
                }
            },
        }
    }
}

/// Fields separated by commas, a trailing comma allowed, up to `closer`,
/// which is not consumed.
pub open spec fn field_list(t: Seq<Token>, c: int, closer: TokenKind) -> Option<(int, Seq<FieldM>)>
    decreases t.len() - c, 21int,
{
    if !(0 <= c <= t.len()) {
        None
    } else if tok_is(t, c, closer) {
        Some((c, Seq::empty()))
    } else {
        match past(t, c, field(t, c)) {
            None => None,
            Some((c1, f)) => if tok_is(t, c1, closer) {
                Some((c1, seq![f]))
            } else if !tok_is(t, c1, TokenKind::Comma) {
                None
            } else {
                cons(f, field_list(t, c1 + 1, closer))
            },
        }
    }
}

/// `[q] name : type`
pub open spec fn field(t: Seq<Token>, c: int) -> Option<(int, FieldM)>
    decreases t.len() - c, 19int,
{
    let n = after_quantity(t, c);
    if !(0 <= c) || !ident_at(t, n) || !tok_is(t, n + 1, TokenKind::Colon) {
        None
    } else {
        match ty(t, n + 2) {
            Some((e, tm)) => Some((e, (name_at(t, n), tm, quantity_or_many(t, c)))),
            None => None,
        }
    }
}

/// `enum name [generics] { variant, ... }`
pub open spec fn enum_def(t: Seq<Token>, c: int) -> Option<(int, ItemM)>
    decreases t.len() - c, 58int,
{
    if !tok_is(t, c, TokenKind::Enum) || !ident_at(t, c + 1) {
        None
    } else {
        match past(t, c, opt_generics(t, c + 2)) {
            None => None,
            Some((c2, gens)) => if !tok_is(t, c2, TokenKind::LBrace) {
                None
            } else {
                match past(t, c, variants(t, c2 + 1)) {
                    Some((c3, vs)) => if tok_is(t, c3, TokenKind::RBrace) {
                        Some((c3 + 1, ItemM::Enum(name_at(t, c + 1), gens, vs)))
                    } else {
                        None
                    },
                    None => None,
                }
            },
        }
    }
}

/// Variants separated by commas, a trailing comma allowed, up to `}`.
pub open spec fn variants(t: Seq<Token>, c: int) -> Option<(int, Seq<(Seq<char>, Seq<FieldM>)>)>
    decreases t.len() - c, 22int,
{
    if !(0 <= c <= t.len()) {
        None
    } else if tok_is(t, c, TokenKind::RBrace) {
        Some((c, Seq::empty()))
    } else {
        match past(t, c, variant(t, c)) {
            None => None,
            Some((c1, v)) => if tok_is(t, c1, TokenKind::RBrace) {
                Some((c1, seq![v]))
            } else if !tok_is(t, c1, TokenKind::Comma) {
                None
            } else {
                cons(v, variants(t, c1 + 1))
            },
        }
    }
}

/// `name [( field, ... )]`
pub open spec fn variant(t: Seq<Token>, c: int) -> Option<(int, (Seq<char>, Seq<FieldM>))>
    decreases t.len() - c, 20int,
{
    if !ident_at(t, c) {
        None
    } else if !tok_is(t, c + 1, TokenKind::LParen) {
        Some((c + 1, (name_at(t, c), Seq::empty())))
    } else {
        match past(t, c, field_list(t, c + 2, TokenKind::RParen)) {
            Some((c2, fs)) => if tok_is(t, c2, TokenKind::RParen) {
                Some((c2 + 1, (name_at(t, c), fs)))
            } else {
                None
            },
            None => None,
        }
    }
}

/// `type name = type [;]`
pub open spec fn type_alias(t: Seq<Token>, c: int) -> Option<(int, ItemM)>
    decreases t.len() - c, 58int,
{
    if !tok_is(t, c, TokenKind::Type) || !ident_at(t, c + 1) || !tok_is(t, c + 2, TokenKind::Assign) {
        None
    } else {
        match past(t, c, ty(t, c + 3)) {
            Some((c1, tm)) => Some((eat_at(t, c1, TokenKind::Semicolon), ItemM::Alias(name_at(t, c + 1), tm))),
            None => None,
        }
    }
}

/// `const name [: type] = expr [;]`
pub open spec fn const_def(t: Seq<Token>, c: int) -> Option<(int, ItemM)>
    decreases t.len() - c, 58int,
{
    if !tok_is(t, c, TokenKind::Const) || !ident_at(t, c + 1) {
        None
    } else {
        let a = if tok_is(t, c + 2, TokenKind::Colon) {
            match ty(t, c + 3) {
                Some((e, tm)) => Some((e, Some(tm))),
                None => None,
            }
        } else {
            Some((c + 2, None))
        };
        match past(t, c, a) {
            None => None,
            Some((c1, ann)) => if !tok_is(t, c1, TokenKind::Assign) {
                None
            } else {
                match past(t, c, expr(t, c1 + 1)) {
                    Some((c2, v)) => Some(
                        (eat_at(t, c2, TokenKind::Semicolon), ItemM::Const(name_at(t, c + 1), ann, v)),
                    ),
                    None => None,
                }
            },
        }
    }
}

/// `import name . name ... [{ name, ... }] [;]`
pub open spec fn import(t: Seq<Token>, c: int) -> Option<(int, ItemM)> {
    if !tok_is(t, c, TokenKind::Import) || !ident_at(t, c + 1) {
        None
    } else {
        match import_path(t, c + 2) {
            None => None,
            Some((c1, path)) => {
                let full = seq![name_at(t, c + 1)] + path;
                if tok_is(t, c1, TokenKind::LBrace) {
                    match import_names(t, c1 + 1) {
                        Some((c2, names)) => if tok_is(t, c2, TokenKind::RBrace) {
                            Some((eat_at(t, c2 + 1, TokenKind::Semicolon), ItemM::Import(full, Some(names))))
                        } else {
                            None
                        },
                        None => None,
                    }
                } else {
                    Some((eat_at(t, c1, TokenKind::Semicolon), ItemM::Import(full, None)))
                }
            },
        }
    }
}

/// `. name` repeated.
pub open spec fn import_path(t: Seq<Token>, c: int) -> Option<(int, Seq<Seq<char>>)>
    decreases t.len() - c,
{
    if !(0 <= c <= t.len()) {
        None
    } else if !tok_is(t, c, TokenKind::Dot) {
        Some((c, Seq::empty()))
    } else if !ident_at(t, c + 1) {
        None
    } else {
        cons(name_at(t, c + 1), import_path(t, c + 2))
    }
}

/// Names separated by commas, a trailing comma allowed, up to `}`.
pub open spec fn import_names(t: Seq<Token>, c: int) -> Option<(int, Seq<Seq<char>>)>
    decreases t.len() - c,
{
    if !(0 <= c <= t.len()) {
        None
    } else if tok_is(t, c, TokenKind::RBrace) {
        Some((c, Seq::empty()))
    } else if !ident_at(t, c) {
        None
    } else if tok_is(t, c + 1, TokenKind::RBrace) {
        Some((c + 1, seq![name_at(t, c)]))
    } else if !tok_is(t, c + 1, TokenKind::Comma) {
        None
    } else {
        cons(name_at(t, c), import_names(t, c + 2))
    }
}

/// `mod name { items }` or `mod name [;]`
pub open spec fn module(t: Seq<Token>, c: int) -> Option<(int, ItemM)>
    decreases t.len() - c, 58int,
{
    if !tok_is(t, c, TokenKind::Mod) || !ident_at(t, c + 1) {
        None
    } else if !tok_is(t, c + 2, TokenKind::LBrace) {
        Some((eat_at(t, c + 2, TokenKind::Semicolon), ItemM::Module(name_at(t, c + 1), Seq::empty())))
    } else {
        match past(t, c, module_items(t, c + 3)) {
            Some((c1, its)) => if tok_is(t, c1, TokenKind::RBrace) {
                Some((c1 + 1, ItemM::Module(name_at(t, c + 1), its)))
            } else {
                None
            },
            None => None,
        }
    }
}

/// Items up to `}` or the end of the tokens.
pub open spec fn module_items(t: Seq<Token>, c: int) -> Option<(int, Seq<ItemM>)>
    decreases t.len() - c, 60int,
{
    if !(0 <= c <= t.len()) {
        None
    } else if c == t.len() || tok_is(t, c, TokenKind::RBrace) {
        Some((c, Seq::empty()))
    } else {
        match past(t, c, item(t, c)) {
            Some((c1, it)) => cons(it, module_items(t, c1)),
            None => None,
        }
    }
}

// ===== Types =====

/// A type: an optional quantity marker (many when absent), a base type, and
/// type arguments after a named type.
pub open spec fn ty(t: Seq<Token>, c: int) -> Option<(int, TyM)>
    decreases t.len() - c, 40int,
{
    if !(0 <= c <= t.len()) {
        None
    } else {
        let q = quantity_or_many(t, c);
        match base_type(t, after_quantity(t, c)) {
            None => None,
            Some((c2, k)) => if k is Named && tok_is(t, c2, TokenKind::LBracket) && c < c2 <= t.len() {
                match type_args(t, c2) {
                    Some((c3, args)) => Some((c3, TyM { kind: TyKindM::Named(k->Named_0, args), quantity: q })),
                    None => None,
                }
            } else {
                Some((c2, TyM { kind: k, quantity: q }))
            },
        }
    }
}

/// `[ arg, ... ]`, a trailing comma allowed.
pub open spec fn type_args(t: Seq<Token>, c: int) -> Option<(int, Seq<ArgM>)>
    decreases t.len() - c, 10int,
{
    if !tok_is(t, c, TokenKind::LBracket) {
        None
    } else {
        match type_arg_list(t, c + 1) {
            Some((c1, args)) => if tok_is(t, c1, TokenKind::RBracket) {
                Some((c1 + 1, args))
            } else {
                None
            },
            None => None,
        }
    }
}

/// Type arguments separated by commas up to `]`.
pub open spec fn type_arg_list(t: Seq<Token>, c: int) -> Option<(int, Seq<ArgM>)>
    decreases t.len() - c, 42int,
{
    if !(0 <= c <= t.len()) {
        None
    } else if tok_is(t, c, TokenKind::RBracket) {
        Some((c, Seq::empty()))
    } else {
        match past(t, c, type_arg(t, c)) {
            None => None,
            Some((c1, a)) => if tok_is(t, c1, TokenKind::RBracket) {
                Some((c1, seq![a]))
            } else if !tok_is(t, c1, TokenKind::Comma) {
                None
            } else {
                cons(a, type_arg_list(t, c1 + 1))
            },
        }
    }
}

/// The natural number of an integer literal, as a numeral.
pub open spec fn nat_of_int(n: i64) -> NatM {
    nat_m(numeral((n as u64) as nat))
}

/// An integer literal as a natural number, or a type.
pub open spec fn type_arg(t: Seq<Token>, c: int) -> Option<(int, ArgM)>
    decreases t.len() - c, 41int,
{
    if 0 <= c < t.len() && t[c].kind is Int {
        Some((c + 1, ArgM::Nat(nat_of_int(t[c].kind->Int_0))))
    } else {
        match ty(t, c) {
            Some((e, tm)) => Some((e, ArgM::Ty(tm))),
            None => None,
        }
    }
}

/// The kind of a base type: `()`, an array type, `inout T`, `reversible T`,
/// a primitive, or a type name (with no arguments yet).
pub open spec fn base_type(t: Seq<Token>, c: int) -> Option<(int, TyKindM)>
    decreases t.len() - c, 39int,
{
    if !(0 <= c < t.len()) {
        None
    } else if tok_is(t, c, TokenKind::LParen) {
        if tok_is(t, c + 1, TokenKind::RParen) {
            Some((c + 2, TyKindM::Unit))
        } else {
            None
        }
    } else if tok_is(t, c, TokenKind::LBracket) {
        match array_type(t, c) {
            Some((e, tm)) => Some((e, tm.kind)),
            None => None,
        }
    } else if tok_is(t, c, TokenKind::InOut) {
        match ty(t, c + 1) {
            Some((e, tm)) => Some((e, TyKindM::Projection(Box::new(tm)))),
            None => None,
        }
    } else if tok_is(t, c, TokenKind::Reversible) {
        match ty(t, c + 1) {
            Some((e, tm)) => Some((e, TyKindM::Reversible(Box::new(tm)))),
            None => None,
        }
    } else if tok_is(t, c, TokenKind::Qubit) {
        Some((c + 1, TyKindM::Qubit))
    } else if tok_is(t, c, TokenKind::Nat) {
        Some((c + 1, TyKindM::Nat))
    } else if tok_is(t, c, TokenKind::FloatKw) {
        Some((c + 1, TyKindM::Float))
    } else if t[c].kind is TypeIdent {
        Some((c + 1, TyKindM::Named(name_at(t, c), Seq::empty())))
    } else if tok_is(t, c, TokenKind::QRegister) {
        Some((c + 1, TyKindM::Named("QRegister"@, Seq::empty())))
    } else if word_at(t, c, "int"@) {
        Some((c + 1, TyKindM::Int))
    } else if word_at(t, c, "bool"@) {
        Some((c + 1, TyKindM::Bool))
    } else if word_at(t, c, "float"@) {
        Some((c + 1, TyKindM::Float))
    } else if word_at(t, c, "uint"@) {
        Some((c + 1, TyKindM::UInt))
    } else {
        None
    }
}

/// The size of an array type given by an expression: a variable, an
/// integer literal, or otherwise the variable `unknown`.
pub open spec fn nat_of(e: ExprM) -> NatM {
    match e {
        ExprM::Var(x) => NatM::Var(x),
        ExprM::Lit(LitM::Int(n)) => nat_of_int(n),
        _ => NatM::Var("unknown"@),
    }
}

/// `[ type ; expr ]` or `[ type ]`
pub open spec fn array_type(t: Seq<Token>, c: int) -> Option<(int, TyM)>
    decreases t.len() - c, 38int,
{
    if !tok_is(t, c, TokenKind::LBracket) {
        None
    } else {
        match past(t, c, ty(t, c + 1)) {
            None => None,
            Some((c1, elem)) => {
                let s = if tok_is(t, c1, TokenKind::Semicolon) {
                    match expr(t, c1 + 1) {
                        Some((e, x)) => Some((e, Some(nat_of(x)))),
                        None => None,
                    }
                } else {
                    Some((c1, None))
                };
                match past(t, c, s) {
                    Some((c2, size)) => if tok_is(t, c2, TokenKind::RBracket) {
                        Some((c2 + 1, TyM { kind: TyKindM::Array(Box::new(elem), size), quantity: Quantity::Many }))
                    } else {
                        None
                    },
                    None => None,
                }
            },
        }
    }
}

// ===== Expressions =====

/// An expression: a binary expression, then `= expr` (right associative)
/// when an assignment follows.
pub open spec fn expr(t: Seq<Token>, c: int) -> Option<(int, ExprM)>
    decreases t.len() - c, 35int,
{
    match past(t, c, binary(t, c, 0)) {
        None => None,
        Some((c1, l)) => if tok_is(t, c1, TokenKind::Assign) {
            match expr(t, c1 + 1) {
                Some((c2, r)) => Some((c2, ExprM::Assign(Box::new(l), Box::new(r)))),
                None => None,
            }
        } else {
            Some((c1, l))
        },
    }
}

/// Unary operands joined by binary operators of precedence at least
/// `min`, left associative.
pub open spec fn binary(t: Seq<Token>, c: int, min: int) -> Option<(int, ExprM)>
    decreases t.len() - c, 34int,
{
    match past(t, c, unary(t, c)) {
        None => None,
        Some((c1, l)) => binary_rest(t, c1, min, l),
    }
}

/// The operators after the left operand `l`, which ends at `c`: each one of
/// precedence at least `min` takes `l` and the operand after it, whose own
/// operators bind tighter, as a new left operand.
pub open spec fn binary_rest(t: Seq<Token>, c: int, min: int, l: ExprM) -> Option<(int, ExprM)>
    decreases t.len() - c, 34int,
{
    if !(0 <= c <= t.len()) {
        None
    } else if c == t.len() {
        Some((c, l))
    } else {
        match binary_op_of(t[c].kind) {
            None => Some((c, l)),
            Some(op) => if precedence(op) < min {
                Some((c, l))
            } else {
                match past(t, c, binary(t, c + 1, precedence(op) + 1)) {
                    Some((c2, r)) => binary_rest(t, c2, min, ExprM::Binary(op, Box::new(l), Box::new(r))),
                    None => None,
                }
            },
        }
    }
}

/// `- e`, `! e`, `* e`, or a postfix expression.
pub open spec fn unary(t: Seq<Token>, c: int) -> Option<(int, ExprM)>
    decreases t.len() - c, 33int,
{
    if !(0 <= c <= t.len()) {
        None
    } else if tok_is(t, c, TokenKind::Minus) || tok_is(t, c, TokenKind::Not) || tok_is(t, c, TokenKind::Star) {
        let op = if tok_is(t, c, TokenKind::Minus) {
            UnOp::Neg
        } else if tok_is(t, c, TokenKind::Not) {
            UnOp::Not
        } else {
            UnOp::Deref
        };
        match unary(t, c + 1) {
            Some((c1, e)) => Some((c1, ExprM::Unary(op, Box::new(e)))),
            None => None,
        }
    } else {
        postfix(t, c)
    }
}

/// A primary expression followed by calls, method calls, fields and
/// indexing.
pub open spec fn postfix(t: Seq<Token>, c: int) -> Option<(int, ExprM)>
    decreases t.len() - c, 32int,
{
    match past(t, c, primary(t, c)) {
        None => None,
        Some((c1, e)) => postfix_rest(t, c1, e),
    }
}

/// The argument list `a` read from `c`, and the position after the
/// `closer` that follows it.
pub open spec fn closing(t: Seq<Token>, c: int, a: Option<(int, Seq<ExprM>)>, closer: TokenKind) -> Option<(int, Seq<ExprM>)> {
    match a {
        Some((c1, xs)) => if tok_is(t, c1, closer) && c <= c1 {
            Some((c1 + 1, xs))
        } else {
            None
        },
        None => None,
    }
}

/// The index of `x[...]`: the one expression, or the tuple of several.
pub open spec fn index_of(xs: Seq<ExprM>) -> ExprM {
    if xs.len() == 1 {
        xs[0]
    } else {
        ExprM::Tuple(xs)
    }
}

/// The calls, fields and indexing applied to `e`, which ends at `c`.
pub open spec fn postfix_rest(t: Seq<Token>, c: int, e: ExprM) -> Option<(int, ExprM)>
    decreases t.len() - c, 32int,
{
    if !(0 <= c <= t.len()) {
        None
    } else if tok_is(t, c, TokenKind::LParen) {
        match past(t, c, closing(t, c + 1, args_until(t, c + 1, TokenKind::RParen), TokenKind::RParen)) {
            Some((c1, args)) => postfix_rest(t, c1, ExprM::Call(Box::new(e), args)),
            None => None,
        }
    } else if tok_is(t, c, TokenKind::Dot) {
        if !ident_at(t, c + 1) {
            None
        } else if tok_is(t, c + 2, TokenKind::LParen) {
            match past(t, c, closing(t, c + 3, args_until(t, c + 3, TokenKind::RParen), TokenKind::RParen)) {
                Some((c1, args)) => postfix_rest(t, c1, ExprM::MethodCall(Box::new(e), name_at(t, c + 1), args)),
                None => None,
            }
        } else {
            postfix_rest(t, c + 2, ExprM::Field(Box::new(e), name_at(t, c + 1)))
        }
    } else if tok_is(t, c, TokenKind::LBracket) {
        match past(t, c, closing(t, c + 1, args_until(t, c + 1, TokenKind::RBracket), TokenKind::RBracket)) {
            Some((c1, idx)) => postfix_rest(t, c1, ExprM::Index(Box::new(e), Box::new(index_of(idx)))),
            None => None,
        }
    } else {
        Some((c, e))
    }
}

/// Expressions separated by commas, a trailing comma allowed, up to
/// `closer`, which is not consumed.
pub open spec fn args_until(t: Seq<Token>, c: int, closer: TokenKind) -> Option<(int, Seq<ExprM>)>
    decreases t.len() - c, 36int,
{
    if !(0 <= c <= t.len()) {
        None
    } else if tok_is(t, c, closer) {
        Some((c, Seq::empty()))
    } else {
        match past(t, c, expr(t, c)) {
            None => None,
            Some((c1, x)) => if tok_is(t, c1, closer) {
                Some((c1, seq![x]))
            } else if !tok_is(t, c1, TokenKind::Comma) {
                None
            } else {
                cons(x, args_until(t, c1 + 1, closer))
            },
        }
    }
}

/// A block as an expression.
pub open spec fn block_expr(r: Option<(int, BlockM)>) -> Option<(int, ExprM)> {
    match r {
        Some((e, b)) => Some((e, ExprM::Block(Box::new(b)))),
        None => None,
    }
}

/// A primary expression, chosen by its first token.
pub open spec fn primary(t: Seq<Token>, c: int) -> Option<(int, ExprM)>
    decreases t.len() - c, 31int,
{
    if !(0 <= c < t.len()) {
        None
    } else {
        match t[c].kind {
            TokenKind::If => if_expr(t, c),
            TokenKind::Match => match_expr(t, c),
            TokenKind::For => for_expr(t, c),
            TokenKind::While => while_expr(t, c),
            TokenKind::Return => return_expr(t, c),
            TokenKind::Reversible => reversible_expr(t, c),
            TokenKind::Measure => measure(t, c),
            TokenKind::Entangle => entangle(t, c),
            TokenKind::QAlloc => qalloc(t, c),
            TokenKind::Hadamard => gate(t, c, GateM::H),
            TokenKind::CNot => gate(t, c, GateM::CX),
            TokenKind::Int(_) => Some((c + 1, ExprM::Lit(lit_at(t, c)))),
            TokenKind::Float(_) => Some((c + 1, ExprM::Lit(lit_at(t, c)))),
            TokenKind::Bool(_) => Some((c + 1, ExprM::Lit(lit_at(t, c)))),
            TokenKind::Str(_) => Some((c + 1, ExprM::Lit(lit_at(t, c)))),
            TokenKind::Char(_) => Some((c + 1, ExprM::Lit(lit_at(t, c)))),
            TokenKind::LBrace => block_expr(block(t, c)),
            TokenKind::LParen => tuple_or_paren(t, c),
            TokenKind::LBracket => array_expr(t, c),
            TokenKind::Ident(s) => if s@ == "forall"@ {
                forall_expr(t, c)
            } else {
                Some((c + 1, ExprM::Var(s@)))
            },
            TokenKind::TypeIdent(_) => struct_or_var(t, c),
            _ => None,
        }
    }
}

/// `[ expr, ... ]`
pub open spec fn array_expr(t: Seq<Token>, c: int) -> Option<(int, ExprM)>
    decreases t.len() - c, 10int,
{
    if !tok_is(t, c, TokenKind::LBracket) {
        None
    } else {
        match closing(t, c + 1, args_until(t, c + 1, TokenKind::RBracket), TokenKind::RBracket) {
            Some((e, xs)) => Some((e, ExprM::Array(xs))),
            None => None,
        }
    }
}

/// `Name { field: expr, ... }` or the type name alone, as a variable.
pub open spec fn struct_or_var(t: Seq<Token>, c: int) -> Option<(int, ExprM)>
    decreases t.len() - c, 30int,
{
    if !ident_at(t, c) {
        None
    } else if !tok_is(t, c + 1, TokenKind::LBrace) {
        Some((c + 1, ExprM::Var(name_at(t, c))))
    } else {
        match past(t, c, field_exprs(t, c + 2)) {
            Some((c1, fs)) => if tok_is(t, c1, TokenKind::RBrace) {
                Some((c1 + 1, ExprM::Struct(name_at(t, c), fs)))
            } else {
                None
            },
            None => None,
        }
    }
}

/// `name : expr` fields separated by commas, a trailing comma allowed, up
/// to `}`.
pub open spec fn field_exprs(t: Seq<Token>, c: int) -> Option<(int, Seq<(Seq<char>, ExprM)>)>
    decreases t.len() - c, 11int,
{
    if !(0 <= c <= t.len()) {
        None
    } else if tok_is(t, c, TokenKind::RBrace) {
        Some((c, Seq::empty()))
    } else {
        match past(t, c, field_expr(t, c)) {
            None => None,
            Some((c1, f)) => if tok_is(t, c1, TokenKind::RBrace) {
                Some((c1, seq![f]))
            } else if !tok_is(t, c1, TokenKind::Comma) {
                None
            } else {
                cons(f, field_exprs(t, c1 + 1))
            },
        }
    }
}

/// `name : expr`
pub open spec fn field_expr(t: Seq<Token>, c: int) -> Option<(int, (Seq<char>, ExprM))>
    decreases t.len() - c, 10int,
{
    if !ident_at(t, c) || !tok_is(t, c + 1, TokenKind::Colon) {
        None
    } else {
        match expr(t, c + 2) {
            Some((e, x)) => Some((e, (name_at(t, c), x))),
            None => None,
        }
    }
}

/// `()`, `( expr )` (the expression itself) or a tuple.
pub open spec fn tuple_or_paren(t: Seq<Token>, c: int) -> Option<(int, ExprM)>
    decreases t.len() - c, 10int,
{
    if !tok_is(t, c, TokenKind::LParen) {
        None
    } else if tok_is(t, c + 1, TokenKind::RParen) {
        Some((c + 2, ExprM::Lit(LitM::Unit)))
    } else {
        match past(t, c, expr(t, c + 1)) {
            None => None,
            Some((c1, f)) => if !tok_is(t, c1, TokenKind::Comma) {
                if tok_is(t, c1, TokenKind::RParen) {
                    Some((c1 + 1, f))
                } else {
                    None
                }
            } else {
                match tuple_rest(t, c1) {
                    Some((c2, xs)) => if tok_is(t, c2, TokenKind::RParen) {
                        Some((c2 + 1, ExprM::Tuple(seq![f] + xs)))
                    } else {
                        None
                    },
                    None => None,
                }
            },
        }
    }
}

/// `, expr` repeated; a comma before `)` ends it.
pub open spec fn tuple_rest(t: Seq<Token>, c: int) -> Option<(int, Seq<ExprM>)>
    decreases t.len() - c, 10int,
{
    if !(0 <= c <= t.len()) {
        None
    } else if !tok_is(t, c, TokenKind::Comma) {
        Some((c, Seq::empty()))
    } else if tok_is(t, c + 1, TokenKind::RParen) {
        Some((c + 1, Seq::empty()))
    } else {
        match past(t, c, expr(t, c + 1)) {
            Some((c1, x)) => cons(x, tuple_rest(t, c1)),
            None => None,
        }
    }
}

/// `if cond block [else (if ... | block)]`
pub open spec fn if_expr(t: Seq<Token>, c: int) -> Option<(int, ExprM)>
    decreases t.len() - c, 30int,
{
    if !tok_is(t, c, TokenKind::If) {
        None
    } else {
        match past(t, c, expr(t, c + 1)) {
            None => None,
            Some((c1, cond)) => match past(t, c, block(t, c1)) {
                None => None,
                Some((c2, b)) => {
                    let th = Box::new(ExprM::Block(Box::new(b)));
                    if !tok_is(t, c2, TokenKind::Else) {
                        Some((c2, ExprM::If(Box::new(cond), th, None)))
                    } else {
                        let el = if tok_is(t, c2 + 1, TokenKind::If) {
                            if_expr(t, c2 + 1)
                        } else {
                            block_expr(block(t, c2 + 1))
                        };
                        match el {
                            Some((c3, x)) => Some((c3, ExprM::If(Box::new(cond), th, Some(Box::new(x))))),
                            None => None,
                        }
                    }
                },
            },
        }
    }
}

/// `match scrutinee { arm [,] ... }`
pub open spec fn match_expr(t: Seq<Token>, c: int) -> Option<(int, ExprM)>
    decreases t.len() - c, 30int,
{
    if !tok_is(t, c, TokenKind::Match) {
        None
    } else {
        match past(t, c, expr(t, c + 1)) {
            None => None,
            Some((c1, s)) => if !tok_is(t, c1, TokenKind::LBrace) {
                None
            } else {
                match past(t, c, arms(t, c1 + 1)) {
                    Some((c2, xs)) => if tok_is(t, c2, TokenKind::RBrace) {
                        Some((c2 + 1, ExprM::Match(Box::new(s), xs)))
                    } else {
                        None
                    },
                    None => None,
                }
            },
        }
    }
}

/// Match arms, each optionally followed by a comma, up to `}`.
pub open spec fn arms(t: Seq<Token>, c: int) -> Option<(int, Seq<(PatM, Option<ExprM>, ExprM)>)>
    decreases t.len() - c, 28int,
{
    if !(0 <= c <= t.len()) {
        None
    } else if tok_is(t, c, TokenKind::RBrace) {
        Some((c, Seq::empty()))
    } else {
        match past(t, c, match_arm(t, c)) {
            Some((c1, a)) => cons(a, arms(t, eat_at(t, c1, TokenKind::Comma))),
            None => None,
        }
    }
}

/// `pattern [if guard] => body`
pub open spec fn match_arm(t: Seq<Token>, c: int) -> Option<(int, (PatM, Option<ExprM>, ExprM))>
    decreases t.len() - c, 27int,
{
    match past(t, c, pattern(t, c)) {
        None => None,
        Some((c1, p)) => {
            let g = if tok_is(t, c1, TokenKind::If) {
                match expr(t, c1 + 1) {
                    Some((e, x)) => Some((e, Some(x))),
                    None => None,
                }
            } else {
                Some((c1, None))
            };
            match past(t, c, g) {
                Some((c2, guard)) => if tok_is(t, c2, TokenKind::FatArrow) {
                    match expr(t, c2 + 1) {
                        Some((e, body)) => Some((e, (p, guard, body))),
                        None => None,
                    }
                } else {
                    None
                },
                None => None,
            }
        },
    }
}

/// `for var in iter block`
pub open spec fn for_expr(t: Seq<Token>, c: int) -> Option<(int, ExprM)>
    decreases t.len() - c, 30int,
{
    if !tok_is(t, c, TokenKind::For) || !ident_at(t, c + 1) || !word_at(t, c + 2, "in"@) {
        None
    } else {
        match past(t, c, expr(t, c + 3)) {
            Some((c1, it)) => match block(t, c1) {
                Some((c2, b)) => Some((c2, ExprM::For(name_at(t, c + 1), Box::new(it), Box::new(b)))),
                None => None,
            },
            None => None,
        }
    }
}

/// `forall var in lo .. hi, ... block`
pub open spec fn forall_expr(t: Seq<Token>, c: int) -> Option<(int, ExprM)>
    decreases t.len() - c, 30int,
{
    if !word_at(t, c, "forall"@) {
        None
    } else {
        match past(t, c, bindings(t, c + 1)) {
            Some((c1, bs)) => match block(t, c1) {
                Some((c2, b)) => Some((c2, ExprM::Forall(bs, Box::new(b)))),
                None => None,
            },
            None => None,
        }
    }
}

/// `var in lo .. hi` bindings separated by commas.
pub open spec fn bindings(t: Seq<Token>, c: int) -> Option<(int, Seq<(Seq<char>, ExprM, ExprM)>)>
    decreases t.len() - c, 30int,
{
    if !(0 <= c) || !ident_at(t, c) || !word_at(t, c + 1, "in"@) {
        None
    } else {
        match past(t, c, expr(t, c + 2)) {
            None => None,
            Some((c1, lo)) => if !tok_is(t, c1, TokenKind::DotDot) {
                None
            } else {
                match past(t, c, expr(t, c1 + 1)) {
                    None => None,
                    Some((c2, hi)) => {
                        let b = (name_at(t, c), lo, hi);
                        if tok_is(t, c2, TokenKind::Comma) {
                            cons(b, bindings(t, c2 + 1))
                        } else {
                            Some((c2, seq![b]))
                        }
                    },
                }
            },
        }
    }
}

/// `while cond block`
pub open spec fn while_expr(t: Seq<Token>, c: int) -> Option<(int, ExprM)>
    decreases t.len() - c, 30int,
{
    if !tok_is(t, c, TokenKind::While) {
        None
    } else {
        match past(t, c, expr(t, c + 1)) {
            Some((c1, cond)) => match block(t, c1) {
                Some((c2, b)) => Some((c2, ExprM::While(Box::new(cond), Box::new(ExprM::Block(Box::new(b)))))),
                None => None,
            },
            None => None,
        }
    }
}

/// `return [expr]`: no value before `;`, `}`, `)` or the end.
pub open spec fn return_expr(t: Seq<Token>, c: int) -> Option<(int, ExprM)>
    decreases t.len() - c, 30int,
{
    if !tok_is(t, c, TokenKind::Return) {
        None
    } else if c + 1 >= t.len() || tok_is(t, c + 1, TokenKind::Semicolon) || tok_is(t, c + 1, TokenKind::RBrace)
        || tok_is(t, c + 1, TokenKind::RParen) {
        Some((c + 1, ExprM::Return(None)))
    } else {
        match expr(t, c + 1) {
            Some((e, x)) => Some((e, ExprM::Return(Some(Box::new(x))))),
            None => None,
        }
    }
}

/// A `reversible { ... }` block as an expression.
pub open spec fn reversible_expr(t: Seq<Token>, c: int) -> Option<(int, ExprM)>
    decreases t.len() - c, 30int,
{
    match reversible_block(t, c) {
        Some((e, b)) => Some((e, ExprM::Reversible(Box::new(b)))),
        None => None,
    }
}

/// `measure e` with a unary operand.
pub open spec fn measure(t: Seq<Token>, c: int) -> Option<(int, ExprM)>
    decreases t.len() - c, 30int,
{
    if !tok_is(t, c, TokenKind::Measure) {
        None
    } else {
        match unary(t, c + 1) {
            Some((e, x)) => Some((e, ExprM::Measure(Box::new(x)))),
            None => None,
        }
    }
}

/// `entangle [( args )]`
pub open spec fn entangle(t: Seq<Token>, c: int) -> Option<(int, ExprM)>
    decreases t.len() - c, 30int,
{
    if !tok_is(t, c, TokenKind::Entangle) {
        None
    } else if tok_is(t, c + 1, TokenKind::LParen) {
        match closing(t, c + 2, args_until(t, c + 2, TokenKind::RParen), TokenKind::RParen) {
            Some((e, xs)) => Some((e, ExprM::Entangle(xs))),
            None => None,
        }
    } else {
        Some((c + 1, ExprM::Entangle(Seq::empty())))
    }
}

/// `qalloc ( [size] )`: the size is read and dropped.
pub open spec fn qalloc(t: Seq<Token>, c: int) -> Option<(int, ExprM)>
    decreases t.len() - c, 30int,
{
    if !tok_is(t, c, TokenKind::QAlloc) || !tok_is(t, c + 1, TokenKind::LParen) {
        None
    } else {
        let s = if tok_is(t, c + 2, TokenKind::RParen) {
            Some(c + 2)
        } else {
            match expr(t, c + 2) {
                Some((e, _)) => Some(e),
                None => None,
            }
        };
        match s {
            Some(c1) => if tok_is(t, c1, TokenKind::RParen) {
                Some((c1 + 1, ExprM::Alloc("qalloc"@)))
            } else {
                None
            },
            None => None,
        }
    }
}

/// An application of `g`: its keyword at `c`, then operands in
/// parentheses.
pub open spec fn gate(t: Seq<Token>, c: int, g: GateM) -> Option<(int, ExprM)>
    decreases t.len() - c, 30int,
{
    if !(0 <= c < t.len()) || !tok_is(t, c + 1, TokenKind::LParen) {
        None
    } else {
        match closing(t, c + 2, args_until(t, c + 2, TokenKind::RParen), TokenKind::RParen) {
            Some((e, xs)) => Some((e, ExprM::Gate(g, xs))),
            None => None,
        }
    }
}

// ===== Patterns =====

/// A literal, tuple, or identifier pattern.
pub open spec fn pattern(t: Seq<Token>, c: int) -> Option<(int, PatM)>
    decreases t.len() - c, 26int,
{
    if literal_at(t, c) {
        Some((c + 1, PatM::Lit(lit_at(t, c))))
    } else if tok_is(t, c, TokenKind::LParen) {
        tuple_pattern(t, c)
    } else if ident_at(t, c) {
        ident_pattern(t, c)
    } else {
        None
    }
}

/// `( pattern, ... )`
pub open spec fn tuple_pattern(t: Seq<Token>, c: int) -> Option<(int, PatM)>
    decreases t.len() - c, 10int,
{
    if !tok_is(t, c, TokenKind::LParen) {
        None
    } else {
        match past(t, c, pattern_list(t, c + 1)) {
            Some((c1, ps)) => if tok_is(t, c1, TokenKind::RParen) {
                Some((c1 + 1, PatM::Tuple(ps)))
            } else {
                None
            },
            None => None,
        }
    }
}

/// Patterns separated by commas, a trailing comma allowed, up to `)`.
pub open spec fn pattern_list(t: Seq<Token>, c: int) -> Option<(int, Seq<PatM>)>
    decreases t.len() - c, 27int,
{
    if !(0 <= c <= t.len()) {
        None
    } else if tok_is(t, c, TokenKind::RParen) {
        Some((c, Seq::empty()))
    } else {
        match past(t, c, pattern(t, c)) {
            None => None,
            Some((c1, p)) => if tok_is(t, c1, TokenKind::RParen) {
                Some((c1, seq![p]))
            } else if !tok_is(t, c1, TokenKind::Comma) {
                None
            } else {
                cons(p, pattern_list(t, c1 + 1))
            },
        }
    }
}

/// `_`, a name, `Name { field: pattern, ... }`, or `Name ( pattern, ... )`
/// whose arguments are read and dropped.
pub open spec fn ident_pattern(t: Seq<Token>, c: int) -> Option<(int, PatM)>
    decreases t.len() - c, 10int,
{
    if !ident_at(t, c) {
        None
    } else if word_at(t, c, "_"@) {
        Some((c + 1, PatM::Wildcard))
    } else if tok_is(t, c + 1, TokenKind::LBrace) {
        match past(t, c, field_patterns(t, c + 2)) {
            Some((c1, fs)) => if tok_is(t, c1, TokenKind::RBrace) {
                Some((c1 + 1, PatM::Struct(name_at(t, c), fs)))
            } else {
                None
            },
            None => None,
        }
    } else if tok_is(t, c + 1, TokenKind::LParen) {
        match past(t, c, pattern_list(t, c + 2)) {
            Some((c1, _)) => if tok_is(t, c1, TokenKind::RParen) {
                Some((c1 + 1, PatM::Ident(name_at(t, c))))
            } else {
                None
            },
            None => None,
        }
    } else {
        Some((c + 1, PatM::Ident(name_at(t, c))))
    }
}

/// `name : pattern` fields separated by commas, a trailing comma allowed,
/// up to `}`.
pub open spec fn field_patterns(t: Seq<Token>, c: int) -> Option<(int, Seq<(Seq<char>, PatM)>)>
    decreases t.len() - c, 11int,
{
    if !(0 <= c <= t.len()) {
        None
    } else if tok_is(t, c, TokenKind::RBrace) {
        Some((c, Seq::empty()))
    } else {
        match past(t, c, field_pattern(t, c)) {
            None => None,
            Some((c1, f)) => if tok_is(t, c1, TokenKind::RBrace) {
                Some((c1, seq![f]))
            } else if !tok_is(t, c1, TokenKind::Comma) {
                None
            } else {
                cons(f, field_patterns(t, c1 + 1))
            },
        }
    }
}

/// `name : pattern`
pub open spec fn field_pattern(t: Seq<Token>, c: int) -> Option<(int, (Seq<char>, PatM))>
    decreases t.len() - c, 10int,
{
    if !ident_at(t, c) || !tok_is(t, c + 1, TokenKind::Colon) {
        None
    } else {
        match pattern(t, c + 2) {
            Some((e, p)) => Some((e, (name_at(t, c), p))),
            None => None,
        }
    }
}

// ===== Statements and blocks =====

/// `{ statements [tail] }`
pub open spec fn block(t: Seq<Token>, c: int) -> Option<(int, BlockM)>
    decreases t.len() - c, 5int,
{
    if !tok_is(t, c, TokenKind::LBrace) {
        None
    } else {
        match stmt_list(t, c + 1) {
            Some((c1, ss, tail)) => if tok_is(t, c1, TokenKind::RBrace) && c < c1 {
                Some((c1 + 1, BlockM { stmts: ss, tail }))
            } else {
                None
            },
            None => None,
        }
    }
}

/// The statement `s` in front of a statement list.
pub open spec fn stmt_cons(s: StmtM, r: Option<(int, Seq<StmtM>, Option<ExprM>)>) -> Option<(int, Seq<StmtM>, Option<ExprM>)> {
    match r {
        Some((e, ss, tail)) => Some((e, seq![s] + ss, tail)),
        None => None,
    }
}

/// Statements up to `}` or the end, and the tail expression that ends them
/// if any: an expression without `;` that is not a control-flow construct
/// is the tail.
pub open spec fn stmt_list(t: Seq<Token>, c: int) -> Option<(int, Seq<StmtM>, Option<ExprM>)>
    decreases t.len() - c, 37int,
{
    if !(0 <= c <= t.len()) {
        None
    } else if c == t.len() || tok_is(t, c, TokenKind::RBrace) {
        Some((c, Seq::empty(), None))
    } else if tok_is(t, c, TokenKind::Semicolon) {
        stmt_cons(StmtM::Empty, stmt_list(t, c + 1))
    } else if tok_is(t, c, TokenKind::Let) {
        match past(t, c, let_stmt(t, c)) {
            Some((c1, s)) => stmt_cons(s, stmt_list(t, c1)),
            None => None,
        }
    } else if tok_is(t, c, TokenKind::Reversible) {
        match past(t, c, reversible_block(t, c)) {
            Some((c1, b)) => stmt_cons(StmtM::Reversible(b), stmt_list(t, eat_at(t, c1, TokenKind::Semicolon))),
            None => None,
        }
    } else {
        match past(t, c, expr(t, c)) {
            None => None,
            Some((c1, x)) => if tok_is(t, c1, TokenKind::Semicolon) {
                stmt_cons(StmtM::Expr(x), stmt_list(t, c1 + 1))
            } else if crate::ast::model::cf_m(x) {
                stmt_cons(StmtM::Expr(x), stmt_list(t, c1))
            } else {
                Some((c1, Seq::empty(), Some(x)))
            },
        }
    }
}

/// `: type` when a colon stands at `c`.
pub open spec fn opt_annotation(t: Seq<Token>, c: int) -> Option<(int, Option<TyM>)>
    decreases t.len() - c, 10int,
{
    if tok_is(t, c, TokenKind::Colon) {
        match ty(t, c + 1) {
            Some((e, tm)) => Some((e, Some(tm))),
            None => None,
        }
    } else {
        Some((c, None))
    }
}

/// The position of the name in a `let` at `c`: after `let inout` or `let
/// consume`, or after `let`, a quantity marker and `mut`, `inout` or
/// `consume`, each optional.
pub open spec fn let_name(t: Seq<Token>, c: int) -> int {
    let q = after_quantity(t, c + 1);
    if tok_is(t, c + 1, TokenKind::InOut) || tok_is(t, c + 1, TokenKind::Consume) {
        c + 2
    } else if word_at(t, q, "mut"@) || tok_is(t, q, TokenKind::InOut) || tok_is(t, q, TokenKind::Consume) {
        q + 1
    } else {
        q
    }
}

/// The statement a `let` at `c` makes of its name, annotation and value:
/// `let inout` and `let consume` bind as such; otherwise the quantity
/// marker (many when absent) is spread over the annotated type, and `inout`
/// or `consume` before the name sets the mode (`mut` keeps it immutable).
pub open spec fn let_of(t: Seq<Token>, c: int, x: Seq<char>, ann: Option<TyM>, v: ExprM) -> StmtM {
    if tok_is(t, c + 1, TokenKind::InOut) {
        StmtM::LetInOut(x, ann, v)
    } else if tok_is(t, c + 1, TokenKind::Consume) {
        StmtM::LetConsume(x, ann, v)
    } else {
        let q = quantity_or_many(t, c + 1);
        let p = after_quantity(t, c + 1);
        let m = if word_at(t, p, "mut"@) {
            Mutability::Immutable
        } else if tok_is(t, p, TokenKind::InOut) {
            Mutability::InOut
        } else if tok_is(t, p, TokenKind::Consume) {
            Mutability::Consume
        } else {
            Mutability::Immutable
        };
        let a = match ann {
            Some(tm) => Some(spread_m(tm, q)),
            None => None,
        };
        StmtM::Let(x, a, q, m, v)
    }
}

/// `let inout name ...`, `let consume name ...`, or `let [q]
/// [mut|inout|consume] name ...`, each followed by `[: type] = expr [;]`.
pub open spec fn let_stmt(t: Seq<Token>, c: int) -> Option<(int, StmtM)>
    decreases t.len() - c, 10int,
{
    let n = let_name(t, c);
    if !tok_is(t, c, TokenKind::Let) || !ident_at(t, n) {
        None
    } else {
        match past(t, c, opt_annotation(t, n + 1)) {
            None => None,
            Some((c1, ann)) => if !tok_is(t, c1, TokenKind::Assign) {
                None
            } else {
                match past(t, c, expr(t, c1 + 1)) {
                    Some((c2, v)) => Some((eat_at(t, c2, TokenKind::Semicolon), let_of(t, c, name_at(t, n), ann, v))),
                    None => None,
                }
            },
        }
    }
}

/// `reversible block`
pub open spec fn reversible_block(t: Seq<Token>, c: int) -> Option<(int, BlockM)>
    decreases t.len() - c, 5int,
{
    if !tok_is(t, c, TokenKind::Reversible) {
        None
    } else {
        block(t, c + 1)
    }
}

} // verus!
