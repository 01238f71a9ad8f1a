//! The syntax tree as a mathematical value: names as character sequences,
//! without spans, node ids or attributes. Node kinds that the parser never
//! builds are `Other`.

use vstd::prelude::*;
use crate::ast::expr::{Expr, ExprKind, FieldExpr, GateKind, MatchArm, QuantumOp};
use crate::ast::items::{Block, Field, Item, Literal, TypeDefKind, Variant};
use crate::ast::ops::{BinOp, UnOp};
use crate::ast::pattern::{FieldPattern, Pattern, PatternKind};
use crate::ast::stmt::{Stmt, StmtKind};
use crate::ast::ty::{NatExpr, Type, TypeArg, TypeKind};
use crate::ast::{GenericKind, GenericParam, Ident, ImportItems, Mutability, Param, Quantity};

verus! {

/// A literal.
pub enum LitM {
    Int(i64),
    UInt(u64),
    Float(Seq<char>),
    Bool(bool),
    Str(Seq<char>),
    Char(char),
    Unit,
}

/// A natural-number expression.
pub enum NatM {
    Zero,
    Succ(Box<NatM>),
    Var(Seq<char>),
    Other,
}

/// A type: its kind and its quantity.
pub struct TyM {
    pub kind: TyKindM,
    pub quantity: Quantity,
}

/// The kind of a type.
pub enum TyKindM {
    Unit,
    Bool,
    Int,
    UInt,
    Float,
    Nat,
    Qubit,
    Array(Box<TyM>, Option<NatM>),
    Named(Seq<char>, Seq<ArgM>),
    Projection(Box<TyM>),
    Reversible(Box<TyM>),
    Other,
}

/// A type argument.
pub enum ArgM {
    Ty(TyM),
    Nat(NatM),
    Other,
}

/// A pattern.
pub enum PatM {
    Wildcard,
    Ident(Seq<char>),
    Lit(LitM),
    Tuple(Seq<PatM>),
    Struct(Seq<char>, Seq<(Seq<char>, PatM)>),
    Other,
}

/// A gate applied by name.
pub enum GateM {
    H,
    CX,
    Other,
}

/// An expression.
pub enum ExprM {
    Lit(LitM),
    Var(Seq<char>),
    Binary(BinOp, Box<ExprM>, Box<ExprM>),
    Unary(UnOp, Box<ExprM>),
    Call(Box<ExprM>, Seq<ExprM>),
    MethodCall(Box<ExprM>, Seq<char>, Seq<ExprM>),
    Field(Box<ExprM>, Seq<char>),
    Index(Box<ExprM>, Box<ExprM>),
    Struct(Seq<char>, Seq<(Seq<char>, ExprM)>),
    Tuple(Seq<ExprM>),
    Array(Seq<ExprM>),
    Block(Box<BlockM>),
    If(Box<ExprM>, Box<ExprM>, Option<Box<ExprM>>),
    /// Arms: pattern, guard, body.
    Match(Box<ExprM>, Seq<(PatM, Option<ExprM>, ExprM)>),
    Reversible(Box<BlockM>),
    For(Seq<char>, Box<ExprM>, Box<BlockM>),
    /// Bindings: variable, lower bound, upper bound.
    Forall(Seq<(Seq<char>, ExprM, ExprM)>, Box<BlockM>),
    While(Box<ExprM>, Box<ExprM>),
    Return(Option<Box<ExprM>>),
    Assign(Box<ExprM>, Box<ExprM>),
    Alloc(Seq<char>),
    Measure(Box<ExprM>),
    Gate(GateM, Seq<ExprM>),
    Entangle(Seq<ExprM>),
    Other,
}

/// A block: its statements and its tail expression.
pub struct BlockM {
    pub stmts: Seq<StmtM>,
    pub tail: Option<ExprM>,
}

/// A statement.
pub enum StmtM {
    Let(Seq<char>, Option<TyM>, Quantity, Mutability, ExprM),
    LetInOut(Seq<char>, Option<TyM>, ExprM),
    LetConsume(Seq<char>, Option<TyM>, ExprM),
    Expr(ExprM),
    Reversible(BlockM),
    Empty,
    Other,
}

/// A struct or variant field: name, type, quantity.
pub type FieldM = (Seq<char>, TyM, Quantity);

/// A generic parameter: name and kind.
pub type GenM = (Seq<char>, GenericKind);

/// A function parameter: name, type, quantity, mutability.
pub type ParamM = (Seq<char>, TyM, Quantity, Mutability);

/// A top-level item.
pub enum ItemM {
    Function(Seq<char>, Seq<GenM>, Seq<ParamM>, Option<TyM>, BlockM, Quantity),
    Struct(Seq<char>, Seq<GenM>, Seq<FieldM>),
    Enum(Seq<char>, Seq<GenM>, Seq<(Seq<char>, Seq<FieldM>)>),
    Alias(Seq<char>, TyM),
    Const(Seq<char>, Option<TyM>, ExprM),
    /// The path, and the names listed in braces (`None` for all).
    Import(Seq<Seq<char>>, Option<Seq<Seq<char>>>),
    Module(Seq<char>, Seq<ItemM>),
}

/// The model of a `GateKind`: Hadamard, CNOT, or another.
pub open spec fn gate_m(g: GateKind) -> GateM {
    match g {
        GateKind::H => GateM::H,
        GateKind::CX => GateM::CX,
        _ => GateM::Other,
    }
}

/// The value of an optional expression.
pub open spec fn opt_expr_m(e: Option<Expr>) -> Option<ExprM> {
    match e {
        Some(x) => Some(expr_m(x)),
        None => None,
    }
}

/// The value of a literal.
pub open spec fn lit_m(l: Literal) -> LitM {
    match l {
        Literal::Int(n) => LitM::Int(n),
        Literal::UInt(n) => LitM::UInt(n),
        Literal::Float(s) => LitM::Float(s@),
        Literal::Bool(b) => LitM::Bool(b),
        Literal::String(s) => LitM::Str(s@),
        Literal::Char(c) => LitM::Char(c),
        Literal::Unit => LitM::Unit,
    }
}

/// The value of a natural-number expression.
pub open spec fn nat_m(n: NatExpr) -> NatM
    decreases n,
{
    match n {
        NatExpr::Zero => NatM::Zero,
        NatExpr::Succ(m) => NatM::Succ(Box::new(nat_m(*m))),
        NatExpr::Var(x) => NatM::Var(x.name@),
        _ => NatM::Other,
    }
}

/// The value of a type.
pub open spec fn ty_m(t: Type) -> TyM
    decreases t,
{
    TyM {
        kind: match t.kind {
            TypeKind::Unit => TyKindM::Unit,
            TypeKind::Bool => TyKindM::Bool,
            TypeKind::Int => TyKindM::Int,
            TypeKind::UInt => TyKindM::UInt,
            TypeKind::Float => TyKindM::Float,
            TypeKind::Nat => TyKindM::Nat,
            TypeKind::Qubit => TyKindM::Qubit,
            TypeKind::Array(e, n) => TyKindM::Array(Box::new(ty_m(*e)), match n {
                Some(k) => Some(nat_m(k)),
                None => None,
            }),
            TypeKind::Named(x, args) => TyKindM::Named(x.name@, args_m(args@)),
            TypeKind::Projection(e) => TyKindM::Projection(Box::new(ty_m(*e))),
            TypeKind::Reversible(e) => TyKindM::Reversible(Box::new(ty_m(*e))),
            _ => TyKindM::Other,
        },
        quantity: t.quantity,
    }
}

/// The value of a type argument.
pub open spec fn arg_m(a: TypeArg) -> ArgM
    decreases a,
{
    match a {
        TypeArg::Type(t) => ArgM::Ty(ty_m(t)),
        TypeArg::Nat(n) => ArgM::Nat(nat_m(n)),
        TypeArg::Quantity(_) => ArgM::Other,
    }
}

/// The values of a list of type arguments.
pub open spec fn args_m(xs: Seq<TypeArg>) -> Seq<ArgM>
    decreases xs,
{
    Seq::new(xs.len(), |i: int|
        if 0 <= i < xs.len() {
            arg_m(xs[i])
        } else {
            ArgM::Other
        })
}

/// The value of an optional type.
pub open spec fn opt_ty_m(t: Option<Type>) -> Option<TyM> {
    match t {
        Some(x) => Some(ty_m(x)),
        None => None,
    }
}

/// The value of a pattern.
pub open spec fn pat_m(p: Pattern) -> PatM
    decreases p,
{
    match p.kind {
        PatternKind::Wildcard => PatM::Wildcard,
        PatternKind::Ident(x) => PatM::Ident(x.name@),
        PatternKind::Literal(l) => PatM::Lit(lit_m(l)),
        PatternKind::Tuple(ps) => PatM::Tuple(pats_m(ps@)),
        PatternKind::Struct(x, fs) => PatM::Struct(x.name@, field_pats_m(fs@)),
        _ => PatM::Other,
    }
}

/// The values of a list of patterns.
pub open spec fn pats_m(ps: Seq<Pattern>) -> Seq<PatM>
    decreases ps,
{
    Seq::new(ps.len(), |i: int|
        if 0 <= i < ps.len() {
            pat_m(ps[i])
        } else {
            PatM::Other
        })
}

/// The values of a list of field patterns.
pub open spec fn field_pats_m(fs: Seq<FieldPattern>) -> Seq<(Seq<char>, PatM)>
    decreases fs,
{
    Seq::new(fs.len(), |i: int|
        if 0 <= i < fs.len() {
            field_pat_m(fs[i])
        } else {
            (Seq::empty(), PatM::Other)
        })
}

/// The value of a field pattern: name and pattern.
pub open spec fn field_pat_m(f: FieldPattern) -> (Seq<char>, PatM)
    decreases f,
{
    (f.name.name@, pat_m(f.pattern))
}

/// The values of a list of expressions.
pub open spec fn exprs_m(es: Seq<Expr>) -> Seq<ExprM>
    decreases es,
{
    Seq::new(es.len(), |i: int|
        if 0 <= i < es.len() {
            expr_m(es[i])
        } else {
            ExprM::Other
        })
}

/// The values of a list of field initialisers.
pub open spec fn field_exprs_m(fs: Seq<FieldExpr>) -> Seq<(Seq<char>, ExprM)>
    decreases fs,
{
    Seq::new(fs.len(), |i: int|
        if 0 <= i < fs.len() {
            field_expr_m(fs[i])
        } else {
            (Seq::empty(), ExprM::Other)
        })
}

/// The value of a field initialiser: name and value.
pub open spec fn field_expr_m(f: FieldExpr) -> (Seq<char>, ExprM)
    decreases f,
{
    (f.name.name@, expr_m(f.value))
}

/// The values of a list of match arms: pattern, guard, body.
pub open spec fn arms_m(arms: Seq<MatchArm>) -> Seq<(PatM, Option<ExprM>, ExprM)>
    decreases arms,
{
    Seq::new(arms.len(), |i: int|
        if 0 <= i < arms.len() {
            arm_m(arms[i])
        } else {
            (PatM::Other, None, ExprM::Other)
        })
}

/// The value of a match arm: pattern, guard, body.
pub open spec fn arm_m(a: MatchArm) -> (PatM, Option<ExprM>, ExprM)
    decreases a,
{
    (pat_m(a.pattern), match a.guard {
        Some(g) => Some(expr_m(g)),
        None => None,
    }, expr_m(a.body))
}

/// The values of `forall` bindings: variable, lower bound, upper bound.
pub open spec fn bindings_m(bs: Seq<(Ident, Expr, Expr)>) -> Seq<(Seq<char>, ExprM, ExprM)>
    decreases bs,
{
    Seq::new(bs.len(), |i: int|
        if 0 <= i < bs.len() {
            binding_m(bs[i])
        } else {
            (Seq::empty(), ExprM::Other, ExprM::Other)
        })
}

/// The value of a `forall` binding: variable, lower bound, upper bound.
pub open spec fn binding_m(b: (Ident, Expr, Expr)) -> (Seq<char>, ExprM, ExprM)
    decreases b,
{
    (b.0.name@, expr_m(b.1), expr_m(b.2))
}

/// The value of an expression.
pub open spec fn expr_m(e: Expr) -> ExprM
    decreases e,
{
    match e.kind {
        ExprKind::Literal(l) => ExprM::Lit(lit_m(l)),
        ExprKind::Var(x) => ExprM::Var(x.name@),
        ExprKind::Binary(op, l, r) => ExprM::Binary(op, Box::new(expr_m(*l)), Box::new(expr_m(*r))),
        ExprKind::Unary(op, x) => ExprM::Unary(op, Box::new(expr_m(*x))),
        ExprKind::Call(f, args) => ExprM::Call(Box::new(expr_m(*f)), exprs_m(args@)),
        ExprKind::MethodCall(x, m, args) => ExprM::MethodCall(Box::new(expr_m(*x)), m.name@, exprs_m(args@)),
        ExprKind::Field(x, f) => ExprM::Field(Box::new(expr_m(*x)), f.name@),
        ExprKind::Index(x, i) => ExprM::Index(Box::new(expr_m(*x)), Box::new(expr_m(*i))),
        ExprKind::Struct(x, fs) => ExprM::Struct(x.name@, field_exprs_m(fs@)),
        ExprKind::Tuple(xs) => ExprM::Tuple(exprs_m(xs@)),
        ExprKind::Array(xs) => ExprM::Array(exprs_m(xs@)),
        ExprKind::Block(b) => ExprM::Block(Box::new(block_m(*b))),
        ExprKind::If(c, t, el) => ExprM::If(Box::new(expr_m(*c)), Box::new(expr_m(*t)), match el {
            Some(x) => Some(Box::new(expr_m(*x))),
            None => None,
        }),
        ExprKind::Match(s, arms) => ExprM::Match(Box::new(expr_m(*s)), arms_m(arms@)),
        ExprKind::Reversible(rb) => ExprM::Reversible(Box::new(block_m(rb.body))),
        ExprKind::For(f) => ExprM::For(f.var.name@, Box::new(expr_m(f.iter)), Box::new(block_m(f.body))),
        ExprKind::Forall(f) => ExprM::Forall(bindings_m(f.bindings@), Box::new(block_m(f.body))),
        ExprKind::While(c, b) => ExprM::While(Box::new(expr_m(*c)), Box::new(expr_m(*b))),
        ExprKind::Return(v) => ExprM::Return(match v {
            Some(x) => Some(Box::new(expr_m(*x))),
            None => None,
        }),
        ExprKind::Assign(l, r) => ExprM::Assign(Box::new(expr_m(*l)), Box::new(expr_m(*r))),
        ExprKind::QuantumOp(q) => match q {
            QuantumOp::Alloc(x) => ExprM::Alloc(x.name@),
            QuantumOp::Measure(x) => ExprM::Measure(Box::new(expr_m(*x))),
            QuantumOp::ApplyGate(g, args) => ExprM::Gate(gate_m(g), exprs_m(args@)),
            QuantumOp::Entangle(args) => ExprM::Entangle(exprs_m(args@)),
            _ => ExprM::Other,
        },
        _ => ExprM::Other,
    }
}

/// The value of a block.
pub open spec fn block_m(b: Block) -> BlockM
    decreases b,
{
    BlockM {
        stmts: stmts_m(b.stmts@),
        tail: match b.expr {
            Some(x) => Some(expr_m(*x)),
            None => None,
        },
    }
}

/// The values of a list of statements.
pub open spec fn stmts_m(ss: Seq<Stmt>) -> Seq<StmtM>
    decreases ss,
{
    Seq::new(ss.len(), |i: int|
        if 0 <= i < ss.len() {
            stmt_m(ss[i])
        } else {
            StmtM::Other
        })
}

/// The value of a statement.
pub open spec fn stmt_m(s: Stmt) -> StmtM
    decreases s,
{
    match s.kind {
        StmtKind::Let(l) => StmtM::Let(l.name.name@, opt_ty_m(l.ty), l.quantity, l.mutability, expr_m(l.value)),
        StmtKind::LetInOut(l) => StmtM::LetInOut(l.name.name@, opt_ty_m(l.ty), expr_m(l.value)),
        StmtKind::LetConsume(l) => StmtM::LetConsume(l.name.name@, opt_ty_m(l.ty), expr_m(l.value)),
        StmtKind::Expr(x) => StmtM::Expr(expr_m(x)),
        StmtKind::Reversible(rb) => StmtM::Reversible(block_m(rb.body)),
        StmtKind::Empty => StmtM::Empty,
        _ => StmtM::Other,
    }
}

/// The values of a list of fields.
pub open spec fn fields_m(fs: Seq<Field>) -> Seq<FieldM> {
    Seq::new(fs.len(), |i: int| field_m(fs[i]))
}

/// The value of a field: name, type, quantity.
pub open spec fn field_m(f: Field) -> FieldM {
    (f.name.name@, ty_m(f.ty), f.quantity)
}

/// The values of a list of generic parameters.
pub open spec fn generics_m(gs: Seq<GenericParam>) -> Seq<GenM> {
    Seq::new(gs.len(), |i: int| generic_m(gs[i]))
}

/// The value of a generic parameter: name and kind.
pub open spec fn generic_m(g: GenericParam) -> GenM {
    (g.name.name@, g.kind)
}

/// The values of a list of parameters.
pub open spec fn params_m(ps: Seq<Param>) -> Seq<ParamM> {
    Seq::new(ps.len(), |i: int| param_m(ps[i]))
}

/// The value of a parameter: name, type, quantity, mutability.
pub open spec fn param_m(p: Param) -> ParamM {
    (p.name.name@, ty_m(p.ty), p.quantity, p.mutability)
}

/// The names of a list of identifiers.
pub open spec fn names_m(xs: Seq<Ident>) -> Seq<Seq<char>> {
    Seq::new(xs.len(), |i: int| xs[i].name@)
}

/// The values of a list of enum variants: name and fields.
pub open spec fn variants_m(vs: Seq<Variant>) -> Seq<(Seq<char>, Seq<FieldM>)> {
    Seq::new(vs.len(), |i: int| variant_m(vs[i]))
}

/// The value of an enum variant: name and fields.
pub open spec fn variant_m(v: Variant) -> (Seq<char>, Seq<FieldM>) {
    (v.name.name@, fields_m(v.fields@))
}

/// The value of an item.
pub open spec fn item_m(it: Item) -> ItemM
    decreases it,
{
    match it {
        Item::Function(f) => ItemM::Function(
            f.name.name@,
            generics_m(f.generics@),
            params_m(f.params@),
            opt_ty_m(f.ret_ty),
            block_m(f.body),
            f.quantity,
        ),
        Item::TypeDef(td) => match td.kind {
            TypeDefKind::Struct(fs) => ItemM::Struct(td.name.name@, generics_m(td.generics@), fields_m(fs@)),
            TypeDefKind::Enum(vs) => ItemM::Enum(td.name.name@, generics_m(td.generics@), variants_m(vs@)),
            TypeDefKind::Alias(t) => ItemM::Alias(td.name.name@, ty_m(t)),
        },
        Item::Const(c) => ItemM::Const(c.name.name@, opt_ty_m(c.ty), expr_m(c.value)),
        Item::Import(im) => ItemM::Import(names_m(im.path@), match im.items {
            ImportItems::All => None,
            ImportItems::Specific(xs) => Some(names_m(xs@)),
        }),
        Item::Module(m) => ItemM::Module(m.name.name@, items_m(m.items@)),
    }
}

/// The values of a list of items.
pub open spec fn items_m(its: Seq<Item>) -> Seq<ItemM>
    decreases its,
{
    Seq::new(its.len(), |i: int|
        if 0 <= i < its.len() {
            item_m(its[i])
        } else {
            ItemM::Module(Seq::empty(), Seq::empty())
        })
}

/// A control-flow construct, which stands as a statement without `;`.
pub open spec fn cf_m(e: ExprM) -> bool {
    e is If || e is Match || e is For || e is While || e is Forall
}

/// The type with quantity `q` set on it and on each type nested in it
/// through arrays, type arguments, projections and reversible types.
pub open spec fn spread_m(t: TyM, q: Quantity) -> TyM
    decreases t,
{
    TyM {
        kind: match t.kind {
            TyKindM::Array(e, s) => TyKindM::Array(Box::new(spread_m(*e, q)), s),
            TyKindM::Named(x, args) => TyKindM::Named(x, Seq::new(args.len(), |i: int|
                if 0 <= i < args.len() {
                    match args[i] {
                        ArgM::Ty(a) => ArgM::Ty(spread_m(a, q)),
                        other => other,
                    }
                } else {
                    ArgM::Other
                })),
            TyKindM::Projection(e) => TyKindM::Projection(Box::new(spread_m(*e, q))),
            TyKindM::Reversible(e) => TyKindM::Reversible(Box::new(spread_m(*e, q))),
            k => k,
        },
        quantity: q,
    }
}


/// The values of a list with one more element at its end.
pub broadcast proof fn lemma_items_m_push(s: Seq<Item>, x: Item)
    ensures
        #[trigger] items_m(s.push(x)) == items_m(s).push(item_m(x)),
{
    assert(items_m(s.push(x)) =~= items_m(s).push(item_m(x)));
}

/// The values of a list with one more element at its end.
pub broadcast proof fn lemma_params_m_push(s: Seq<Param>, x: Param)
    ensures
        #[trigger] params_m(s.push(x)) == params_m(s).push(param_m(x)),
{
    assert(params_m(s.push(x)) =~= params_m(s).push(param_m(x)));
}

/// The values of a list with one more element at its end.
pub broadcast proof fn lemma_generics_m_push(s: Seq<GenericParam>, x: GenericParam)
    ensures
        #[trigger] generics_m(s.push(x)) == generics_m(s).push(generic_m(x)),
{
    assert(generics_m(s.push(x)) =~= generics_m(s).push(generic_m(x)));
}

/// The values of a list with one more element at its end.
pub broadcast proof fn lemma_fields_m_push(s: Seq<Field>, x: Field)
    ensures
        #[trigger] fields_m(s.push(x)) == fields_m(s).push(field_m(x)),
{
    assert(fields_m(s.push(x)) =~= fields_m(s).push(field_m(x)));
}

/// The values of a list with one more element at its end.
pub broadcast proof fn lemma_variants_m_push(s: Seq<Variant>, x: Variant)
    ensures
        #[trigger] variants_m(s.push(x)) == variants_m(s).push(variant_m(x)),
{
    assert(variants_m(s.push(x)) =~= variants_m(s).push(variant_m(x)));
}

/// The values of a list with one more element at its end.
pub broadcast proof fn lemma_names_m_push(s: Seq<Ident>, x: Ident)
    ensures
        #[trigger] names_m(s.push(x)) == names_m(s).push(x.name@),
{
    assert(names_m(s.push(x)) =~= names_m(s).push(x.name@));
}

/// The values of a list with one more element at its end.
pub broadcast proof fn lemma_args_m_push(s: Seq<TypeArg>, x: TypeArg)
    ensures
        #[trigger] args_m(s.push(x)) == args_m(s).push(arg_m(x)),
{
    assert(args_m(s.push(x)) =~= args_m(s).push(arg_m(x)));
}

/// The values of a list with one more element at its end.
pub broadcast proof fn lemma_exprs_m_push(s: Seq<Expr>, x: Expr)
    ensures
        #[trigger] exprs_m(s.push(x)) == exprs_m(s).push(expr_m(x)),
{
    assert(exprs_m(s.push(x)) =~= exprs_m(s).push(expr_m(x)));
}

/// The values of a list with one more element at its end.
pub broadcast proof fn lemma_field_exprs_m_push(s: Seq<FieldExpr>, x: FieldExpr)
    ensures
        #[trigger] field_exprs_m(s.push(x)) == field_exprs_m(s).push(field_expr_m(x)),
{
    assert(field_exprs_m(s.push(x)) =~= field_exprs_m(s).push(field_expr_m(x)));
}

/// The values of a list with one more element at its end.
pub broadcast proof fn lemma_arms_m_push(s: Seq<MatchArm>, x: MatchArm)
    ensures
        #[trigger] arms_m(s.push(x)) == arms_m(s).push(arm_m(x)),
{
    assert(arms_m(s.push(x)) =~= arms_m(s).push(arm_m(x)));
}

/// The values of a list with one more element at its end.
pub broadcast proof fn lemma_bindings_m_push(s: Seq<(Ident, Expr, Expr)>, x: (Ident, Expr, Expr))
    ensures
        #[trigger] bindings_m(s.push(x)) == bindings_m(s).push(binding_m(x)),
{
    assert(bindings_m(s.push(x)) =~= bindings_m(s).push(binding_m(x)));
}

/// The values of a list with one more element at its end.
pub broadcast proof fn lemma_pats_m_push(s: Seq<Pattern>, x: Pattern)
    ensures
        #[trigger] pats_m(s.push(x)) == pats_m(s).push(pat_m(x)),
{
    assert(pats_m(s.push(x)) =~= pats_m(s).push(pat_m(x)));
}

/// The values of a list with one more element at its end.
pub broadcast proof fn lemma_field_pats_m_push(s: Seq<FieldPattern>, x: FieldPattern)
    ensures
        #[trigger] field_pats_m(s.push(x)) == field_pats_m(s).push(field_pat_m(x)),
{
    assert(field_pats_m(s.push(x)) =~= field_pats_m(s).push(field_pat_m(x)));
}

/// The values of a list with one more element at its end.
pub broadcast proof fn lemma_stmts_m_push(s: Seq<Stmt>, x: Stmt)
    ensures
        #[trigger] stmts_m(s.push(x)) == stmts_m(s).push(stmt_m(x)),
{
    assert(stmts_m(s.push(x)) =~= stmts_m(s).push(stmt_m(x)));
}

/// The values of an empty list.
pub broadcast proof fn lemma_items_m_empty()
    ensures
        #[trigger] items_m(Seq::<Item>::empty()) == Seq::<ItemM>::empty(),
{
    assert(items_m(Seq::<Item>::empty()) =~= Seq::<ItemM>::empty());
}

/// The values of an empty list.
pub broadcast proof fn lemma_params_m_empty()
    ensures
        #[trigger] params_m(Seq::<Param>::empty()) == Seq::<ParamM>::empty(),
{
    assert(params_m(Seq::<Param>::empty()) =~= Seq::<ParamM>::empty());
}

/// The values of an empty list.
pub broadcast proof fn lemma_generics_m_empty()
    ensures
        #[trigger] generics_m(Seq::<GenericParam>::empty()) == Seq::<GenM>::empty(),
{
    assert(generics_m(Seq::<GenericParam>::empty()) =~= Seq::<GenM>::empty());
}

/// The values of an empty list.
pub broadcast proof fn lemma_fields_m_empty()
    ensures
        #[trigger] fields_m(Seq::<Field>::empty()) == Seq::<FieldM>::empty(),
{
    assert(fields_m(Seq::<Field>::empty()) =~= Seq::<FieldM>::empty());
}

/// The values of an empty list.
pub broadcast proof fn lemma_variants_m_empty()
    ensures
        #[trigger] variants_m(Seq::<Variant>::empty()) == Seq::<(Seq<char>, Seq<FieldM>)>::empty(),
{
    assert(variants_m(Seq::<Variant>::empty()) =~= Seq::<(Seq<char>, Seq<FieldM>)>::empty());
}

/// The values of an empty list.
pub broadcast proof fn lemma_names_m_empty()
    ensures
        #[trigger] names_m(Seq::<Ident>::empty()) == Seq::<Seq<char>>::empty(),
{
    assert(names_m(Seq::<Ident>::empty()) =~= Seq::<Seq<char>>::empty());
}

/// The values of an empty list.
pub broadcast proof fn lemma_args_m_empty()
    ensures
        #[trigger] args_m(Seq::<TypeArg>::empty()) == Seq::<ArgM>::empty(),
{
    assert(args_m(Seq::<TypeArg>::empty()) =~= Seq::<ArgM>::empty());
}

/// The values of an empty list.
pub broadcast proof fn lemma_exprs_m_empty()
    ensures
        #[trigger] exprs_m(Seq::<Expr>::empty()) == Seq::<ExprM>::empty(),
{
    assert(exprs_m(Seq::<Expr>::empty()) =~= Seq::<ExprM>::empty());
}

/// The values of an empty list.
pub broadcast proof fn lemma_field_exprs_m_empty()
    ensures
        #[trigger] field_exprs_m(Seq::<FieldExpr>::empty()) == Seq::<(Seq<char>, ExprM)>::empty(),
{
    assert(field_exprs_m(Seq::<FieldExpr>::empty()) =~= Seq::<(Seq<char>, ExprM)>::empty());
}

/// The values of an empty list.
pub broadcast proof fn lemma_arms_m_empty()
    ensures
        #[trigger] arms_m(Seq::<MatchArm>::empty()) == Seq::<(PatM, Option<ExprM>, ExprM)>::empty(),
{
    assert(arms_m(Seq::<MatchArm>::empty()) =~= Seq::<(PatM, Option<ExprM>, ExprM)>::empty());
}

/// The values of an empty list.
pub broadcast proof fn lemma_bindings_m_empty()
    ensures
        #[trigger] bindings_m(Seq::<(Ident, Expr, Expr)>::empty()) == Seq::<(Seq<char>, ExprM, ExprM)>::empty(),
{
    assert(bindings_m(Seq::<(Ident, Expr, Expr)>::empty()) =~= Seq::<(Seq<char>, ExprM, ExprM)>::empty());
}

/// The values of an empty list.
pub broadcast proof fn lemma_pats_m_empty()
    ensures
        #[trigger] pats_m(Seq::<Pattern>::empty()) == Seq::<PatM>::empty(),
{
    assert(pats_m(Seq::<Pattern>::empty()) =~= Seq::<PatM>::empty());
}

/// The values of an empty list.
pub broadcast proof fn lemma_field_pats_m_empty()
    ensures
        #[trigger] field_pats_m(Seq::<FieldPattern>::empty()) == Seq::<(Seq<char>, PatM)>::empty(),
{
    assert(field_pats_m(Seq::<FieldPattern>::empty()) =~= Seq::<(Seq<char>, PatM)>::empty());
}

/// The values of an empty list.
pub broadcast proof fn lemma_stmts_m_empty()
    ensures
        #[trigger] stmts_m(Seq::<Stmt>::empty()) == Seq::<StmtM>::empty(),
{
    assert(stmts_m(Seq::<Stmt>::empty()) =~= Seq::<StmtM>::empty());
}

pub broadcast group group_model_push {
    lemma_items_m_empty,
    lemma_params_m_empty,
    lemma_generics_m_empty,
    lemma_fields_m_empty,
    lemma_variants_m_empty,
    lemma_names_m_empty,
    lemma_args_m_empty,
    lemma_exprs_m_empty,
    lemma_field_exprs_m_empty,
    lemma_arms_m_empty,
    lemma_bindings_m_empty,
    lemma_pats_m_empty,
    lemma_field_pats_m_empty,
    lemma_stmts_m_empty,
    lemma_items_m_push,
    lemma_params_m_push,
    lemma_generics_m_push,
    lemma_fields_m_push,
    lemma_variants_m_push,
    lemma_names_m_push,
    lemma_args_m_push,
    lemma_exprs_m_push,
    lemma_field_exprs_m_push,
    lemma_arms_m_push,
    lemma_bindings_m_push,
    lemma_pats_m_push,
    lemma_field_pats_m_push,
    lemma_stmts_m_push,
}

} // verus!
