//! Quantities that a `let` annotation spreads over a pattern or a type.

use vstd::prelude::*;
use crate::ast::model::{args_m, arg_m, spread_m, ty_m, ArgM, TyKindM};
use crate::ast::pattern::{FieldPattern, Pattern, PatternKind};
use crate::ast::ty::{Type, TypeArg, TypeKind};
use crate::ast::Quantity;
use crate::parser::Parser;

verus! {

/// `n` is `o` with the quantity `q` set on it and on each pattern nested in
/// it through tuples, struct fields, variants, arrays, alternatives,
/// references, inout and consume patterns and guards; nothing else changes.
pub open spec fn qty_spread_pattern(o: Pattern, n: Pattern, q: Quantity) -> bool
    decreases o,
{
    &&& n.quantity == q
    &&& n.ty == o.ty
    &&& n.span == o.span
    &&& n.id == o.id
    &&& match o.kind {
        PatternKind::Tuple(a) => n.kind matches PatternKind::Tuple(b) && qty_spread_patterns(a@, b@, q),
        PatternKind::Struct(x, fa) => n.kind matches PatternKind::Struct(y, fb) && x == y && qty_spread_fields(fa@, fb@, q),
        PatternKind::Variant(e, v, a) => n.kind matches PatternKind::Variant(e2, v2, b) && e == e2 && v == v2
            && qty_spread_patterns(a@, b@, q),
        PatternKind::Array(a) => n.kind matches PatternKind::Array(b) && qty_spread_patterns(a@, b@, q),
        PatternKind::Or(a, b) => n.kind matches PatternKind::Or(a2, b2) && qty_spread_pattern(*a, *a2, q)
            && qty_spread_pattern(*b, *b2, q),
        PatternKind::Ref(a) => n.kind matches PatternKind::Ref(b) && qty_spread_pattern(*a, *b, q),
        PatternKind::InOut(a) => n.kind matches PatternKind::InOut(b) && qty_spread_pattern(*a, *b, q),
        PatternKind::Consume(a) => n.kind matches PatternKind::Consume(b) && qty_spread_pattern(*a, *b, q),
        PatternKind::Guard(p, g) => n.kind matches PatternKind::Guard(p2, g2) && qty_spread_pattern(*p, *p2, q) && g == g2,
        _ => n.kind == o.kind,
    }
}

/// Each pattern of `b` is its counterpart in `a` with `q` spread over it.
pub open spec fn qty_spread_patterns(a: Seq<Pattern>, b: Seq<Pattern>, q: Quantity) -> bool
    decreases a,
{
    &&& a.len() == b.len()
    &&& a.len() > 0 ==> qty_spread_patterns(a.drop_last(), b.drop_last(), q) && qty_spread_pattern(a.last(), b.last(), q)
}

/// Each field of `b` is its counterpart in `a` with `q` spread over its
/// pattern.
pub open spec fn qty_spread_fields(a: Seq<FieldPattern>, b: Seq<FieldPattern>, q: Quantity) -> bool
    decreases a,
{
    &&& a.len() == b.len()
    &&& a.len() > 0 ==> {
        &&& qty_spread_fields(a.drop_last(), b.drop_last(), q)
        &&& b.last().name == a.last().name
        &&& b.last().span == a.last().span
        &&& qty_spread_pattern(a.last().pattern, b.last().pattern, q)
    }
}

proof fn lemma_spread_patterns_step(a: Seq<Pattern>, b: Seq<Pattern>, q: Quantity, k: int)
    requires
        0 <= k < a.len(),
        a.len() == b.len(),
        qty_spread_patterns(a.take(k), b.take(k), q),
        qty_spread_pattern(a[k], b[k], q),
    ensures
        qty_spread_patterns(a.take(k + 1), b.take(k + 1), q),
{
    assert(a.take(k + 1).drop_last() =~= a.take(k));
    assert(b.take(k + 1).drop_last() =~= b.take(k));
}

proof fn lemma_spread_fields_step(a: Seq<FieldPattern>, b: Seq<FieldPattern>, q: Quantity, k: int)
    requires
        0 <= k < a.len(),
        a.len() == b.len(),
        qty_spread_fields(a.take(k), b.take(k), q),
        b[k].name == a[k].name,
        b[k].span == a[k].span,
        qty_spread_pattern(a[k].pattern, b[k].pattern, q),
    ensures
        qty_spread_fields(a.take(k + 1), b.take(k + 1), q),
{
    assert(a.take(k + 1).drop_last() =~= a.take(k));
    assert(b.take(k + 1).drop_last() =~= b.take(k));
}

impl<'a> Parser<'a> {
    /// Sets a quantity on a pattern and on every pattern nested in it.
    pub fn apply_quantity_to_pattern(pattern: &mut Pattern, qty: Quantity)
        ensures
            qty_spread_pattern(*old(pattern), *final(pattern), qty),
        decreases *old(pattern), 1nat,
    {
        pattern.quantity = qty;
        match &mut pattern.kind {
            PatternKind::Tuple(items) => Self::apply_quantity_to_patterns(items, qty),
            PatternKind::Struct(_, fields) => Self::apply_quantity_to_fields(fields, qty),
            PatternKind::Variant(_, _, items) => Self::apply_quantity_to_patterns(items, qty),
            PatternKind::Array(items) => Self::apply_quantity_to_patterns(items, qty),
            PatternKind::Or(a, b) => {
                Self::apply_quantity_to_pattern(&mut **a, qty);
                Self::apply_quantity_to_pattern(&mut **b, qty);
            },
            PatternKind::Ref(p) => Self::apply_quantity_to_pattern(&mut **p, qty),
            PatternKind::InOut(p) => Self::apply_quantity_to_pattern(&mut **p, qty),
            PatternKind::Consume(p) => Self::apply_quantity_to_pattern(&mut **p, qty),
            PatternKind::Guard(p, _) => Self::apply_quantity_to_pattern(&mut **p, qty),
            _ => {},
        }
    }

    fn apply_quantity_to_patterns(items: &mut Vec<Pattern>, qty: Quantity)
        ensures
            qty_spread_patterns(old(items)@, final(items)@, qty),
        decreases *old(items), 0nat,
    {
        let ghost o = items@;
        let mut k: usize = 0;
        assert(o.take(0) =~= Seq::<Pattern>::empty());
        assert(items@.take(0) =~= Seq::<Pattern>::empty());
        while k < items.len()
            invariant
                o == old(items)@,
                items@.len() == o.len(),
                k <= o.len(),
                qty_spread_patterns(o.take(k as int), items@.take(k as int), qty),
                forall|j: int| k <= j < o.len() ==> items@[j] == o[j],
            decreases o.len() - k,
        {
            let ghost before = items@;
            proof {
                assert(items@[k as int] == o[k as int]);
                assert(decreases_to!(*old(items) => o[k as int]));
            }
            Self::apply_quantity_to_pattern(&mut items[k], qty);
            proof {
                assert(items@.take(k as int) =~= before.take(k as int));
                lemma_spread_patterns_step(o, items@, qty, k as int);
            }
            k = k + 1;
        }
        assert(o.take(o.len() as int) =~= o);
        assert(items@.take(o.len() as int) =~= items@);
    }

    fn apply_quantity_to_fields(fields: &mut Vec<FieldPattern>, qty: Quantity)
        ensures
            qty_spread_fields(old(fields)@, final(fields)@, qty),
        decreases *old(fields), 0nat,
    {
        let ghost o = fields@;
        let mut k: usize = 0;
        assert(o.take(0) =~= Seq::<FieldPattern>::empty());
        assert(fields@.take(0) =~= Seq::<FieldPattern>::empty());
        while k < fields.len()
            invariant
                o == old(fields)@,
                fields@.len() == o.len(),
                k <= o.len(),
                qty_spread_fields(o.take(k as int), fields@.take(k as int), qty),
                forall|j: int| k <= j < o.len() ==> fields@[j] == o[j],
            decreases o.len() - k,
        {
            let ghost before = fields@;
            proof {
                assert(fields@[k as int] == o[k as int]);
                assert(decreases_to!(*old(fields) => o[k as int].pattern));
            }
            Self::apply_quantity_to_pattern(&mut fields[k].pattern, qty);
            proof {
                assert(fields@.take(k as int) =~= before.take(k as int));
                lemma_spread_fields_step(o, fields@, qty, k as int);
            }
            k = k + 1;
        }
        assert(o.take(o.len() as int) =~= o);
        assert(fields@.take(o.len() as int) =~= fields@);
    }
}


/// `n` is `o` with the quantity `q` set on it and on each type nested in it
/// through tuples, arrays, type arguments, function types, projections and
/// reversible types; nothing else changes.
pub open spec fn qty_spread_type(o: Type, n: Type, q: Quantity) -> bool
    decreases o,
{
    &&& n.quantity == q
    &&& n.span == o.span
    &&& match o.kind {
        TypeKind::Tuple(a) => n.kind matches TypeKind::Tuple(b) && qty_spread_types(a@, b@, q),
        TypeKind::Array(e, s) => n.kind matches TypeKind::Array(e2, s2) && qty_spread_type(*e, *e2, q) && s == s2,
        TypeKind::Named(x, args) => n.kind matches TypeKind::Named(y, args2) && x == y && qty_spread_args(args@, args2@, q),
        TypeKind::Function(ps, r) => n.kind matches TypeKind::Function(ps2, r2) && qty_spread_types(ps@, ps2@, q)
            && qty_spread_type(*r, *r2, q),
        TypeKind::Projection(a) => n.kind matches TypeKind::Projection(b) && qty_spread_type(*a, *b, q),
        TypeKind::Reversible(a) => n.kind matches TypeKind::Reversible(b) && qty_spread_type(*a, *b, q),
        _ => n.kind == o.kind,
    }
}

/// Each type of `b` is its counterpart in `a` with `q` spread over it.
pub open spec fn qty_spread_types(a: Seq<Type>, b: Seq<Type>, q: Quantity) -> bool
    decreases a,
{
    &&& a.len() == b.len()
    &&& a.len() > 0 ==> qty_spread_types(a.drop_last(), b.drop_last(), q) && qty_spread_type(a.last(), b.last(), q)
}

/// Each type argument of `b` is its counterpart in `a`, with `q` spread over
/// it when it is a type.
pub open spec fn qty_spread_args(a: Seq<TypeArg>, b: Seq<TypeArg>, q: Quantity) -> bool
    decreases a,
{
    &&& a.len() == b.len()
    &&& a.len() > 0 ==> {
        &&& qty_spread_args(a.drop_last(), b.drop_last(), q)
        &&& match a.last() {
            TypeArg::Type(t) => b.last() matches TypeArg::Type(t2) && qty_spread_type(t, t2, q),
            _ => b.last() == a.last(),
        }
    }
}

proof fn lemma_spread_types_step(a: Seq<Type>, b: Seq<Type>, q: Quantity, k: int)
    requires
        0 <= k < a.len(),
        a.len() == b.len(),
        qty_spread_types(a.take(k), b.take(k), q),
        qty_spread_type(a[k], b[k], q),
    ensures
        qty_spread_types(a.take(k + 1), b.take(k + 1), q),
{
    assert(a.take(k + 1).drop_last() =~= a.take(k));
    assert(b.take(k + 1).drop_last() =~= b.take(k));
}

proof fn lemma_spread_args_step(a: Seq<TypeArg>, b: Seq<TypeArg>, q: Quantity, k: int)
    requires
        0 <= k < a.len(),
        a.len() == b.len(),
        qty_spread_args(a.take(k), b.take(k), q),
        match a[k] {
            TypeArg::Type(t) => b[k] matches TypeArg::Type(t2) && qty_spread_type(t, t2, q),
            _ => b[k] == a[k],
        },
    ensures
        qty_spread_args(a.take(k + 1), b.take(k + 1), q),
{
    assert(a.take(k + 1).drop_last() =~= a.take(k));
    assert(b.take(k + 1).drop_last() =~= b.take(k));
}

proof fn lemma_spread_args_at(a: Seq<TypeArg>, b: Seq<TypeArg>, q: Quantity, i: int)
    requires
        qty_spread_args(a, b, q),
        0 <= i < a.len(),
    ensures
        a.len() == b.len(),
        match a[i] {
            TypeArg::Type(t) => b[i] matches TypeArg::Type(t2) && qty_spread_type(t, t2, q),
            _ => b[i] == a[i],
        },
    decreases a.len(),
{
    if i < a.len() - 1 {
        lemma_spread_args_at(a.drop_last(), b.drop_last(), q, i);
        assert(a.drop_last()[i] == a[i]);
        assert(b.drop_last()[i] == b[i]);
    }
}

/// Spreading a quantity over a type spreads it over the type's value.
pub proof fn lemma_spread_model(o: Type, n: Type, q: Quantity)
    requires
        qty_spread_type(o, n, q),
    ensures
        ty_m(n) == spread_m(ty_m(o), q),
    decreases o,
{
    match o.kind {
        TypeKind::Array(e, sz) => {
            let e2 = n.kind->Array_0;
            assert(n.kind->Array_1 == sz);
            lemma_spread_model(*e, *e2, q);
            assert(ty_m(n).kind == spread_m(ty_m(o), q).kind);
            assert(ty_m(n).quantity == spread_m(ty_m(o), q).quantity);
            assert(ty_m(n) == spread_m(ty_m(o), q));
        },
        TypeKind::Named(_, args) => {
            let args2 = n.kind->Named_1;
            let a = args@;
            let b = args2@;
            let ma = args_m(a);
            assert(qty_spread_type(o, n, q));
            assert(qty_spread_args(a, b, q));
            assert(a.len() == b.len());
            let sp = Seq::new(ma.len(), |i: int|
                if 0 <= i < ma.len() {
                    match ma[i] {
                        ArgM::Ty(x) => ArgM::Ty(spread_m(x, q)),
                        other => other,
                    }
                } else {
                    ArgM::Other
                });
            assert forall|i: int| 0 <= i < a.len() implies #[trigger] args_m(b)[i] == sp[i] by {
                lemma_spread_args_at(a, b, q, i);
                assert(ma[i] == arg_m(a[i]));
                assert(args_m(b)[i] == arg_m(b[i]));
                match a[i] {
                    TypeArg::Type(t) => {
                        let t2 = b[i]->Type_0;
                        assert(decreases_to!(o => t));
                        lemma_spread_model(t, t2, q);
                    },
                    _ => {},
                }
            }
            assert(args_m(b) =~= sp);
            assert(spread_m(ty_m(o), q).kind->Named_1 =~= sp);
        },
        TypeKind::Projection(e) => {
            lemma_spread_model(*e, *(n.kind->Projection_0), q);
        },
        TypeKind::Reversible(e) => {
            lemma_spread_model(*e, *(n.kind->Reversible_0), q);
        },
        _ => {
            assert(ty_m(n) == spread_m(ty_m(o), q));
        },
    }
}

impl<'a> Parser<'a> {
    /// Sets a quantity on a type and on every type nested in it.
    pub fn apply_quantity_to_type(ty: &mut Type, qty: Quantity)
        ensures
            qty_spread_type(*old(ty), *final(ty), qty),
        decreases *old(ty), 1nat,
    {
        ty.quantity = qty;
        match &mut ty.kind {
            TypeKind::Tuple(elems) => Self::apply_quantity_to_types(elems, qty),
            TypeKind::Array(elem, _) => Self::apply_quantity_to_type(&mut **elem, qty),
            TypeKind::Named(_, args) => Self::apply_quantity_to_args(args, qty),
            TypeKind::Function(params, ret) => {
                Self::apply_quantity_to_types(params, qty);
                Self::apply_quantity_to_type(&mut **ret, qty);
            },
            TypeKind::Projection(inner) => Self::apply_quantity_to_type(&mut **inner, qty),
            TypeKind::Reversible(inner) => Self::apply_quantity_to_type(&mut **inner, qty),
            _ => {},
        }
    }

    fn apply_quantity_to_types(items: &mut Vec<Type>, qty: Quantity)
        ensures
            qty_spread_types(old(items)@, final(items)@, qty),
        decreases *old(items), 0nat,
    {
        let ghost o = items@;
        let mut k: usize = 0;
        assert(o.take(0) =~= Seq::<Type>::empty());
        assert(items@.take(0) =~= Seq::<Type>::empty());
        while k < items.len()
            invariant
                o == old(items)@,
                items@.len() == o.len(),
                k <= o.len(),
                qty_spread_types(o.take(k as int), items@.take(k as int), qty),
                forall|j: int| k <= j < o.len() ==> items@[j] == o[j],
            decreases o.len() - k,
        {
            let ghost before = items@;
            proof {
                assert(items@[k as int] == o[k as int]);
                assert(decreases_to!(*old(items) => o[k as int]));
            }
            Self::apply_quantity_to_type(&mut items[k], qty);
            proof {
                assert(items@.take(k as int) =~= before.take(k as int));
                lemma_spread_types_step(o, items@, qty, k as int);
            }
            k = k + 1;
        }
        assert(o.take(o.len() as int) =~= o);
        assert(items@.take(o.len() as int) =~= items@);
    }

    fn apply_quantity_to_args(args: &mut Vec<TypeArg>, qty: Quantity)
        ensures
            qty_spread_args(old(args)@, final(args)@, qty),
        decreases *old(args), 0nat,
    {
        let ghost o = args@;
        let mut k: usize = 0;
        assert(o.take(0) =~= Seq::<TypeArg>::empty());
        assert(args@.take(0) =~= Seq::<TypeArg>::empty());
        while k < args.len()
            invariant
                o == old(args)@,
                args@.len() == o.len(),
                k <= o.len(),
                qty_spread_args(o.take(k as int), args@.take(k as int), qty),
                forall|j: int| k <= j < o.len() ==> args@[j] == o[j],
            decreases o.len() - k,
        {
            let ghost before = args@;
            proof {
                assert(args@[k as int] == o[k as int]);
            }
            match &mut args[k] {
                TypeArg::Type(t) => {
                    proof {
                        assert(decreases_to!(*old(args) => o[k as int]->Type_0));
                    }
                    Self::apply_quantity_to_type(t, qty);
                },
                _ => {},
            }
            proof {
                assert(args@.take(k as int) =~= before.take(k as int));
                lemma_spread_args_step(o, args@, qty, k as int);
            }
            k = k + 1;
        }
        assert(o.take(o.len() as int) =~= o);
        assert(args@.take(o.len() as int) =~= args@);
    }
}

} // verus!
