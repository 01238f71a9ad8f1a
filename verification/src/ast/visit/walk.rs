//! The default traversal of each node: its children, in source order,
//! through the visitor, stopping at the first child whose visit says `Stop`
//! or fails.

use vstd::prelude::*;
use crate::ast::expr::{Expr, ExprKind, FieldExpr, MatchArm, QuantumOp, ReversibleBlock, UncomputeStep};
use crate::ast::items::{Block, ConstDef, Field, Function, Item, Module, Program, TypeDef, TypeDefKind, Variant};
use crate::ast::ops::VisitOutcome;
use crate::ast::stmt::{Stmt, StmtKind};
use crate::ast::ty::{Type, TypeArg, TypeKind};
use crate::ast::visit::{VisitNode, Visitor};
use crate::ast::{Ident, Param};

verus! {

/// A visit's result that ends the traversal: an error or `Stop`.
pub open spec fn final_outcome<E>(r: Result<VisitOutcome, E>) -> bool {
    r is Err || r == Ok::<VisitOutcome, E>(VisitOutcome::Stop)
}

/// What a traversal does once its visits are made: give `Continue`, give
/// what one more visit gives, or walk a block.
pub enum VisitTail {
    Done,
    Visit(VisitNode),
    Walk(Block),
}

/// `Walk` ranks above the others.
pub open spec fn tail_rank(t: VisitTail) -> int {
    if t is Walk {
        1
    } else {
        0
    }
}

/// Visits of expressions.
pub open spec fn expr_nodes(s: Seq<Expr>) -> Seq<VisitNode> {
    s.map_values(|e: Expr| VisitNode::Expr(e))
}

/// Visits of types.
pub open spec fn type_nodes(s: Seq<Type>) -> Seq<VisitNode> {
    s.map_values(|t: Type| VisitNode::Type(t))
}

/// Visits of parameters.
pub open spec fn param_nodes(s: Seq<Param>) -> Seq<VisitNode> {
    s.map_values(|p: Param| VisitNode::Param(p))
}

/// Visits of items.
pub open spec fn item_nodes(s: Seq<Item>) -> Seq<VisitNode> {
    s.map_values(|i: Item| VisitNode::Item(i))
}

/// Visits of statements.
pub open spec fn stmt_nodes(s: Seq<Stmt>) -> Seq<VisitNode> {
    s.map_values(|st: Stmt| VisitNode::Stmt(st))
}

/// Visits of the values of field initialisers.
pub open spec fn field_value_nodes(s: Seq<FieldExpr>) -> Seq<VisitNode> {
    s.map_values(|f: FieldExpr| VisitNode::Expr(f.value))
}

/// Visits of the bodies of match arms.
pub open spec fn arm_nodes(s: Seq<MatchArm>) -> Seq<VisitNode> {
    s.map_values(|a: MatchArm| VisitNode::Expr(a.body))
}

/// Visits of the inverses of uncomputation steps.
pub open spec fn uncompute_nodes(s: Seq<UncomputeStep>) -> Seq<VisitNode> {
    s.map_values(|u: UncomputeStep| VisitNode::Expr(u.inverse_expr))
}

/// Visits of the types of fields.
pub open spec fn field_type_nodes(s: Seq<Field>) -> Seq<VisitNode> {
    s.map_values(|f: Field| VisitNode::Type(f.ty))
}

/// Visits of the lower and then the upper bound of each binding.
pub open spec fn bound_nodes(s: Seq<(Ident, Expr, Expr)>) -> Seq<VisitNode>
    decreases s.len(),
{
    if s.len() == 0 {
        Seq::empty()
    } else {
        seq![VisitNode::Expr(s[0].1), VisitNode::Expr(s[0].2)] + bound_nodes(s.drop_first())
    }
}

/// Visits of the type arguments that are types.
pub open spec fn type_arg_nodes(s: Seq<TypeArg>) -> Seq<VisitNode>
    decreases s.len(),
{
    if s.len() == 0 {
        Seq::empty()
    } else {
        match s[0] {
            TypeArg::Type(t) => seq![VisitNode::Type(t)] + type_arg_nodes(s.drop_first()),
            _ => type_arg_nodes(s.drop_first()),
        }
    }
}

/// Visits of the types of each variant's fields.
pub open spec fn variant_nodes(s: Seq<Variant>) -> Seq<VisitNode>
    decreases s.len(),
{
    if s.len() == 0 {
        Seq::empty()
    } else {
        field_type_nodes(s[0].fields@) + variant_nodes(s.drop_first())
    }
}

/// A visit of the expression, if there is one.
pub open spec fn opt_expr_nodes(e: Option<Box<Expr>>) -> Seq<VisitNode> {
    match e {
        Some(x) => seq![VisitNode::Expr(*x)],
        None => Seq::empty(),
    }
}

/// A visit of the type, if there is one.
pub open spec fn opt_type_nodes(t: Option<Type>) -> Seq<VisitNode> {
    match t {
        Some(x) => seq![VisitNode::Type(x)],
        None => Seq::empty(),
    }
}

/// The visits a walk of a block makes: its statements, then its trailing
/// expression.
pub open spec fn block_nodes(b: Block) -> Seq<VisitNode> {
    stmt_nodes(b.stmts@) + opt_expr_nodes(b.expr)
}

/// A traversal from the visitor `before` that makes the visits `nodes` in
/// order, ends at the first visit that fails or says `Stop` with that
/// visit's result, and otherwise finishes as `tail` says; it leaves `after`
/// and gives `r`.
pub open spec fn traversal<V: Visitor>(
    before: V,
    nodes: Seq<VisitNode>,
    tail: VisitTail,
    after: V,
    r: Result<VisitOutcome, V::Err>,
) -> bool
    decreases tail_rank(tail), nodes.len(),
{
    if nodes.len() == 0 {
        match tail {
            VisitTail::Done => after == before && r == Ok::<VisitOutcome, V::Err>(VisitOutcome::Continue),
            VisitTail::Visit(n) => V::visits(before, n, after, r),
            VisitTail::Walk(b) => traversal(before, block_nodes(b), VisitTail::Done, after, r),
        }
    } else {
        exists|mid: V, r1: Result<VisitOutcome, V::Err>|
            #[trigger] V::visits(before, nodes[0], mid, r1) && if final_outcome(r1) {
                after == mid && r == r1
            } else {
                traversal(mid, nodes.drop_first(), tail, after, r)
            }
    }
}

/// A traversal whose first visit goes on continues with the rest.
pub proof fn lemma_traversal_first<V: Visitor>(
    before: V,
    nodes: Seq<VisitNode>,
    tail: VisitTail,
    mid: V,
    r1: Result<VisitOutcome, V::Err>,
    after: V,
    r: Result<VisitOutcome, V::Err>,
)
    requires
        nodes.len() > 0,
        V::visits(before, nodes[0], mid, r1),
        final_outcome(r1) ==> after == mid && r == r1,
        !final_outcome(r1) ==> traversal(mid, nodes.drop_first(), tail, after, r),
    ensures
        traversal(before, nodes, tail, after, r),
{
}

/// A traversal of `a` then `b` is one of `a`, then, unless it ended early,
/// one of `b`.
pub proof fn lemma_traversal_then<V: Visitor>(
    before: V,
    a: Seq<VisitNode>,
    b: Seq<VisitNode>,
    tail: VisitTail,
    mid: V,
    r1: Result<VisitOutcome, V::Err>,
    after: V,
    r: Result<VisitOutcome, V::Err>,
)
    requires
        traversal(before, a, VisitTail::Done, mid, r1),
        final_outcome(r1) ==> after == mid && r == r1,
        !final_outcome(r1) ==> traversal(mid, b, tail, after, r),
    ensures
        traversal(before, a + b, tail, after, r),
    decreases a.len(),
{
    if a.len() == 0 {
        assert(a + b =~= b);
    } else {
        let (m0, q0) = choose|m0: V, q0: Result<VisitOutcome, V::Err>|
            #[trigger] V::visits(before, a[0], m0, q0) && if final_outcome(q0) {
                mid == m0 && r1 == q0
            } else {
                traversal(m0, a.drop_first(), VisitTail::Done, mid, r1)
            };
        assert((a + b)[0] == a[0]);
        assert((a + b).drop_first() =~= a.drop_first() + b);
        if !final_outcome(q0) {
            lemma_traversal_then(m0, a.drop_first(), b, tail, mid, r1, after, r);
        }
        lemma_traversal_first(before, a + b, tail, m0, q0, after, r);
    }
}

/// Whether a visit's result ends the traversal.
fn is_final<E>(r: &Result<VisitOutcome, E>) -> (b: bool)
    ensures
        b == final_outcome(*r),
{
    match r {
        Err(_) => true,
        Ok(o) => *o == VisitOutcome::Stop,
    }
}

/// Visits each expression in order, stopping at the first visit that fails or says `Stop`.
fn visit_each_expr<V: Visitor>(visitor: &mut V, xs: &Vec<Expr>) -> (r: Result<VisitOutcome, V::Err>)
    ensures
        traversal(*old(visitor), expr_nodes(xs@), VisitTail::Done, *final(visitor), r),
{
    let ghost v0 = *visitor;
    let ghost all = expr_nodes(xs@);
    let mut k: usize = 0;
    assert(all.skip(0) =~= all);
    while k < xs.len()
        invariant
            k <= xs@.len(),
            v0 == *old(visitor),
            all == expr_nodes(xs@),
            forall|a: V, q: Result<VisitOutcome, V::Err>|
                #[trigger] traversal(*visitor, all.skip(k as int), VisitTail::Done, a, q) ==> traversal(
                    v0,
                    all,
                    VisitTail::Done,
                    a,
                    q,
                ),
        decreases xs@.len() - k,
    {
        let ghost cur = *visitor;
        let r1 = visitor.visit_expr(&xs[k]);
        proof {
            let ns = all.skip(k as int);
            assert(ns[0] == VisitNode::Expr(xs@[k as int]));
            assert(ns.drop_first() =~= all.skip(k + 1));
            if final_outcome(r1) {
                lemma_traversal_first(cur, ns, VisitTail::Done, *visitor, r1, *visitor, r1);
            } else {
                assert forall|a: V, q: Result<VisitOutcome, V::Err>|
                    #[trigger] traversal(*visitor, all.skip(k + 1), VisitTail::Done, a, q) implies traversal(
                    v0,
                    all,
                    VisitTail::Done,
                    a,
                    q,
                ) by {
                    lemma_traversal_first(cur, ns, VisitTail::Done, *visitor, r1, a, q);
                }
            }
        }
        if is_final(&r1) {
            assert(traversal(cur, all.skip(k as int), VisitTail::Done, *visitor, r1));
            return r1;
        }
        k = k + 1;
    }
    assert(all.skip(k as int) =~= Seq::<VisitNode>::empty());
    assert(traversal(*visitor, all.skip(k as int), VisitTail::Done, *visitor, Ok::<VisitOutcome, V::Err>(VisitOutcome::Continue)));
    Ok(VisitOutcome::Continue)
}

/// Visits each type in order, stopping at the first visit that fails or says `Stop`.
fn visit_each_type<V: Visitor>(visitor: &mut V, xs: &Vec<Type>) -> (r: Result<VisitOutcome, V::Err>)
    ensures
        traversal(*old(visitor), type_nodes(xs@), VisitTail::Done, *final(visitor), r),
{
    let ghost v0 = *visitor;
    let ghost all = type_nodes(xs@);
    let mut k: usize = 0;
    assert(all.skip(0) =~= all);
    while k < xs.len()
        invariant
            k <= xs@.len(),
            v0 == *old(visitor),
            all == type_nodes(xs@),
            forall|a: V, q: Result<VisitOutcome, V::Err>|
                #[trigger] traversal(*visitor, all.skip(k as int), VisitTail::Done, a, q) ==> traversal(
                    v0,
                    all,
                    VisitTail::Done,
                    a,
                    q,
                ),
        decreases xs@.len() - k,
    {
        let ghost cur = *visitor;
        let r1 = visitor.visit_type(&xs[k]);
        proof {
            let ns = all.skip(k as int);
            assert(ns[0] == VisitNode::Type(xs@[k as int]));
            assert(ns.drop_first() =~= all.skip(k + 1));
            if final_outcome(r1) {
                lemma_traversal_first(cur, ns, VisitTail::Done, *visitor, r1, *visitor, r1);
            } else {
                assert forall|a: V, q: Result<VisitOutcome, V::Err>|
                    #[trigger] traversal(*visitor, all.skip(k + 1), VisitTail::Done, a, q) implies traversal(
                    v0,
                    all,
                    VisitTail::Done,
                    a,
                    q,
                ) by {
                    lemma_traversal_first(cur, ns, VisitTail::Done, *visitor, r1, a, q);
                }
            }
        }
        if is_final(&r1) {
            assert(traversal(cur, all.skip(k as int), VisitTail::Done, *visitor, r1));
            return r1;
        }
        k = k + 1;
    }
    assert(all.skip(k as int) =~= Seq::<VisitNode>::empty());
    assert(traversal(*visitor, all.skip(k as int), VisitTail::Done, *visitor, Ok::<VisitOutcome, V::Err>(VisitOutcome::Continue)));
    Ok(VisitOutcome::Continue)
}

/// Visits each parameter in order, stopping at the first visit that fails or says `Stop`.
fn visit_each_param<V: Visitor>(visitor: &mut V, xs: &Vec<Param>) -> (r: Result<VisitOutcome, V::Err>)
    ensures
        traversal(*old(visitor), param_nodes(xs@), VisitTail::Done, *final(visitor), r),
{
    let ghost v0 = *visitor;
    let ghost all = param_nodes(xs@);
    let mut k: usize = 0;
    assert(all.skip(0) =~= all);
    while k < xs.len()
        invariant
            k <= xs@.len(),
            v0 == *old(visitor),
            all == param_nodes(xs@),
            forall|a: V, q: Result<VisitOutcome, V::Err>|
                #[trigger] traversal(*visitor, all.skip(k as int), VisitTail::Done, a, q) ==> traversal(
                    v0,
                    all,
                    VisitTail::Done,
                    a,
                    q,
                ),
        decreases xs@.len() - k,
    {
        let ghost cur = *visitor;
        let r1 = visitor.visit_param(&xs[k]);
        proof {
            let ns = all.skip(k as int);
            assert(ns[0] == VisitNode::Param(xs@[k as int]));
            assert(ns.drop_first() =~= all.skip(k + 1));
            if final_outcome(r1) {
                lemma_traversal_first(cur, ns, VisitTail::Done, *visitor, r1, *visitor, r1);
            } else {
                assert forall|a: V, q: Result<VisitOutcome, V::Err>|
                    #[trigger] traversal(*visitor, all.skip(k + 1), VisitTail::Done, a, q) implies traversal(
                    v0,
                    all,
                    VisitTail::Done,
                    a,
                    q,
                ) by {
                    lemma_traversal_first(cur, ns, VisitTail::Done, *visitor, r1, a, q);
                }
            }
        }
        if is_final(&r1) {
            assert(traversal(cur, all.skip(k as int), VisitTail::Done, *visitor, r1));
            return r1;
        }
        k = k + 1;
    }
    assert(all.skip(k as int) =~= Seq::<VisitNode>::empty());
    assert(traversal(*visitor, all.skip(k as int), VisitTail::Done, *visitor, Ok::<VisitOutcome, V::Err>(VisitOutcome::Continue)));
    Ok(VisitOutcome::Continue)
}

/// Visits each item in order, stopping at the first visit that fails or says `Stop`.
fn visit_each_item<V: Visitor>(visitor: &mut V, xs: &Vec<Item>) -> (r: Result<VisitOutcome, V::Err>)
    ensures
        traversal(*old(visitor), item_nodes(xs@), VisitTail::Done, *final(visitor), r),
{
    let ghost v0 = *visitor;
    let ghost all = item_nodes(xs@);
    let mut k: usize = 0;
    assert(all.skip(0) =~= all);
    while k < xs.len()
        invariant
            k <= xs@.len(),
            v0 == *old(visitor),
            all == item_nodes(xs@),
            forall|a: V, q: Result<VisitOutcome, V::Err>|
                #[trigger] traversal(*visitor, all.skip(k as int), VisitTail::Done, a, q) ==> traversal(
                    v0,
                    all,
                    VisitTail::Done,
                    a,
                    q,
                ),
        decreases xs@.len() - k,
    {
        let ghost cur = *visitor;
        let r1 = visitor.visit_item(&xs[k]);
        proof {
            let ns = all.skip(k as int);
            assert(ns[0] == VisitNode::Item(xs@[k as int]));
            assert(ns.drop_first() =~= all.skip(k + 1));
            if final_outcome(r1) {
                lemma_traversal_first(cur, ns, VisitTail::Done, *visitor, r1, *visitor, r1);
            } else {
                assert forall|a: V, q: Result<VisitOutcome, V::Err>|
                    #[trigger] traversal(*visitor, all.skip(k + 1), VisitTail::Done, a, q) implies traversal(
                    v0,
                    all,
                    VisitTail::Done,
                    a,
                    q,
                ) by {
                    lemma_traversal_first(cur, ns, VisitTail::Done, *visitor, r1, a, q);
                }
            }
        }
        if is_final(&r1) {
            assert(traversal(cur, all.skip(k as int), VisitTail::Done, *visitor, r1));
            return r1;
        }
        k = k + 1;
    }
    assert(all.skip(k as int) =~= Seq::<VisitNode>::empty());
    assert(traversal(*visitor, all.skip(k as int), VisitTail::Done, *visitor, Ok::<VisitOutcome, V::Err>(VisitOutcome::Continue)));
    Ok(VisitOutcome::Continue)
}

/// Visits each statement in order, stopping at the first visit that fails or says `Stop`.
fn visit_each_stmt<V: Visitor>(visitor: &mut V, xs: &Vec<Stmt>) -> (r: Result<VisitOutcome, V::Err>)
    ensures
        traversal(*old(visitor), stmt_nodes(xs@), VisitTail::Done, *final(visitor), r),
{
    let ghost v0 = *visitor;
    let ghost all = stmt_nodes(xs@);
    let mut k: usize = 0;
    assert(all.skip(0) =~= all);
    while k < xs.len()
        invariant
            k <= xs@.len(),
            v0 == *old(visitor),
            all == stmt_nodes(xs@),
            forall|a: V, q: Result<VisitOutcome, V::Err>|
                #[trigger] traversal(*visitor, all.skip(k as int), VisitTail::Done, a, q) ==> traversal(
                    v0,
                    all,
                    VisitTail::Done,
                    a,
                    q,
                ),
        decreases xs@.len() - k,
    {
        let ghost cur = *visitor;
        let r1 = visitor.visit_stmt(&xs[k]);
        proof {
            let ns = all.skip(k as int);
            assert(ns[0] == VisitNode::Stmt(xs@[k as int]));
            assert(ns.drop_first() =~= all.skip(k + 1));
            if final_outcome(r1) {
                lemma_traversal_first(cur, ns, VisitTail::Done, *visitor, r1, *visitor, r1);
            } else {
                assert forall|a: V, q: Result<VisitOutcome, V::Err>|
                    #[trigger] traversal(*visitor, all.skip(k + 1), VisitTail::Done, a, q) implies traversal(
                    v0,
                    all,
                    VisitTail::Done,
                    a,
                    q,
                ) by {
                    lemma_traversal_first(cur, ns, VisitTail::Done, *visitor, r1, a, q);
                }
            }
        }
        if is_final(&r1) {
            assert(traversal(cur, all.skip(k as int), VisitTail::Done, *visitor, r1));
            return r1;
        }
        k = k + 1;
    }
    assert(all.skip(k as int) =~= Seq::<VisitNode>::empty());
    assert(traversal(*visitor, all.skip(k as int), VisitTail::Done, *visitor, Ok::<VisitOutcome, V::Err>(VisitOutcome::Continue)));
    Ok(VisitOutcome::Continue)
}

/// Visits the value of each field initialiser in order, stopping at the first visit that fails or says `Stop`.
fn visit_field_values<V: Visitor>(visitor: &mut V, xs: &Vec<FieldExpr>) -> (r: Result<VisitOutcome, V::Err>)
    ensures
        traversal(*old(visitor), field_value_nodes(xs@), VisitTail::Done, *final(visitor), r),
{
    let ghost v0 = *visitor;
    let ghost all = field_value_nodes(xs@);
    let mut k: usize = 0;
    assert(all.skip(0) =~= all);
    while k < xs.len()
        invariant
            k <= xs@.len(),
            v0 == *old(visitor),
            all == field_value_nodes(xs@),
            forall|a: V, q: Result<VisitOutcome, V::Err>|
                #[trigger] traversal(*visitor, all.skip(k as int), VisitTail::Done, a, q) ==> traversal(
                    v0,
                    all,
                    VisitTail::Done,
                    a,
                    q,
                ),
        decreases xs@.len() - k,
    {
        let ghost cur = *visitor;
        let r1 = visitor.visit_expr(&xs[k].value);
        proof {
            let ns = all.skip(k as int);
            assert(ns[0] == VisitNode::Expr(xs@[k as int].value));
            assert(ns.drop_first() =~= all.skip(k + 1));
            if final_outcome(r1) {
                lemma_traversal_first(cur, ns, VisitTail::Done, *visitor, r1, *visitor, r1);
            } else {
                assert forall|a: V, q: Result<VisitOutcome, V::Err>|
                    #[trigger] traversal(*visitor, all.skip(k + 1), VisitTail::Done, a, q) implies traversal(
                    v0,
                    all,
                    VisitTail::Done,
                    a,
                    q,
                ) by {
                    lemma_traversal_first(cur, ns, VisitTail::Done, *visitor, r1, a, q);
                }
            }
        }
        if is_final(&r1) {
            assert(traversal(cur, all.skip(k as int), VisitTail::Done, *visitor, r1));
            return r1;
        }
        k = k + 1;
    }
    assert(all.skip(k as int) =~= Seq::<VisitNode>::empty());
    assert(traversal(*visitor, all.skip(k as int), VisitTail::Done, *visitor, Ok::<VisitOutcome, V::Err>(VisitOutcome::Continue)));
    Ok(VisitOutcome::Continue)
}

/// Visits the body of each match arm in order, stopping at the first visit that fails or says `Stop`.
fn visit_arm_bodies<V: Visitor>(visitor: &mut V, xs: &Vec<MatchArm>) -> (r: Result<VisitOutcome, V::Err>)
    ensures
        traversal(*old(visitor), arm_nodes(xs@), VisitTail::Done, *final(visitor), r),
{
    let ghost v0 = *visitor;
    let ghost all = arm_nodes(xs@);
    let mut k: usize = 0;
    assert(all.skip(0) =~= all);
    while k < xs.len()
        invariant
            k <= xs@.len(),
            v0 == *old(visitor),
            all == arm_nodes(xs@),
            forall|a: V, q: Result<VisitOutcome, V::Err>|
                #[trigger] traversal(*visitor, all.skip(k as int), VisitTail::Done, a, q) ==> traversal(
                    v0,
                    all,
                    VisitTail::Done,
                    a,
                    q,
                ),
        decreases xs@.len() - k,
    {
        let ghost cur = *visitor;
        let r1 = visitor.visit_expr(&xs[k].body);
        proof {
            let ns = all.skip(k as int);
            assert(ns[0] == VisitNode::Expr(xs@[k as int].body));
            assert(ns.drop_first() =~= all.skip(k + 1));
            if final_outcome(r1) {
                lemma_traversal_first(cur, ns, VisitTail::Done, *visitor, r1, *visitor, r1);
            } else {
                assert forall|a: V, q: Result<VisitOutcome, V::Err>|
                    #[trigger] traversal(*visitor, all.skip(k + 1), VisitTail::Done, a, q) implies traversal(
                    v0,
                    all,
                    VisitTail::Done,
                    a,
                    q,
                ) by {
                    lemma_traversal_first(cur, ns, VisitTail::Done, *visitor, r1, a, q);
                }
            }
        }
        if is_final(&r1) {
            assert(traversal(cur, all.skip(k as int), VisitTail::Done, *visitor, r1));
            return r1;
        }
        k = k + 1;
    }
    assert(all.skip(k as int) =~= Seq::<VisitNode>::empty());
    assert(traversal(*visitor, all.skip(k as int), VisitTail::Done, *visitor, Ok::<VisitOutcome, V::Err>(VisitOutcome::Continue)));
    Ok(VisitOutcome::Continue)
}

/// Visits the inverse of each uncomputation step in order, stopping at the first visit that fails or says `Stop`.
fn visit_uncomputes<V: Visitor>(visitor: &mut V, xs: &Vec<UncomputeStep>) -> (r: Result<VisitOutcome, V::Err>)
    ensures
        traversal(*old(visitor), uncompute_nodes(xs@), VisitTail::Done, *final(visitor), r),
{
    let ghost v0 = *visitor;
    let ghost all = uncompute_nodes(xs@);
    let mut k: usize = 0;
    assert(all.skip(0) =~= all);
    while k < xs.len()
        invariant
            k <= xs@.len(),
            v0 == *old(visitor),
            all == uncompute_nodes(xs@),
            forall|a: V, q: Result<VisitOutcome, V::Err>|
                #[trigger] traversal(*visitor, all.skip(k as int), VisitTail::Done, a, q) ==> traversal(
                    v0,
                    all,
                    VisitTail::Done,
                    a,
                    q,
                ),
        decreases xs@.len() - k,
    {
        let ghost cur = *visitor;
        let r1 = visitor.visit_expr(&xs[k].inverse_expr);
        proof {
            let ns = all.skip(k as int);
            assert(ns[0] == VisitNode::Expr(xs@[k as int].inverse_expr));
            assert(ns.drop_first() =~= all.skip(k + 1));
            if final_outcome(r1) {
                lemma_traversal_first(cur, ns, VisitTail::Done, *visitor, r1, *visitor, r1);
            } else {
                assert forall|a: V, q: Result<VisitOutcome, V::Err>|
                    #[trigger] traversal(*visitor, all.skip(k + 1), VisitTail::Done, a, q) implies traversal(
                    v0,
                    all,
                    VisitTail::Done,
                    a,
                    q,
                ) by {
                    lemma_traversal_first(cur, ns, VisitTail::Done, *visitor, r1, a, q);
                }
            }
        }
        if is_final(&r1) {
            assert(traversal(cur, all.skip(k as int), VisitTail::Done, *visitor, r1));
            return r1;
        }
        k = k + 1;
    }
    assert(all.skip(k as int) =~= Seq::<VisitNode>::empty());
    assert(traversal(*visitor, all.skip(k as int), VisitTail::Done, *visitor, Ok::<VisitOutcome, V::Err>(VisitOutcome::Continue)));
    Ok(VisitOutcome::Continue)
}

/// Visits the type of each field in order, stopping at the first visit that fails or says `Stop`.
fn visit_field_types<V: Visitor>(visitor: &mut V, xs: &Vec<Field>) -> (r: Result<VisitOutcome, V::Err>)
    ensures
        traversal(*old(visitor), field_type_nodes(xs@), VisitTail::Done, *final(visitor), r),
{
    let ghost v0 = *visitor;
    let ghost all = field_type_nodes(xs@);
    let mut k: usize = 0;
    assert(all.skip(0) =~= all);
    while k < xs.len()
        invariant
            k <= xs@.len(),
            v0 == *old(visitor),
            all == field_type_nodes(xs@),
            forall|a: V, q: Result<VisitOutcome, V::Err>|
                #[trigger] traversal(*visitor, all.skip(k as int), VisitTail::Done, a, q) ==> traversal(
                    v0,
                    all,
                    VisitTail::Done,
                    a,
                    q,
                ),
        decreases xs@.len() - k,
    {
        let ghost cur = *visitor;
        let r1 = visitor.visit_type(&xs[k].ty);
        proof {
            let ns = all.skip(k as int);
            assert(ns[0] == VisitNode::Type(xs@[k as int].ty));
            assert(ns.drop_first() =~= all.skip(k + 1));
            if final_outcome(r1) {
                lemma_traversal_first(cur, ns, VisitTail::Done, *visitor, r1, *visitor, r1);
            } else {
                assert forall|a: V, q: Result<VisitOutcome, V::Err>|
                    #[trigger] traversal(*visitor, all.skip(k + 1), VisitTail::Done, a, q) implies traversal(
                    v0,
                    all,
                    VisitTail::Done,
                    a,
                    q,
                ) by {
                    lemma_traversal_first(cur, ns, VisitTail::Done, *visitor, r1, a, q);
                }
            }
        }
        if is_final(&r1) {
            assert(traversal(cur, all.skip(k as int), VisitTail::Done, *visitor, r1));
            return r1;
        }
        k = k + 1;
    }
    assert(all.skip(k as int) =~= Seq::<VisitNode>::empty());
    assert(traversal(*visitor, all.skip(k as int), VisitTail::Done, *visitor, Ok::<VisitOutcome, V::Err>(VisitOutcome::Continue)));
    Ok(VisitOutcome::Continue)
}


/// Visits the expression, giving `Continue` unless the visit fails or says
/// `Stop`.
fn visit_one_expr<V: Visitor>(visitor: &mut V, e: &Expr) -> (r: Result<VisitOutcome, V::Err>)
    ensures
        traversal(*old(visitor), seq![VisitNode::Expr(*e)], VisitTail::Done, *final(visitor), r),
{
    let ghost v0 = *visitor;
    let r1 = visitor.visit_expr(e);
    let ghost ns = seq![VisitNode::Expr(*e)];
    assert(ns.drop_first() =~= Seq::<VisitNode>::empty());
    if is_final(&r1) {
        proof {
            lemma_traversal_first(v0, ns, VisitTail::Done, *visitor, r1, *visitor, r1);
        }
        return r1;
    }
    let r: Result<VisitOutcome, V::Err> = Ok(VisitOutcome::Continue);
    proof {
        assert(traversal(*visitor, ns.drop_first(), VisitTail::Done, *visitor, r));
        lemma_traversal_first(v0, ns, VisitTail::Done, *visitor, r1, *visitor, r);
    }
    r
}

/// Visits the type, giving `Continue` unless the visit fails or says
/// `Stop`.
fn visit_one_type<V: Visitor>(visitor: &mut V, t: &Type) -> (r: Result<VisitOutcome, V::Err>)
    ensures
        traversal(*old(visitor), seq![VisitNode::Type(*t)], VisitTail::Done, *final(visitor), r),
{
    let ghost v0 = *visitor;
    let r1 = visitor.visit_type(t);
    let ghost ns = seq![VisitNode::Type(*t)];
    assert(ns.drop_first() =~= Seq::<VisitNode>::empty());
    if is_final(&r1) {
        proof {
            lemma_traversal_first(v0, ns, VisitTail::Done, *visitor, r1, *visitor, r1);
        }
        return r1;
    }
    let r: Result<VisitOutcome, V::Err> = Ok(VisitOutcome::Continue);
    proof {
        assert(traversal(*visitor, ns.drop_first(), VisitTail::Done, *visitor, r));
        lemma_traversal_first(v0, ns, VisitTail::Done, *visitor, r1, *visitor, r);
    }
    r
}

/// Visits the types of each variant's fields in order, stopping at the
/// first visit that fails or says `Stop`.
fn visit_variant_fields<V: Visitor>(visitor: &mut V, vs: &Vec<Variant>) -> (r: Result<VisitOutcome, V::Err>)
    ensures
        traversal(*old(visitor), variant_nodes(vs@), VisitTail::Done, *final(visitor), r),
{
    let ghost v0 = *visitor;
    let mut i: usize = 0;
    assert(vs@.skip(0) =~= vs@);
    while i < vs.len()
        invariant
            i <= vs@.len(),
            v0 == *old(visitor),
            forall|a: V, q: Result<VisitOutcome, V::Err>|
                #[trigger] traversal(*visitor, variant_nodes(vs@.skip(i as int)), VisitTail::Done, a, q)
                    ==> traversal(v0, variant_nodes(vs@), VisitTail::Done, a, q),
        decreases vs@.len() - i,
    {
        let ghost cur = *visitor;
        let ghost rest = vs@.skip(i as int);
        let r1 = visit_field_types(visitor, &vs[i].fields);
        proof {
            assert(rest[0] == vs@[i as int]);
            assert(rest.drop_first() =~= vs@.skip(i + 1));
            assert(variant_nodes(rest) == field_type_nodes(rest[0].fields@) + variant_nodes(rest.drop_first()));
            if !final_outcome(r1) {
                assert forall|a: V, q: Result<VisitOutcome, V::Err>|
                    #[trigger] traversal(*visitor, variant_nodes(vs@.skip(i + 1)), VisitTail::Done, a, q)
                    implies traversal(v0, variant_nodes(vs@), VisitTail::Done, a, q) by {
                    lemma_traversal_then(cur, field_type_nodes(rest[0].fields@), variant_nodes(rest.drop_first()),
                        VisitTail::Done, *visitor, r1, a, q);
                }
            }
        }
        if is_final(&r1) {
            proof {
                lemma_traversal_then(cur, field_type_nodes(rest[0].fields@), variant_nodes(rest.drop_first()),
                    VisitTail::Done, *visitor, r1, *visitor, r1);
            }
            return r1;
        }
        i = i + 1;
    }
    assert(vs@.skip(i as int) =~= Seq::<Variant>::empty());
    assert(variant_nodes(vs@.skip(i as int)) =~= Seq::<VisitNode>::empty());
    assert(traversal(*visitor, variant_nodes(vs@.skip(i as int)), VisitTail::Done, *visitor, Ok::<VisitOutcome, V::Err>(VisitOutcome::Continue)));
    Ok(VisitOutcome::Continue)
}

/// Visits the lower and then the upper bound of each binding in order,
/// stopping at the first visit that fails or says `Stop`.
fn visit_bounds<V: Visitor>(visitor: &mut V, bs: &Vec<(Ident, Expr, Expr)>) -> (r: Result<VisitOutcome, V::Err>)
    ensures
        traversal(*old(visitor), bound_nodes(bs@), VisitTail::Done, *final(visitor), r),
{
    let ghost v0 = *visitor;
    let mut i: usize = 0;
    assert(bs@.skip(0) =~= bs@);
    while i < bs.len()
        invariant
            i <= bs@.len(),
            v0 == *old(visitor),
            forall|a: V, q: Result<VisitOutcome, V::Err>|
                #[trigger] traversal(*visitor, bound_nodes(bs@.skip(i as int)), VisitTail::Done, a, q)
                    ==> traversal(v0, bound_nodes(bs@), VisitTail::Done, a, q),
        decreases bs@.len() - i,
    {
        let ghost cur = *visitor;
        let ghost rest = bs@.skip(i as int);
        let ghost lo = seq![VisitNode::Expr(rest[0].1)];
        let ghost up = seq![VisitNode::Expr(rest[0].2)];
        let ghost later = bound_nodes(rest.drop_first());
        proof {
            assert(rest[0] == bs@[i as int]);
            assert(rest.drop_first() =~= bs@.skip(i + 1));
            assert(bound_nodes(rest) =~= lo + (up + later));
        }
        let r1 = visit_one_expr(visitor, &bs[i].1);
        let ghost m1 = *visitor;
        if is_final(&r1) {
            proof {
                lemma_traversal_then(cur, lo, up + later, VisitTail::Done, m1, r1, m1, r1);
            }
            return r1;
        }
        let r2 = visit_one_expr(visitor, &bs[i].2);
        proof {
            if final_outcome(r2) {
                lemma_traversal_then(m1, up, later, VisitTail::Done, *visitor, r2, *visitor, r2);
                lemma_traversal_then(cur, lo, up + later, VisitTail::Done, m1, r1, *visitor, r2);
            } else {
                assert forall|a: V, q: Result<VisitOutcome, V::Err>|
                    #[trigger] traversal(*visitor, bound_nodes(bs@.skip(i + 1)), VisitTail::Done, a, q)
                    implies traversal(v0, bound_nodes(bs@), VisitTail::Done, a, q) by {
                    lemma_traversal_then(m1, up, later, VisitTail::Done, *visitor, r2, a, q);
                    lemma_traversal_then(cur, lo, up + later, VisitTail::Done, m1, r1, a, q);
                }
            }
        }
        if is_final(&r2) {
            return r2;
        }
        i = i + 1;
    }
    assert(bs@.skip(i as int) =~= Seq::<(Ident, Expr, Expr)>::empty());
    assert(bound_nodes(bs@.skip(i as int)) =~= Seq::<VisitNode>::empty());
    assert(traversal(*visitor, bound_nodes(bs@.skip(i as int)), VisitTail::Done, *visitor, Ok::<VisitOutcome, V::Err>(VisitOutcome::Continue)));
    Ok(VisitOutcome::Continue)
}

/// Visits each type argument that is a type, in order, stopping at the
/// first visit that fails or says `Stop`.
fn visit_type_args<V: Visitor>(visitor: &mut V, args: &Vec<TypeArg>) -> (r: Result<VisitOutcome, V::Err>)
    ensures
        traversal(*old(visitor), type_arg_nodes(args@), VisitTail::Done, *final(visitor), r),
{
    let ghost v0 = *visitor;
    let mut i: usize = 0;
    assert(args@.skip(0) =~= args@);
    while i < args.len()
        invariant
            i <= args@.len(),
            v0 == *old(visitor),
            forall|a: V, q: Result<VisitOutcome, V::Err>|
                #[trigger] traversal(*visitor, type_arg_nodes(args@.skip(i as int)), VisitTail::Done, a, q)
                    ==> traversal(v0, type_arg_nodes(args@), VisitTail::Done, a, q),
        decreases args@.len() - i,
    {
        let ghost cur = *visitor;
        let ghost rest = args@.skip(i as int);
        proof {
            assert(rest[0] == args@[i as int]);
            assert(rest.drop_first() =~= args@.skip(i + 1));
        }
        if let TypeArg::Type(t) = &args[i] {
            let r1 = visit_one_type(visitor, t);
            proof {
                let one = seq![VisitNode::Type(*t)];
                assert(type_arg_nodes(rest) == one + type_arg_nodes(rest.drop_first()));
                if final_outcome(r1) {
                    lemma_traversal_then(cur, one, type_arg_nodes(rest.drop_first()), VisitTail::Done, *visitor, r1, *visitor, r1);
                } else {
                    assert forall|a: V, q: Result<VisitOutcome, V::Err>|
                        #[trigger] traversal(*visitor, type_arg_nodes(args@.skip(i + 1)), VisitTail::Done, a, q)
                        implies traversal(v0, type_arg_nodes(args@), VisitTail::Done, a, q) by {
                        lemma_traversal_then(cur, one, type_arg_nodes(rest.drop_first()), VisitTail::Done, *visitor, r1, a, q);
                    }
                }
            }
            if is_final(&r1) {
                return r1;
            }
        } else {
            assert(type_arg_nodes(rest) == type_arg_nodes(rest.drop_first()));
        }
        i = i + 1;
    }
    assert(args@.skip(i as int) =~= Seq::<TypeArg>::empty());
    assert(traversal(*visitor, type_arg_nodes(args@.skip(i as int)), VisitTail::Done, *visitor, Ok::<VisitOutcome, V::Err>(VisitOutcome::Continue)));
    Ok(VisitOutcome::Continue)
}


/// The one visit a walk of an item makes: its definition; an import has
/// none.
pub open spec fn item_tail(i: Item) -> VisitTail {
    match i {
        Item::Function(f) => VisitTail::Visit(VisitNode::Function(f)),
        Item::TypeDef(t) => VisitTail::Visit(VisitNode::TypeDef(t)),
        Item::Module(m) => VisitTail::Visit(VisitNode::Module(m)),
        Item::Import(_) => VisitTail::Done,
        Item::Const(c) => VisitTail::Visit(VisitNode::Const(c)),
    }
}

/// The visits a walk of a type definition makes: the types of a struct's
/// fields, of each variant's fields, or the aliased type.
pub open spec fn type_def_nodes(k: TypeDefKind) -> Seq<VisitNode> {
    match k {
        TypeDefKind::Struct(fields) => field_type_nodes(fields@),
        TypeDefKind::Enum(variants) => variant_nodes(variants@),
        TypeDefKind::Alias(t) => seq![VisitNode::Type(t)],
    }
}

/// A walk of a reversible block: the walk of its body, whose outcome is
/// passed over unless it fails, then the visit of each uncomputation's
/// inverse.
pub open spec fn reversible_walk<V: Visitor>(
    before: V,
    rb: ReversibleBlock,
    after: V,
    r: Result<VisitOutcome, V::Err>,
) -> bool {
    exists|mid: V, r1: Result<VisitOutcome, V::Err>|
        #[trigger] traversal(before, block_nodes(rb.body), VisitTail::Done, mid, r1) && if r1 is Err {
            after == mid && r == r1
        } else {
            traversal(mid, uncompute_nodes(rb.uncomputes@), VisitTail::Done, after, r)
        }
}

/// The one visit a walk of a statement other than a reversible block
/// makes, and what it gives: the value bound or evaluated, the item, the
/// value returned or broken with; none for the others.
pub open spec fn stmt_tail(k: StmtKind) -> VisitTail {
    match k {
        StmtKind::Let(l) => VisitTail::Visit(VisitNode::Expr(l.value)),
        StmtKind::LetInOut(l) => VisitTail::Visit(VisitNode::Expr(l.value)),
        StmtKind::LetConsume(l) => VisitTail::Visit(VisitNode::Expr(l.value)),
        StmtKind::Expr(e) => VisitTail::Visit(VisitNode::Expr(e)),
        StmtKind::Item(i) => VisitTail::Visit(VisitNode::Item(i)),
        StmtKind::Return(Some(e)) => VisitTail::Visit(VisitNode::Expr(e)),
        StmtKind::Break(Some(e)) => VisitTail::Visit(VisitNode::Expr(e)),
        _ => VisitTail::Done,
    }
}

/// A walk of a statement.
pub open spec fn stmt_walk<V: Visitor>(before: V, s: Stmt, after: V, r: Result<VisitOutcome, V::Err>) -> bool {
    match s.kind {
        StmtKind::Reversible(rb) => reversible_walk(before, rb, after, r),
        _ => traversal(before, Seq::empty(), stmt_tail(s.kind), after, r),
    }
}

/// The visits a walk of an expression makes before its last step: the
/// operands and callees before the last one, the arguments, elements and
/// field values, the condition and branches, the scrutinee and arm bodies,
/// a lambda's parameters, a loop's iterated value or bounds, a quantum
/// operation's operands.
pub open spec fn expr_children(k: ExprKind) -> Seq<VisitNode> {
    match k {
        ExprKind::Binary(_, l, _) => seq![VisitNode::Expr(*l)],
        ExprKind::Call(f, args) => seq![VisitNode::Expr(*f)] + expr_nodes(args@),
        ExprKind::MethodCall(recv, _, args) => seq![VisitNode::Expr(*recv)] + expr_nodes(args@),
        ExprKind::Index(b, _) => seq![VisitNode::Expr(*b)],
        ExprKind::Struct(_, fields) => field_value_nodes(fields@),
        ExprKind::Variant(_, _, args) => expr_nodes(args@),
        ExprKind::Tuple(items) => expr_nodes(items@),
        ExprKind::Array(items) => expr_nodes(items@),
        ExprKind::If(c, t, e) => seq![VisitNode::Expr(*c)] + (seq![VisitNode::Expr(*t)] + opt_expr_nodes(e)),
        ExprKind::Match(s, arms) => seq![VisitNode::Expr(*s)] + arm_nodes(arms@),
        ExprKind::Lambda(l) => param_nodes(l.params@),
        ExprKind::For(lp) => seq![VisitNode::Expr(lp.iter)],
        ExprKind::Forall(lp) => bound_nodes(lp.bindings@),
        ExprKind::While(c, _) => seq![VisitNode::Expr(*c)],
        ExprKind::Assign(l, _) => seq![VisitNode::Expr(*l)],
        ExprKind::QuantumOp(op) => match op {
            QuantumOp::Measure(e) => seq![VisitNode::Expr(*e)],
            QuantumOp::ApplyGate(_, args) => expr_nodes(args@),
            QuantumOp::Entangle(qs) => expr_nodes(qs@),
            QuantumOp::Phase(a, b) => seq![VisitNode::Expr(*a)] + seq![VisitNode::Expr(*b)],
            QuantumOp::Hamiltonian(a, b) => seq![VisitNode::Expr(*a)] + seq![VisitNode::Expr(*b)],
            _ => Seq::empty(),
        },
        _ => Seq::empty(),
    }
}

/// The last step of a walk of an expression: the visit of the last operand
/// or sub-expression, whose result it gives, or the walk of the body block.
pub open spec fn expr_tail(k: ExprKind) -> VisitTail {
    match k {
        ExprKind::Binary(_, _, r) => VisitTail::Visit(VisitNode::Expr(*r)),
        ExprKind::Unary(_, e) => VisitTail::Visit(VisitNode::Expr(*e)),
        ExprKind::Field(recv, _) => VisitTail::Visit(VisitNode::Expr(*recv)),
        ExprKind::Index(_, i) => VisitTail::Visit(VisitNode::Expr(*i)),
        ExprKind::Block(b) => VisitTail::Walk(*b),
        ExprKind::Let(l) => VisitTail::Visit(VisitNode::Expr(l.value)),
        ExprKind::LetInOut(l) => VisitTail::Visit(VisitNode::Expr(l.value)),
        ExprKind::LetConsume(l) => VisitTail::Visit(VisitNode::Expr(l.value)),
        ExprKind::Lambda(l) => VisitTail::Visit(VisitNode::Expr(*l.body)),
        ExprKind::For(lp) => VisitTail::Walk(lp.body),
        ExprKind::Forall(lp) => VisitTail::Walk(lp.body),
        ExprKind::While(_, b) => VisitTail::Visit(VisitNode::Expr(*b)),
        ExprKind::Return(Some(e)) => VisitTail::Visit(VisitNode::Expr(*e)),
        ExprKind::Break(Some(e)) => VisitTail::Visit(VisitNode::Expr(*e)),
        ExprKind::Assign(_, r) => VisitTail::Visit(VisitNode::Expr(*r)),
        ExprKind::Projection(e) => VisitTail::Visit(VisitNode::Expr(*e)),
        ExprKind::Ascribe(e, _) => VisitTail::Visit(VisitNode::Expr(*e)),
        _ => VisitTail::Done,
    }
}

/// A walk of an expression.
pub open spec fn expr_walk<V: Visitor>(before: V, e: Expr, after: V, r: Result<VisitOutcome, V::Err>) -> bool {
    match e.kind {
        ExprKind::Reversible(rb) => reversible_walk(before, *rb, after, r),
        _ => traversal(before, expr_children(e.kind), expr_tail(e.kind), after, r),
    }
}

/// The visits a walk of a type makes before its last step.
pub open spec fn type_children(k: TypeKind) -> Seq<VisitNode> {
    match k {
        TypeKind::Function(params, _) => type_nodes(params@),
        TypeKind::Named(_, args) => type_arg_nodes(args@),
        TypeKind::QRegister(dims) => type_nodes(dims@),
        TypeKind::Tensor(dims) => type_nodes(dims@),
        TypeKind::Tuple(elems) => type_nodes(elems@),
        TypeKind::Pi(_, d, _) => seq![VisitNode::Type(*d)],
        TypeKind::Sigma(_, f, _) => seq![VisitNode::Type(*f)],
        TypeKind::App(f, _) => seq![VisitNode::Type(*f)],
        _ => Seq::empty(),
    }
}

/// The last step of a walk of a type: the visit of its last component.
pub open spec fn type_tail(k: TypeKind) -> VisitTail {
    match k {
        TypeKind::Projection(i) => VisitTail::Visit(VisitNode::Type(*i)),
        TypeKind::Reversible(i) => VisitTail::Visit(VisitNode::Type(*i)),
        TypeKind::Function(_, ret) => VisitTail::Visit(VisitNode::Type(*ret)),
        TypeKind::Pi(_, _, c) => VisitTail::Visit(VisitNode::Type(*c)),
        TypeKind::Sigma(_, _, s) => VisitTail::Visit(VisitNode::Type(*s)),
        TypeKind::Lambda(_, b) => VisitTail::Visit(VisitNode::Type(*b)),
        TypeKind::App(_, a) => VisitTail::Visit(VisitNode::Type(*a)),
        TypeKind::Array(e, _) => VisitTail::Visit(VisitNode::Type(*e)),
        _ => VisitTail::Done,
    }
}

/// A traversal with no visits left that ends in one visit gives what that
/// visit gives.
pub proof fn lemma_traversal_visit<V: Visitor>(
    before: V,
    n: VisitNode,
    after: V,
    r: Result<VisitOutcome, V::Err>,
)
    requires
        V::visits(before, n, after, r),
    ensures
        traversal(before, Seq::empty(), VisitTail::Visit(n), after, r),
{
}


/// Whether a visit's result is an error.
fn is_error<E>(r: &Result<VisitOutcome, E>) -> (b: bool)
    ensures
        b == r is Err,
{
    match r {
        Err(_) => true,
        Ok(_) => false,
    }
}

/// Visits `first`, then, unless that ends the traversal, gives what the
/// visit of `last` gives.
fn expr_then_visit<V: Visitor>(visitor: &mut V, first: &Expr, last: &Expr) -> (r: Result<VisitOutcome, V::Err>)
    ensures
        traversal(*old(visitor), seq![VisitNode::Expr(*first)], VisitTail::Visit(VisitNode::Expr(*last)), *final(visitor), r),
{
    let ghost v0 = *visitor;
    let ghost a = seq![VisitNode::Expr(*first)];
    let ghost t = VisitTail::Visit(VisitNode::Expr(*last));
    assert(a + Seq::<VisitNode>::empty() =~= a);
    let r1 = visit_one_expr(visitor, first);
    let ghost m1 = *visitor;
    if is_final(&r1) {
        proof {
            lemma_traversal_then(v0, a, Seq::empty(), t, m1, r1, m1, r1);
        }
        return r1;
    }
    let r2 = visitor.visit_expr(last);
    proof {
        lemma_traversal_visit(m1, VisitNode::Expr(*last), *visitor, r2);
        lemma_traversal_then(v0, a, Seq::empty(), t, m1, r1, *visitor, r2);
    }
    r2
}

/// Visits `first`, then, unless that ends the traversal, each of `rest`.
fn expr_then_each<V: Visitor>(visitor: &mut V, first: &Expr, rest: &Vec<Expr>) -> (r: Result<VisitOutcome, V::Err>)
    ensures
        traversal(*old(visitor), seq![VisitNode::Expr(*first)] + expr_nodes(rest@), VisitTail::Done, *final(visitor), r),
{
    let ghost v0 = *visitor;
    let ghost a = seq![VisitNode::Expr(*first)];
    let r1 = visit_one_expr(visitor, first);
    let ghost m1 = *visitor;
    if is_final(&r1) {
        proof {
            lemma_traversal_then(v0, a, expr_nodes(rest@), VisitTail::Done, m1, r1, m1, r1);
        }
        return r1;
    }
    let r2 = visit_each_expr(visitor, rest);
    proof {
        lemma_traversal_then(v0, a, expr_nodes(rest@), VisitTail::Done, m1, r1, *visitor, r2);
    }
    r2
}

/// Visits `first`, then, unless that ends the traversal, walks `body`.
fn expr_then_walk<V: Visitor>(visitor: &mut V, first: &Expr, body: &Block) -> (r: Result<VisitOutcome, V::Err>)
    ensures
        traversal(*old(visitor), seq![VisitNode::Expr(*first)], VisitTail::Walk(*body), *final(visitor), r),
{
    let ghost v0 = *visitor;
    let ghost a = seq![VisitNode::Expr(*first)];
    let ghost t = VisitTail::Walk(*body);
    assert(a + Seq::<VisitNode>::empty() =~= a);
    let r1 = visit_one_expr(visitor, first);
    let ghost m1 = *visitor;
    if is_final(&r1) {
        proof {
            lemma_traversal_then(v0, a, Seq::empty(), t, m1, r1, m1, r1);
        }
        return r1;
    }
    let r2 = walk_block(visitor, body);
    proof {
        assert(traversal(m1, Seq::empty(), t, *visitor, r2));
        lemma_traversal_then(v0, a, Seq::empty(), t, m1, r1, *visitor, r2);
    }
    r2
}

/// Visits `first`, then, unless that ends the traversal, gives what the
/// visit of `last` gives.
fn type_then_visit<V: Visitor>(visitor: &mut V, first: &Type, last: &Type) -> (r: Result<VisitOutcome, V::Err>)
    ensures
        traversal(*old(visitor), seq![VisitNode::Type(*first)], VisitTail::Visit(VisitNode::Type(*last)), *final(visitor), r),
{
    let ghost v0 = *visitor;
    let ghost a = seq![VisitNode::Type(*first)];
    let ghost t = VisitTail::Visit(VisitNode::Type(*last));
    assert(a + Seq::<VisitNode>::empty() =~= a);
    let r1 = visit_one_type(visitor, first);
    let ghost m1 = *visitor;
    if is_final(&r1) {
        proof {
            lemma_traversal_then(v0, a, Seq::empty(), t, m1, r1, m1, r1);
        }
        return r1;
    }
    let r2 = visitor.visit_type(last);
    proof {
        lemma_traversal_visit(m1, VisitNode::Type(*last), *visitor, r2);
        lemma_traversal_then(v0, a, Seq::empty(), t, m1, r1, *visitor, r2);
    }
    r2
}

/// Visits each item of the program, in order, stopping at the first visit
/// that fails or says `Stop`.
pub fn walk_program<V: Visitor>(visitor: &mut V, program: &Program) -> (r: Result<VisitOutcome, V::Err>)
    ensures
        traversal(*old(visitor), item_nodes(program.items@), VisitTail::Done, *final(visitor), r),
{
    visit_each_item(visitor, &program.items)
}

/// Visits the definition an item holds and gives what that visit gives; an
/// import has nothing to visit.
pub fn walk_item<V: Visitor>(visitor: &mut V, item: &Item) -> (r: Result<VisitOutcome, V::Err>)
    ensures
        traversal(*old(visitor), Seq::empty(), item_tail(*item), *final(visitor), r),
{
    match item {
        Item::Function(f) => visitor.visit_function(f),
        Item::TypeDef(t) => visitor.visit_type_def(t),
        Item::Module(m) => visitor.visit_module(m),
        Item::Import(_) => Ok(VisitOutcome::Continue),
        Item::Const(c) => visitor.visit_const(c),
    }
}

/// Visits the parameters, then the return type, in order, and unless one
/// of those visits ends the traversal, gives what the visit of the body
/// gives.
pub fn walk_function<V: Visitor>(visitor: &mut V, function: &Function) -> (r: Result<VisitOutcome, V::Err>)
    ensures
        traversal(
            *old(visitor),
            param_nodes(function.params@) + opt_type_nodes(function.ret_ty),
            VisitTail::Visit(VisitNode::Block(function.body)),
            *final(visitor),
            r,
        ),
{
    let ghost v0 = *visitor;
    let ghost p = param_nodes(function.params@);
    let ghost o = opt_type_nodes(function.ret_ty);
    let ghost t = VisitTail::Visit(VisitNode::Block(function.body));
    assert(o + Seq::<VisitNode>::empty() =~= o);
    let r1 = visit_each_param(visitor, &function.params);
    let ghost m1 = *visitor;
    if is_final(&r1) {
        proof {
            lemma_traversal_then(v0, p, o, t, m1, r1, m1, r1);
        }
        return r1;
    }
    let r2 = match &function.ret_ty {
        Some(ty) => visit_one_type(visitor, ty),
        None => Ok(VisitOutcome::Continue),
    };
    let ghost m2 = *visitor;
    assert(traversal(m1, o, VisitTail::Done, m2, r2));
    if is_final(&r2) {
        proof {
            lemma_traversal_then(m1, o, Seq::empty(), t, m2, r2, m2, r2);
            lemma_traversal_then(v0, p, o, t, m1, r1, m2, r2);
        }
        return r2;
    }
    let r3 = visitor.visit_block(&function.body);
    proof {
        lemma_traversal_visit(m2, VisitNode::Block(function.body), *visitor, r3);
        lemma_traversal_then(m1, o, Seq::empty(), t, m2, r2, *visitor, r3);
        lemma_traversal_then(v0, p, o, t, m1, r1, *visitor, r3);
    }
    r3
}

/// Visits the types of a struct's fields, of each variant's fields, or the
/// aliased type, in order, stopping at the first visit that fails or says
/// `Stop`.
pub fn walk_type_def<V: Visitor>(visitor: &mut V, type_def: &TypeDef) -> (r: Result<VisitOutcome, V::Err>)
    ensures
        traversal(*old(visitor), type_def_nodes(type_def.kind), VisitTail::Done, *final(visitor), r),
{
    match &type_def.kind {
        TypeDefKind::Struct(fields) => visit_field_types(visitor, fields),
        TypeDefKind::Enum(variants) => visit_variant_fields(visitor, variants),
        TypeDefKind::Alias(t) => visit_one_type(visitor, t),
    }
}

/// Visits each item of the module, in order, stopping at the first visit
/// that fails or says `Stop`.
pub fn walk_module<V: Visitor>(visitor: &mut V, module: &Module) -> (r: Result<VisitOutcome, V::Err>)
    ensures
        traversal(*old(visitor), item_nodes(module.items@), VisitTail::Done, *final(visitor), r),
{
    visit_each_item(visitor, &module.items)
}

/// Visits the constant's type, where it has one, and unless that ends the
/// traversal gives what the visit of its value gives.
pub fn walk_const<V: Visitor>(visitor: &mut V, constant: &ConstDef) -> (r: Result<VisitOutcome, V::Err>)
    ensures
        traversal(
            *old(visitor),
            opt_type_nodes(constant.ty),
            VisitTail::Visit(VisitNode::Expr(constant.value)),
            *final(visitor),
            r,
        ),
{
    let ghost v0 = *visitor;
    let ghost o = opt_type_nodes(constant.ty);
    let ghost t = VisitTail::Visit(VisitNode::Expr(constant.value));
    assert(o + Seq::<VisitNode>::empty() =~= o);
    let r1 = match &constant.ty {
        Some(ty) => visit_one_type(visitor, ty),
        None => Ok(VisitOutcome::Continue),
    };
    let ghost m1 = *visitor;
    assert(traversal(v0, o, VisitTail::Done, m1, r1));
    if is_final(&r1) {
        proof {
            lemma_traversal_then(v0, o, Seq::empty(), t, m1, r1, m1, r1);
        }
        return r1;
    }
    let r2 = visitor.visit_expr(&constant.value);
    proof {
        lemma_traversal_visit(m1, VisitNode::Expr(constant.value), *visitor, r2);
        lemma_traversal_then(v0, o, Seq::empty(), t, m1, r1, *visitor, r2);
    }
    r2
}

/// Gives what the visit of the parameter's type gives.
pub fn walk_param<V: Visitor>(visitor: &mut V, param: &Param) -> (r: Result<VisitOutcome, V::Err>)
    ensures
        traversal(*old(visitor), Seq::empty(), VisitTail::Visit(VisitNode::Type(param.ty)), *final(visitor), r),
{
    visitor.visit_type(&param.ty)
}

/// Visits each statement, then the trailing expression, in order, stopping
/// at the first visit that fails or says `Stop`.
pub fn walk_block<V: Visitor>(visitor: &mut V, block: &Block) -> (r: Result<VisitOutcome, V::Err>)
    ensures
        traversal(*old(visitor), block_nodes(*block), VisitTail::Done, *final(visitor), r),
{
    let ghost v0 = *visitor;
    let ghost s = stmt_nodes(block.stmts@);
    let ghost o = opt_expr_nodes(block.expr);
    let r1 = visit_each_stmt(visitor, &block.stmts);
    let ghost m1 = *visitor;
    if is_final(&r1) {
        proof {
            lemma_traversal_then(v0, s, o, VisitTail::Done, m1, r1, m1, r1);
        }
        return r1;
    }
    let r2 = match &block.expr {
        Some(e) => visit_one_expr(visitor, e),
        None => Ok(VisitOutcome::Continue),
    };
    proof {
        assert(traversal(m1, o, VisitTail::Done, *visitor, r2));
        lemma_traversal_then(v0, s, o, VisitTail::Done, m1, r1, *visitor, r2);
    }
    r2
}

/// Walks the body of a reversible block, passing over its outcome unless
/// it fails, then visits each uncomputation's inverse.
fn walk_reversible<V: Visitor>(visitor: &mut V, rb: &ReversibleBlock) -> (r: Result<VisitOutcome, V::Err>)
    ensures
        reversible_walk(*old(visitor), *rb, *final(visitor), r),
{
    let ghost v0 = *visitor;
    let r1 = walk_block(visitor, &rb.body);
    let ghost m1 = *visitor;
    if is_error(&r1) {
        assert(traversal(v0, block_nodes(rb.body), VisitTail::Done, m1, r1));
        return r1;
    }
    let r2 = visit_uncomputes(visitor, &rb.uncomputes);
    assert(traversal(v0, block_nodes(rb.body), VisitTail::Done, m1, r1));
    r2
}

/// Gives what the visit of a binding's or an expression statement's value,
/// of an item statement's item, or of the value returned or broken with
/// gives; of a reversible block, walks its body and then visits each
/// uncomputation's inverse.
pub fn walk_stmt<V: Visitor>(visitor: &mut V, stmt: &Stmt) -> (r: Result<VisitOutcome, V::Err>)
    ensures
        stmt_walk(*old(visitor), *stmt, *final(visitor), r),
{
    match &stmt.kind {
        StmtKind::Let(l) => visitor.visit_expr(&l.value),
        StmtKind::LetInOut(l) => visitor.visit_expr(&l.value),
        StmtKind::LetConsume(l) => visitor.visit_expr(&l.value),
        StmtKind::Expr(e) => visitor.visit_expr(e),
        StmtKind::Reversible(rb) => walk_reversible(visitor, rb),
        StmtKind::Item(it) => visitor.visit_item(it),
        StmtKind::Return(opt) => match opt {
            Some(e) => visitor.visit_expr(e),
            None => Ok(VisitOutcome::Continue),
        },
        StmtKind::Break(opt) => match opt {
            Some(e) => visitor.visit_expr(e),
            None => Ok(VisitOutcome::Continue),
        },
        StmtKind::Continue => Ok(VisitOutcome::Continue),
        StmtKind::Empty | StmtKind::Error => Ok(VisitOutcome::Continue),
    }
}

/// Walks an expression: visits its sub-expressions in source order (the
/// operands, the callee before the arguments, the condition before the
/// branches, the scrutinee before each arm's body, each loop bound pair
/// before the body), a lambda's parameters before its body, and walks
/// nested blocks; it stops at the first visit that fails or says `Stop`,
/// and where the last step is one visit or walk it gives what that gives.
pub fn walk_expr<V: Visitor>(visitor: &mut V, expr: &Expr) -> (r: Result<VisitOutcome, V::Err>)
    ensures
        expr_walk(*old(visitor), *expr, *final(visitor), r),
{
    match &expr.kind {
        ExprKind::Literal(_) | ExprKind::Var(_) | ExprKind::Error => Ok(VisitOutcome::Continue),
        ExprKind::Binary(_, l, r) => expr_then_visit(visitor, l, r),
        ExprKind::Unary(_, e) => visitor.visit_expr(e),
        ExprKind::Call(fun, args) => expr_then_each(visitor, fun, args),
        ExprKind::MethodCall(recv, _, args) => expr_then_each(visitor, recv, args),
        ExprKind::Field(recv, _) => visitor.visit_expr(recv),
        ExprKind::Index(base, index) => expr_then_visit(visitor, base, index),
        ExprKind::Struct(_, fields) => visit_field_values(visitor, fields),
        ExprKind::Variant(_, _, args) => visit_each_expr(visitor, args),
        ExprKind::Tuple(items) => visit_each_expr(visitor, items),
        ExprKind::Array(items) => visit_each_expr(visitor, items),
        ExprKind::Block(b) => {
            let r = walk_block(visitor, b);
            assert(traversal(*old(visitor), Seq::empty(), VisitTail::Walk(**b), *visitor, r));
            r
        },
        ExprKind::If(cond, then, else_) => {
            let ghost v0 = *visitor;
            let ghost c = seq![VisitNode::Expr(**cond)];
            let ghost t = seq![VisitNode::Expr(**then)];
            let ghost o = opt_expr_nodes(*else_);
            let r1 = visit_one_expr(visitor, cond);
            let ghost m1 = *visitor;
            if is_final(&r1) {
                proof {
                    lemma_traversal_then(v0, c, t + o, VisitTail::Done, m1, r1, m1, r1);
                }
                return r1;
            }
            let r2 = visit_one_expr(visitor, then);
            let ghost m2 = *visitor;
            if is_final(&r2) {
                proof {
                    lemma_traversal_then(m1, t, o, VisitTail::Done, m2, r2, m2, r2);
                    lemma_traversal_then(v0, c, t + o, VisitTail::Done, m1, r1, m2, r2);
                }
                return r2;
            }
            let r3 = match else_ {
                Some(e) => visit_one_expr(visitor, e),
                None => Ok(VisitOutcome::Continue),
            };
            proof {
                assert(traversal(m2, o, VisitTail::Done, *visitor, r3));
                lemma_traversal_then(m1, t, o, VisitTail::Done, m2, r2, *visitor, r3);
                lemma_traversal_then(v0, c, t + o, VisitTail::Done, m1, r1, *visitor, r3);
            }
            r3
        },
        ExprKind::Match(scrutinee, arms) => {
            let ghost v0 = *visitor;
            let ghost s = seq![VisitNode::Expr(**scrutinee)];
            let r1 = visit_one_expr(visitor, scrutinee);
            let ghost m1 = *visitor;
            if is_final(&r1) {
                proof {
                    lemma_traversal_then(v0, s, arm_nodes(arms@), VisitTail::Done, m1, r1, m1, r1);
                }
                return r1;
            }
            let r2 = visit_arm_bodies(visitor, arms);
            proof {
                lemma_traversal_then(v0, s, arm_nodes(arms@), VisitTail::Done, m1, r1, *visitor, r2);
            }
            r2
        },
        ExprKind::Let(l) => visitor.visit_expr(&l.value),
        ExprKind::LetInOut(l) => visitor.visit_expr(&l.value),
        ExprKind::LetConsume(l) => visitor.visit_expr(&l.value),
        ExprKind::Reversible(rb) => walk_reversible(visitor, rb),
        ExprKind::Lambda(l) => {
            let ghost v0 = *visitor;
            let ghost p = param_nodes(l.params@);
            let ghost t = VisitTail::Visit(VisitNode::Expr(*l.body));
            assert(p + Seq::<VisitNode>::empty() =~= p);
            let r1 = visit_each_param(visitor, &l.params);
            let ghost m1 = *visitor;
            if is_final(&r1) {
                proof {
                    lemma_traversal_then(v0, p, Seq::empty(), t, m1, r1, m1, r1);
                }
                return r1;
            }
            let r2 = visitor.visit_expr(&l.body);
            proof {
                lemma_traversal_visit(m1, VisitNode::Expr(*l.body), *visitor, r2);
                lemma_traversal_then(v0, p, Seq::empty(), t, m1, r1, *visitor, r2);
            }
            r2
        },
        ExprKind::For(lp) => expr_then_walk(visitor, &lp.iter, &lp.body),
        ExprKind::Forall(lp) => {
            let ghost v0 = *visitor;
            let ghost b = bound_nodes(lp.bindings@);
            let ghost t = VisitTail::Walk(lp.body);
            assert(b + Seq::<VisitNode>::empty() =~= b);
            let r1 = visit_bounds(visitor, &lp.bindings);
            let ghost m1 = *visitor;
            if is_final(&r1) {
                proof {
                    lemma_traversal_then(v0, b, Seq::empty(), t, m1, r1, m1, r1);
                }
                return r1;
            }
            let r2 = walk_block(visitor, &lp.body);
            proof {
                assert(traversal(m1, Seq::empty(), t, *visitor, r2));
                lemma_traversal_then(v0, b, Seq::empty(), t, m1, r1, *visitor, r2);
            }
            r2
        },
        ExprKind::While(cond, body) => expr_then_visit(visitor, cond, body),
        ExprKind::Return(e) | ExprKind::Break(e) => {
            if let Some(inner) = e {
                visitor.visit_expr(inner)
            } else {
                Ok(VisitOutcome::Continue)
            }
        },
        ExprKind::Continue => Ok(VisitOutcome::Continue),
        ExprKind::Assign(l, r) => expr_then_visit(visitor, l, r),
        ExprKind::Projection(e) => visitor.visit_expr(e),
        ExprKind::QuantumOp(op) => match op {
            QuantumOp::Alloc(_) => Ok(VisitOutcome::Continue),
            QuantumOp::Measure(e) => visit_one_expr(visitor, e),
            QuantumOp::ApplyGate(_, args) => visit_each_expr(visitor, args),
            QuantumOp::Entangle(qubits) => visit_each_expr(visitor, qubits),
            QuantumOp::Phase(a, b) | QuantumOp::Hamiltonian(a, b) => {
                let ghost v0 = *visitor;
                let ghost x = seq![VisitNode::Expr(**a)];
                let ghost y = seq![VisitNode::Expr(**b)];
                let r1 = visit_one_expr(visitor, a);
                let ghost m1 = *visitor;
                if is_final(&r1) {
                    proof {
                        lemma_traversal_then(v0, x, y, VisitTail::Done, m1, r1, m1, r1);
                    }
                    return r1;
                }
                let r2 = visit_one_expr(visitor, b);
                proof {
                    lemma_traversal_then(v0, x, y, VisitTail::Done, m1, r1, *visitor, r2);
                }
                r2
            },
        },
        ExprKind::Ascribe(e, _) => visitor.visit_expr(e),
    }
}

/// Walks a type: visits its component types in order (the parameter types
/// before the result, each type argument that is a type, each dimension,
/// the domain before the codomain), stopping at the first visit that fails
/// or says `Stop`; where the last step is one visit it gives what that
/// gives.
pub fn walk_type<V: Visitor>(visitor: &mut V, ty: &Type) -> (r: Result<VisitOutcome, V::Err>)
    ensures
        traversal(*old(visitor), type_children(ty.kind), type_tail(ty.kind), *final(visitor), r),
{
    match &ty.kind {
        TypeKind::Projection(inner) => visitor.visit_type(inner),
        TypeKind::Reversible(inner) => visitor.visit_type(inner),
        TypeKind::Function(params, ret) => {
            let ghost v0 = *visitor;
            let ghost p = type_nodes(params@);
            let ghost t = VisitTail::Visit(VisitNode::Type(**ret));
            assert(p + Seq::<VisitNode>::empty() =~= p);
            let r1 = visit_each_type(visitor, params);
            let ghost m1 = *visitor;
            if is_final(&r1) {
                proof {
                    lemma_traversal_then(v0, p, Seq::empty(), t, m1, r1, m1, r1);
                }
                return r1;
            }
            let r2 = visitor.visit_type(ret);
            proof {
                lemma_traversal_visit(m1, VisitNode::Type(**ret), *visitor, r2);
                lemma_traversal_then(v0, p, Seq::empty(), t, m1, r1, *visitor, r2);
            }
            r2
        },
        TypeKind::Named(_, args) => visit_type_args(visitor, args),
        TypeKind::QRegister(dims) => visit_each_type(visitor, dims),
        TypeKind::Tensor(dims) => visit_each_type(visitor, dims),
        TypeKind::Pi(_, domain, codomain) => type_then_visit(visitor, domain, codomain),
        TypeKind::Sigma(_, fst, snd) => type_then_visit(visitor, fst, snd),
        TypeKind::Lambda(_, body) => visitor.visit_type(body),
        TypeKind::App(fun, arg) => type_then_visit(visitor, fun, arg),
        TypeKind::Array(elem, _) => visitor.visit_type(elem),
        TypeKind::Tuple(elems) => visit_each_type(visitor, elems),
        TypeKind::Unit | TypeKind::Bool | TypeKind::Int | TypeKind::UInt | TypeKind::Float
        | TypeKind::String | TypeKind::Char | TypeKind::Nat | TypeKind::Qubit
        | TypeKind::Universe(_) | TypeKind::Var(_) | TypeKind::Meta(_) | TypeKind::Error => {
            Ok(VisitOutcome::Continue)
        },
    }
}

} // verus!
