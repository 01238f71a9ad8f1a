//! PIR expressions as mathematical values, and a copy that keeps that value.

use vstd::prelude::*;
use crate::ir::pir_types::{count_all, count_var, BinaryOp, Mutability, PirExpr, Quantity, UnaryOp};

verus! {

/// A PIR expression with its names taken as character sequences.
pub enum ExprModel {
    IntLit(i64),
    FloatLit(Seq<char>),
    BoolLit(bool),
    Var(Seq<char>),
    Binary { op: BinaryOp, left: Box<ExprModel>, right: Box<ExprModel> },
    Unary { op: UnaryOp, expr: Box<ExprModel> },
    Call { name: Seq<char>, args: Seq<ExprModel> },
    Index { base: Box<ExprModel>, indices: Seq<ExprModel> },
    Field { base: Box<ExprModel>, field: Seq<char> },
    Let { name: Seq<char>, qty: Quantity, mutability: Mutability, value: Box<ExprModel>, body: Box<ExprModel> },
    If { cond: Box<ExprModel>, then_branch: Box<ExprModel>, else_branch: Box<ExprModel> },
    Reversible { body: Box<ExprModel>, inverse: Box<ExprModel> },
    QuantumOp { op: Seq<char>, args: Seq<ExprModel>, qubits: Seq<ExprModel> },
}

/// The value of an expression.
pub open spec fn expr_model(e: PirExpr) -> ExprModel
    decreases e,
{
    match e {
        PirExpr::IntLit(v) => ExprModel::IntLit(v),
        PirExpr::FloatLit(s) => ExprModel::FloatLit(s@),
        PirExpr::BoolLit(b) => ExprModel::BoolLit(b),
        PirExpr::Var(x) => ExprModel::Var(x@),
        PirExpr::Binary { op, left, right } => ExprModel::Binary {
            op,
            left: Box::new(expr_model(*left)),
            right: Box::new(expr_model(*right)),
        },
        PirExpr::Unary { op, expr } => ExprModel::Unary { op, expr: Box::new(expr_model(*expr)) },
        PirExpr::Call { name, args } => ExprModel::Call { name: name@, args: exprs_model(args@) },
        PirExpr::Index { base, indices } => ExprModel::Index {
            base: Box::new(expr_model(*base)),
            indices: exprs_model(indices@),
        },
        PirExpr::Field { base, field } => ExprModel::Field { base: Box::new(expr_model(*base)), field: field@ },
        PirExpr::Let { name, qty, mutability, value, body } => ExprModel::Let {
            name: name@,
            qty,
            mutability,
            value: Box::new(expr_model(*value)),
            body: Box::new(expr_model(*body)),
        },
        PirExpr::If { cond, then_branch, else_branch } => ExprModel::If {
            cond: Box::new(expr_model(*cond)),
            then_branch: Box::new(expr_model(*then_branch)),
            else_branch: Box::new(expr_model(*else_branch)),
        },
        PirExpr::Reversible { body, inverse } => ExprModel::Reversible {
            body: Box::new(expr_model(*body)),
            inverse: Box::new(expr_model(*inverse)),
        },
        PirExpr::QuantumOp { op, args, qubits } => ExprModel::QuantumOp {
            op: op@,
            args: exprs_model(args@),
            qubits: exprs_model(qubits@),
        },
    }
}

/// The values of a list of expressions.
pub open spec fn exprs_model(es: Seq<PirExpr>) -> Seq<ExprModel>
    decreases es,
{
    if es.len() == 0 {
        Seq::empty()
    } else {
        exprs_model(es.drop_last()).push(expr_model(es.last()))
    }
}

impl View for PirExpr {
    type V = ExprModel;

    open spec fn view(&self) -> ExprModel {
        expr_model(*self)
    }
}

proof fn lemma_exprs_model_len(es: Seq<PirExpr>)
    ensures
        exprs_model(es).len() == es.len(),
    decreases es.len(),
{
    if es.len() > 0 {
        lemma_exprs_model_len(es.drop_last());
    }
}

/// Element `i` of the list's value is the value of element `i`.
pub proof fn lemma_exprs_model_index(es: Seq<PirExpr>, i: int)
    requires
        0 <= i < es.len(),
    ensures
        exprs_model(es).len() == es.len(),
        exprs_model(es)[i] == expr_model(es[i]),
    decreases es.len(),
{
    lemma_exprs_model_len(es);
    if i < es.len() - 1 {
        lemma_exprs_model_index(es.drop_last(), i);
    }
}

/// A copy of an expression, equal to it as a value.
pub fn clone_expr(e: &PirExpr) -> (r: PirExpr)
    ensures
        r@ == e@,
    decreases e,
{
    match e {
        PirExpr::IntLit(v) => PirExpr::IntLit(*v),
        PirExpr::FloatLit(s) => PirExpr::FloatLit(s.clone()),
        PirExpr::BoolLit(b) => PirExpr::BoolLit(*b),
        PirExpr::Var(x) => PirExpr::Var(x.clone()),
        PirExpr::Binary { op, left, right } => PirExpr::Binary {
            op: *op,
            left: Box::new(clone_expr(left)),
            right: Box::new(clone_expr(right)),
        },
        PirExpr::Unary { op, expr } => PirExpr::Unary { op: *op, expr: Box::new(clone_expr(expr)) },
        PirExpr::Call { name, args } => PirExpr::Call { name: name.clone(), args: clone_exprs(args) },
        PirExpr::Index { base, indices } => PirExpr::Index {
            base: Box::new(clone_expr(base)),
            indices: clone_exprs(indices),
        },
        PirExpr::Field { base, field } => PirExpr::Field { base: Box::new(clone_expr(base)), field: field.clone() },
        PirExpr::Let { name, qty, mutability, value, body } => PirExpr::Let {
            name: name.clone(),
            qty: *qty,
            mutability: *mutability,
            value: Box::new(clone_expr(value)),
            body: Box::new(clone_expr(body)),
        },
        PirExpr::If { cond, then_branch, else_branch } => PirExpr::If {
            cond: Box::new(clone_expr(cond)),
            then_branch: Box::new(clone_expr(then_branch)),
            else_branch: Box::new(clone_expr(else_branch)),
        },
        PirExpr::Reversible { body, inverse } => PirExpr::Reversible {
            body: Box::new(clone_expr(body)),
            inverse: Box::new(clone_expr(inverse)),
        },
        PirExpr::QuantumOp { op, args, qubits } => PirExpr::QuantumOp {
            op: op.clone(),
            args: clone_exprs(args),
            qubits: clone_exprs(qubits),
        },
    }
}

/// A copy of a list of expressions, equal to it as a value.
pub fn clone_exprs(v: &Vec<PirExpr>) -> (r: Vec<PirExpr>)
    ensures
        exprs_model(r@) == exprs_model(v@),
    decreases v,
{
    let mut out: Vec<PirExpr> = Vec::new();
    let mut i: usize = 0;
    while i < v.len()
        invariant
            i <= v@.len(),
            exprs_model(out@) == exprs_model(v@.subrange(0, i as int)),
        decreases v@.len() - i,
    {
        proof {
            assert(decreases_to!(v => v@));
            assert(decreases_to!(v@ => v@[i as int]));
        }
        let c = clone_expr(&v[i]);
        let ghost before = out@;
        out.push(c);
        proof {
            assert(out@.drop_last() =~= before);
            assert(v@.subrange(0, i + 1).drop_last() =~= v@.subrange(0, i as int));
        }
        i = i + 1;
    }
    proof {
        assert(v@.subrange(0, v@.len() as int) =~= v@);
    }
    out
}

impl Clone for PirExpr {
    fn clone(&self) -> (r: Self)
        ensures
            r@ == self@,
    {
        clone_expr(self)
    }
}

/// The value of a one-element list.
pub proof fn lemma_exprs_model_single(s: Seq<PirExpr>)
    requires
        s.len() == 1,
    ensures
        exprs_model(s) == seq![expr_model(s[0])],
{
    assert(s.drop_last() =~= Seq::<PirExpr>::empty());
    assert(exprs_model(Seq::<PirExpr>::empty()) =~= Seq::<ExprModel>::empty());
    assert(exprs_model(s) =~= seq![expr_model(s[0])]);
}


/// Number of occurrences of the variable `v` in an expression value.
pub open spec fn model_count(m: ExprModel, v: Seq<char>) -> nat
    decreases m,
{
    match m {
        ExprModel::Var(x) => if x == v { 1 } else { 0 },
        ExprModel::Binary { left, right, .. } => model_count(*left, v) + model_count(*right, v),
        ExprModel::Let { value, body, .. } => model_count(*value, v) + model_count(*body, v),
        ExprModel::Unary { expr, .. } => model_count(*expr, v),
        ExprModel::Call { args, .. } => models_count(args, v),
        ExprModel::Index { base, indices } => model_count(*base, v) + models_count(indices, v),
        ExprModel::Field { base, .. } => model_count(*base, v),
        ExprModel::If { cond, then_branch, else_branch } =>
            model_count(*cond, v) + model_count(*then_branch, v) + model_count(*else_branch, v),
        ExprModel::Reversible { body, inverse } => model_count(*body, v) + model_count(*inverse, v),
        ExprModel::QuantumOp { args, qubits, .. } => models_count(args, v) + models_count(qubits, v),
        _ => 0,
    }
}

/// Occurrences of `v` in a list of expression values.
pub open spec fn models_count(ms: Seq<ExprModel>, v: Seq<char>) -> nat
    decreases ms,
{
    if ms.len() == 0 {
        0
    } else {
        models_count(ms.drop_last(), v) + model_count(ms.last(), v)
    }
}

/// Counting occurrences in an expression and in its value agree.
pub proof fn lemma_count_model(e: PirExpr, v: Seq<char>)
    ensures
        count_var(e, v) == model_count(e@, v),
    decreases e,
{
    match e {
        PirExpr::Binary { left, right, .. } => {
            lemma_count_model(*left, v);
            lemma_count_model(*right, v);
        },
        PirExpr::Let { value, body, .. } => {
            lemma_count_model(*value, v);
            lemma_count_model(*body, v);
        },
        PirExpr::Unary { expr, .. } => lemma_count_model(*expr, v),
        PirExpr::Call { args, .. } => lemma_count_all_model(args@, v),
        PirExpr::Index { base, indices } => {
            lemma_count_model(*base, v);
            lemma_count_all_model(indices@, v);
        },
        PirExpr::Field { base, .. } => lemma_count_model(*base, v),
        PirExpr::If { cond, then_branch, else_branch } => {
            lemma_count_model(*cond, v);
            lemma_count_model(*then_branch, v);
            lemma_count_model(*else_branch, v);
        },
        PirExpr::Reversible { body, inverse } => {
            lemma_count_model(*body, v);
            lemma_count_model(*inverse, v);
        },
        PirExpr::QuantumOp { args, qubits, .. } => {
            lemma_count_all_model(args@, v);
            lemma_count_all_model(qubits@, v);
        },
        _ => {},
    }
}

pub proof fn lemma_count_all_model(es: Seq<PirExpr>, v: Seq<char>)
    ensures
        count_all(es, v) == models_count(exprs_model(es), v),
    decreases es,
{
    if es.len() > 0 {
        lemma_count_all_model(es.drop_last(), v);
        lemma_count_model(es.last(), v);
        assert(exprs_model(es).drop_last() == exprs_model(es.drop_last()));
    }
}

} // verus!
