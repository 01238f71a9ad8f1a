//! Lowering to the polyhedral IR: the lowering context, its errors, and the
//! uncomputation engine for reversible blocks.

pub mod access_analysis;
pub mod ast_to_pir;
pub mod loop_extraction;
pub mod reversible_lowering;

use vstd::prelude::*;
use crate::ast::ops::{BinOp, UnOp};
use crate::ir::access_relation::AccessRelations;
use crate::ir::affine_domain::AffineDomain;
use crate::ir::affine_map::{zero_model, AffineMap, Matrix, MatrixModel, PieceModel};
use crate::ir::affine_domain::{ConstraintModel, DomainModel};
use crate::ir::vecs::copy_strings;
use crate::ir::pir_types::{BinaryOp, PirExpr, PirStatement, QuantityMap, UnaryOp};
use crate::ir::schedule_tree::{ScheduleNode, ScheduleTree, StmtId};
use crate::text::{concat, str_eq};
use crate::ast::expr::{Expr, ExprKind, ReversibleBlock};
use crate::ast::items::{Item, Literal, Program};
use crate::ast::Param;
use crate::ast::stmt::{Stmt, StmtKind};
use crate::ast::Mutability;
use crate::ir::expr_model::{exprs_model, lemma_count_model, model_count, ExprModel};
use crate::ir::pir_types::{total_count, PirModule};
use crate::ir::validate::{pir_errors, validate_pir};
use crate::ir::pretty_print::{issues_debug, validation_errors_debug};
use crate::ir::pir_types::{key_index, qty_set, Quantity};
use crate::ir::pretty_print::binary_op_text;
use crate::lexer::token::{display_name_text, TokenKind};
use crate::parser::expr::binary_op_of;

verus! {

/// Errors of the lowering pass; each carries a description.
#[derive(Debug)]
pub enum LoweringError {
    NonAffineBounds(String),
    AccessOutOfBounds(String),
    NonReversibleOp(String),
    QuantityMismatch(String),
    Unsupported(String),
    ValidationError(String),
}

/// The text of an error: its kind, a colon, and its description.
pub open spec fn lowering_error_text(e: LoweringError) -> Seq<char> {
    match e {
        LoweringError::NonAffineBounds(s) => "Non-affine loop bounds: "@ + s@,
        LoweringError::AccessOutOfBounds(s) => "Array access out of bounds: "@ + s@,
        LoweringError::NonReversibleOp(s) => "Non-reversible operation in reversible block: "@ + s@,
        LoweringError::QuantityMismatch(s) => "Quantity mismatch: "@ + s@,
        LoweringError::Unsupported(s) => "Unsupported construct: "@ + s@,
        LoweringError::ValidationError(s) => "IR validation failed: "@ + s@,
    }
}

impl LoweringError {
    /// The error's text, as its `Display` shows it.
    pub fn message(&self) -> (r: String)
        ensures
            r@ == lowering_error_text(*self),
    {
        match self {
            LoweringError::NonAffineBounds(s) => concat("Non-affine loop bounds: ", s.as_str()),
            LoweringError::AccessOutOfBounds(s) => concat("Array access out of bounds: ", s.as_str()),
            LoweringError::NonReversibleOp(s) => concat("Non-reversible operation in reversible block: ", s.as_str()),
            LoweringError::QuantityMismatch(s) => concat("Quantity mismatch: ", s.as_str()),
            LoweringError::Unsupported(s) => concat("Unsupported construct: ", s.as_str()),
            LoweringError::ValidationError(s) => concat("IR validation failed: ", s.as_str()),
        }
    }
}

/// State of the lowering pass: the statements lowered so far, with the
/// quantities, accesses and schedule pieces collected along the way.
pub struct LoweringContext {
    pub(crate) next_stmt_id: usize,
    pub(crate) quantities: QuantityMap,
    pub(crate) statements: Vec<PirStatement>,
    pub(crate) accesses: AccessRelations,
    pub(crate) schedule_nodes: Vec<ScheduleNode>,
    pub(crate) param_names: Vec<String>,
}

/// The PIR operator for a source operator.
pub open spec fn binop_lowering(op: BinOp) -> BinaryOp {
    match op {
        BinOp::Add => BinaryOp::Add,
        BinOp::Sub => BinaryOp::Sub,
        BinOp::Mul => BinaryOp::Mul,
        BinOp::Div => BinaryOp::Div,
        BinOp::Rem => BinaryOp::Mod,
        BinOp::And => BinaryOp::And,
        BinOp::Or => BinaryOp::Or,
        BinOp::BitXor => BinaryOp::Xor,
        BinOp::Eq => BinaryOp::Eq,
        BinOp::Ne => BinaryOp::Ne,
        BinOp::Lt => BinaryOp::Lt,
        BinOp::Le => BinaryOp::Le,
        BinOp::Gt => BinaryOp::Gt,
        BinOp::Ge => BinaryOp::Ge,
        BinOp::Shl => BinaryOp::Shl,
        BinOp::Shr => BinaryOp::Shr,
        BinOp::Assign => BinaryOp::Add,
        BinOp::BitAnd => BinaryOp::And,
        BinOp::BitOr => BinaryOp::Or,
    }
}

/// The PIR operator for a source unary operator.
pub open spec fn unop_lowering(op: UnOp) -> UnaryOp {
    match op {
        UnOp::Not => UnaryOp::Not,
        UnOp::BitNot => UnaryOp::Not,
        _ => UnaryOp::Neg,
    }
}

impl LoweringContext {
    /// The next statement id to hand out.
    pub closed spec fn next_id(&self) -> usize {
        self.next_stmt_id
    }

    /// The statements lowered so far.
    pub closed spec fn stmt_seq(&self) -> Seq<PirStatement> {
        self.statements@
    }

    /// The quantities recorded so far.
    pub closed spec fn qty_view(&self) -> Seq<(Seq<char>, crate::ir::pir_types::Quantity)> {
        self.quantities@
    }

    /// The symbolic parameters.
    pub closed spec fn params(&self) -> Seq<String> {
        self.param_names@
    }

    /// An empty context: no statements, no quantities, no parameters.
    pub fn new() -> (r: Self)
        ensures
            r.next_id() == 0,
            r.qty_view().len() == 0,
            r.stmt_seq().len() == 0,
            r.params().len() == 0,
            r.is_fresh(),
    {
        LoweringContext {
            next_stmt_id: 0,
            quantities: QuantityMap::new(),
            statements: Vec::new(),
            accesses: AccessRelations::new(),
            schedule_nodes: Vec::new(),
            param_names: Vec::new(),
        }
    }

    /// Hands out the next statement id.
    pub fn next_stmt_id(&mut self) -> (r: StmtId)
        requires
            old(self).next_id() < usize::MAX,
        ensures
            r.0 == old(self).next_id(),
            final(self).next_id() == old(self).next_id() + 1,
            final(self).stmt_seq() == old(self).stmt_seq(),
            final(self).qty_view() == old(self).qty_view(),
            final(self).params() == old(self).params(),
            final(self).frame() == old(self).frame(),
    {
        let id = StmtId(self.next_stmt_id);
        self.next_stmt_id = self.next_stmt_id + 1;
        id
    }

    /// The statements lowered so far.
    pub fn statements(&self) -> (r: &Vec<PirStatement>)
        ensures
            r@ == self.stmt_seq(),
    {
        &self.statements
    }

    /// Appends a lowered statement.
    pub fn push_statement(&mut self, stmt: PirStatement)
        ensures
            final(self).stmt_seq() == old(self).stmt_seq().push(stmt),
            final(self).next_id() == old(self).next_id(),
            final(self).qty_view() == old(self).qty_view(),
            final(self).params() == old(self).params(),
    {
        self.statements.push(stmt);
    }

    /// The quantities recorded so far.
    pub fn quantities(&self) -> (r: &QuantityMap)
        ensures
            r@ == self.qty_view(),
    {
        &self.quantities
    }

    /// The PIR operator for a source operator.
    pub fn lower_binop(&self, op: BinOp) -> (r: BinaryOp)
        ensures
            r == binop_lowering(op),
    {
        match op {
            BinOp::Add => BinaryOp::Add,
            BinOp::Sub => BinaryOp::Sub,
            BinOp::Mul => BinaryOp::Mul,
            BinOp::Div => BinaryOp::Div,
            BinOp::Rem => BinaryOp::Mod,
            BinOp::And => BinaryOp::And,
            BinOp::Or => BinaryOp::Or,
            BinOp::BitXor => BinaryOp::Xor,
            BinOp::Eq => BinaryOp::Eq,
            BinOp::Ne => BinaryOp::Ne,
            BinOp::Lt => BinaryOp::Lt,
            BinOp::Le => BinaryOp::Le,
            BinOp::Gt => BinaryOp::Gt,
            BinOp::Ge => BinaryOp::Ge,
            BinOp::Shl => BinaryOp::Shl,
            BinOp::Shr => BinaryOp::Shr,
            BinOp::Assign => BinaryOp::Add,
            BinOp::BitAnd => BinaryOp::And,
            BinOp::BitOr => BinaryOp::Or,
        }
    }

    /// The PIR operator for a source unary operator.
    pub fn lower_unop(&self, op: UnOp) -> (r: UnaryOp)
        ensures
            r == unop_lowering(op),
    {
        match op {
            UnOp::Neg => UnaryOp::Neg,
            UnOp::Not => UnaryOp::Not,
            UnOp::BitNot => UnaryOp::Not,
            UnOp::Deref => UnaryOp::Neg,
            UnOp::InOut => UnaryOp::Neg,
            UnOp::Consume => UnaryOp::Neg,
        }
    }
}


/// The `{:?}` text of an expression kind.
pub uninterp spec fn expr_kind_debug(k: ExprKind) -> Seq<char>;

/// The `{:?}` text of a statement kind.
pub uninterp spec fn stmt_kind_debug(k: StmtKind) -> Seq<char>;

/// The `{:?}` text of a literal.
pub uninterp spec fn literal_debug(l: Literal) -> Seq<char>;

/// Formats an expression kind with its derived `Debug`; the text is named
/// `expr_kind_debug` of the kind and nothing more is claimed of it.
#[verifier::external_body]
fn expr_kind_debug_string(k: &ExprKind) -> (r: String)
    ensures
        r@ == expr_kind_debug(*k),
{
    format!("{:?}", k)
}

/// Formats a statement kind with its derived `Debug`; the text is named
/// `stmt_kind_debug` of the kind and nothing more is claimed of it.
#[verifier::external_body]
fn stmt_kind_debug_string(k: &StmtKind) -> (r: String)
    ensures
        r@ == stmt_kind_debug(*k),
{
    format!("{:?}", k)
}

/// Formats a literal with its derived `Debug`; the text is named
/// `literal_debug` of the literal and nothing more is claimed of it.
#[verifier::external_body]
fn literal_debug_string(l: &Literal) -> (r: String)
    ensures
        r@ == literal_debug(*l),
{
    format!("{:?}", l)
}

/// A lowered statement as values: its id, body, quantity and mutability.
pub struct StmtShape {
    pub id: nat,
    pub body: ExprModel,
    pub quantity: Quantity,
    pub mutability: Mutability,
}

/// What lowering threads from one construct to the next: the next statement
/// id, the statements lowered so far and the quantities recorded so far.
pub struct LowerState {
    pub next: nat,
    pub stmts: Seq<StmtShape>,
    pub qtys: Seq<(Seq<char>, Quantity)>,
}

/// A statement as a shape.
pub open spec fn shape_of(s: PirStatement) -> StmtShape {
    StmtShape { id: s.id.0 as nat, body: s.body@, quantity: s.quantity, mutability: s.mutability }
}

/// Statements as shapes.
pub open spec fn shapes(c: Seq<PirStatement>) -> Seq<StmtShape> {
    c.map_values(|s: PirStatement| shape_of(s))
}

/// A statement over the zero-dimensional, unconstrained, unnamed domain,
/// without a span: the form of every statement lowering creates.
pub open spec fn scalar_stmt(s: PirStatement) -> bool {
    &&& s.domain@.dims == 0
    &&& s.domain@.n_iter == 0
    &&& s.domain@.n_param == 0
    &&& s.domain@.constraints.len() == 0
    &&& s.domain@.name is None
    &&& s.span is None
}

/// The state after appending a statement with the next id.
pub open spec fn push_shape(s: LowerState, body: ExprModel, q: Quantity, m: Mutability) -> LowerState {
    LowerState {
        next: s.next + 1,
        stmts: s.stmts.push(StmtShape { id: s.next, body, quantity: q, mutability: m }),
        qtys: s.qtys,
    }
}

/// The state after recording the quantity of a name.
pub open spec fn record_qty(s: LowerState, name: Seq<char>, q: Quantity) -> LowerState {
    LowerState { qtys: qty_set(s.qtys, name, q), ..s }
}

/// A literal's value, or the `{:?}` of a literal that has none.
pub open spec fn literal_lowering(l: Literal) -> Result<ExprModel, Seq<char>> {
    match l {
        Literal::Int(v) => Ok(ExprModel::IntLit(v)),
        Literal::UInt(v) => Ok(ExprModel::IntLit(v as i64)),
        Literal::Float(t) => Ok(ExprModel::FloatLit(t@)),
        Literal::Bool(b) => Ok(ExprModel::BoolLit(b)),
        Literal::String(t) => Ok(ExprModel::Var(t@)),
        _ => Err(literal_debug(l)),
    }
}

/// The name a call is lowered under: the callee's name when it is a
/// variable, `unknown` otherwise.
pub open spec fn callee_name(f: Expr) -> Seq<char> {
    match f.kind {
        ExprKind::Var(n) => n.name@,
        _ => "unknown"@,
    }
}

/// Lowering of an expression from a state: the state after it, and the
/// lowered expression or the text of the first unsupported construct.
pub open spec fn lower_expr_spec(st: LowerState, e: Expr) -> (LowerState, Result<ExprModel, Seq<char>>)
    decreases e,
{
    match e.kind {
        ExprKind::Literal(lit) => (st, literal_lowering(lit)),
        ExprKind::Var(name) => (st, Ok(ExprModel::Var(name.name@))),
        ExprKind::Binary(op, l, r) => {
            let (s1, rl) = lower_expr_spec(st, *l);
            match rl {
                Err(m) => (s1, Err(m)),
                Ok(lm) => {
                    let (s2, rr) = lower_expr_spec(s1, *r);
                    match rr {
                        Err(m) => (s2, Err(m)),
                        Ok(rm) => (s2, Ok(ExprModel::Binary { op: binop_lowering(op), left: Box::new(lm), right: Box::new(rm) })),
                    }
                },
            }
        },
        ExprKind::Unary(op, x) => {
            let (s1, rx) = lower_expr_spec(st, *x);
            match rx {
                Err(m) => (s1, Err(m)),
                Ok(xm) => (s1, Ok(ExprModel::Unary { op: unop_lowering(op), expr: Box::new(xm) })),
            }
        },
        ExprKind::Call(func, args) => {
            let (s1, ra) = lower_exprs_spec(st, args@);
            match ra {
                Err(m) => (s1, Err(m)),
                Ok(ams) => (s1, Ok(ExprModel::Call { name: callee_name(*func), args: ams })),
            }
        },
        ExprKind::Index(base, index) => {
            let (s1, rb) = lower_expr_spec(st, *base);
            match rb {
                Err(m) => (s1, Err(m)),
                Ok(bm) => {
                    let (s2, ri) = lower_expr_spec(s1, *index);
                    match ri {
                        Err(m) => (s2, Err(m)),
                        Ok(im) => (s2, Ok(ExprModel::Index { base: Box::new(bm), indices: seq![im] })),
                    }
                },
            }
        },
        ExprKind::Field(base, field) => {
            let (s1, rb) = lower_expr_spec(st, *base);
            match rb {
                Err(m) => (s1, Err(m)),
                Ok(bm) => (s1, Ok(ExprModel::Field { base: Box::new(bm), field: field.name@ })),
            }
        },
        ExprKind::Let(b) => {
            let (s1, rv) = lower_expr_spec(st, b.value);
            match rv {
                Err(m) => (s1, Err(m)),
                Ok(vm) => (s1, Ok(ExprModel::Let {
                    name: b.name.name@,
                    qty: b.quantity,
                    mutability: b.mutability,
                    value: Box::new(vm),
                    body: Box::new(ExprModel::IntLit(0)),
                })),
            }
        },
        ExprKind::If(c, t, el) => {
            let (s1, rc) = lower_expr_spec(st, *c);
            match rc {
                Err(m) => (s1, Err(m)),
                Ok(cm) => {
                    let (s2, rt) = lower_expr_spec(s1, *t);
                    match rt {
                        Err(m) => (s2, Err(m)),
                        Ok(tm) => match el {
                            Some(b) => {
                                let (s3, re) = lower_expr_spec(s2, *b);
                                match re {
                                    Err(m) => (s3, Err(m)),
                                    Ok(em) => (s3, Ok(ExprModel::If {
                                        cond: Box::new(cm),
                                        then_branch: Box::new(tm),
                                        else_branch: Box::new(em),
                                    })),
                                }
                            },
                            None => (s2, Ok(ExprModel::If {
                                cond: Box::new(cm),
                                then_branch: Box::new(tm),
                                else_branch: Box::new(ExprModel::IntLit(0)),
                            })),
                        },
                    }
                },
            }
        },
        ExprKind::Reversible(block) => {
            let (s1, rb) = lower_stmts_spec(st, block.body.stmts@);
            match rb {
                Err(m) => (s1, Err(m)),
                Ok(_) => (s1, Ok(ExprModel::Reversible {
                    body: Box::new(ExprModel::IntLit(0)),
                    inverse: Box::new(ExprModel::IntLit(0)),
                })),
            }
        },
        _ => (st, Err(expr_kind_debug(e.kind))),
    }
}

/// Lowering of a list of expressions, left to right, stopping at the first
/// failure.
pub open spec fn lower_exprs_spec(st: LowerState, es: Seq<Expr>) -> (LowerState, Result<Seq<ExprModel>, Seq<char>>)
    decreases es,
{
    if es.len() == 0 {
        (st, Ok(Seq::empty()))
    } else {
        let (s1, r1) = lower_exprs_spec(st, es.drop_last());
        match r1 {
            Err(m) => (s1, Err(m)),
            Ok(ms) => {
                let (s2, r2) = lower_expr_spec(s1, es.last());
                match r2 {
                    Err(m) => (s2, Err(m)),
                    Ok(x) => (s2, Ok(ms.push(x))),
                }
            },
        }
    }
}

/// Lowering of a binding: its quantity is recorded, then its value lowered
/// and a statement appended.
pub open spec fn binding_lowering(st: LowerState, name: Seq<char>, q: Quantity, m: Mutability, value: Expr) -> (LowerState, Result<(), Seq<char>>) {
    let (s1, rv) = lower_expr_spec(record_qty(st, name, q), value);
    match rv {
        Err(t) => (s1, Err(t)),
        Ok(vm) => (push_shape(s1, vm, q, m), Ok(())),
    }
}

/// Lowering of an expression statement.
pub open spec fn expr_stmt_lowering(st: LowerState, x: Expr) -> (LowerState, Result<(), Seq<char>>) {
    let (s1, rv) = lower_expr_spec(st, x);
    match rv {
        Err(t) => (s1, Err(t)),
        Ok(vm) => (push_shape(s1, vm, Quantity::Many, Mutability::Immutable), Ok(())),
    }
}

/// Lowering of a statement: a binding or an expression statement appends a
/// statement, a reversible block lowers its body, an item is lowered as an
/// item; any other statement is unsupported.
pub open spec fn lower_stmt_spec(st: LowerState, s: Stmt) -> (LowerState, Result<(), Seq<char>>)
    decreases s,
{
    match s.kind {
        StmtKind::Let(l) => {
            let (s1, rv) = lower_expr_spec(record_qty(st, l.name.name@, l.quantity), l.value);
            match rv {
                Err(m) => (s1, Err(m)),
                Ok(vm) => (push_shape(s1, vm, l.quantity, l.mutability), Ok(())),
            }
        },
        StmtKind::LetInOut(l) => {
            let (s1, rv) = lower_expr_spec(record_qty(st, l.name.name@, Quantity::Many), l.value);
            match rv {
                Err(m) => (s1, Err(m)),
                Ok(vm) => (push_shape(s1, vm, Quantity::Many, Mutability::InOut), Ok(())),
            }
        },
        StmtKind::LetConsume(l) => {
            let (s1, rv) = lower_expr_spec(record_qty(st, l.name.name@, Quantity::One), l.value);
            match rv {
                Err(m) => (s1, Err(m)),
                Ok(vm) => (push_shape(s1, vm, Quantity::One, Mutability::Consume), Ok(())),
            }
        },
        StmtKind::Expr(x) => {
            let (s1, rv) = lower_expr_spec(st, x);
            match rv {
                Err(m) => (s1, Err(m)),
                Ok(vm) => (push_shape(s1, vm, Quantity::Many, Mutability::Immutable), Ok(())),
            }
        },
        StmtKind::Reversible(block) => lower_stmts_spec(st, block.body.stmts@),
        StmtKind::Item(item) => lower_item_spec(st, item),
        _ => (st, Err(stmt_kind_debug(s.kind))),
    }
}

/// Lowering of a list of statements, in order, stopping at the first failure.
pub open spec fn lower_stmts_spec(st: LowerState, ss: Seq<Stmt>) -> (LowerState, Result<(), Seq<char>>)
    decreases ss,
{
    if ss.len() == 0 {
        (st, Ok(()))
    } else {
        let (s1, r1) = lower_stmts_spec(st, ss.drop_last());
        match r1 {
            Err(m) => (s1, Err(m)),
            Ok(_) => lower_stmt_spec(s1, ss.last()),
        }
    }
}

/// Lowering of an item: the body of a function named `main`; every other
/// item lowers to nothing.
pub open spec fn lower_item_spec(st: LowerState, i: Item) -> (LowerState, Result<(), Seq<char>>)
    decreases i,
{
    match i {
        Item::Function(f) => if f.name.name@ == "main"@ {
            lower_stmts_spec(st, f.body.stmts@)
        } else {
            (st, Ok(()))
        },
        _ => (st, Ok(())),
    }
}

/// Lowering of a list of items, in order, stopping at the first failure.
pub open spec fn lower_items_spec(st: LowerState, is: Seq<Item>) -> (LowerState, Result<(), Seq<char>>)
    decreases is,
{
    if is.len() == 0 {
        (st, Ok(()))
    } else {
        let (s1, r1) = lower_items_spec(st, is.drop_last());
        match r1 {
            Err(m) => (s1, Err(m)),
            Ok(_) => lower_item_spec(s1, is.last()),
        }
    }
}


/// Lowering an expression never takes back a statement id.
proof fn lemma_expr_next(st: LowerState, e: Expr)
    ensures
        lower_expr_spec(st, e).0.next >= st.next,
    decreases e,
{
    match e.kind {
        ExprKind::Binary(_, l, r) => {
            lemma_expr_next(st, *l);
            lemma_expr_next(lower_expr_spec(st, *l).0, *r);
        },
        ExprKind::Unary(_, x) => lemma_expr_next(st, *x),
        ExprKind::Call(_, args) => lemma_exprs_next(st, args@),
        ExprKind::Index(b, i) => {
            lemma_expr_next(st, *b);
            lemma_expr_next(lower_expr_spec(st, *b).0, *i);
        },
        ExprKind::Field(b, _) => lemma_expr_next(st, *b),
        ExprKind::Let(b) => lemma_expr_next(st, b.value),
        ExprKind::If(c, t, el) => {
            lemma_expr_next(st, *c);
            let s1 = lower_expr_spec(st, *c).0;
            lemma_expr_next(s1, *t);
            let s2 = lower_expr_spec(s1, *t).0;
            match el {
                Some(b) => lemma_expr_next(s2, *b),
                None => {},
            }
        },
        ExprKind::Reversible(block) => lemma_stmts_next(st, block.body.stmts@),
        _ => {},
    }
}

proof fn lemma_exprs_next(st: LowerState, es: Seq<Expr>)
    ensures
        lower_exprs_spec(st, es).0.next >= st.next,
    decreases es,
{
    if es.len() > 0 {
        lemma_exprs_next(st, es.drop_last());
        lemma_expr_next(lower_exprs_spec(st, es.drop_last()).0, es.last());
    }
}

proof fn lemma_stmt_next(st: LowerState, s: Stmt)
    ensures
        lower_stmt_spec(st, s).0.next >= st.next,
    decreases s,
{
    match s.kind {
        StmtKind::Let(l) => lemma_expr_next(record_qty(st, l.name.name@, l.quantity), l.value),
        StmtKind::LetInOut(l) => lemma_expr_next(record_qty(st, l.name.name@, Quantity::Many), l.value),
        StmtKind::LetConsume(l) => lemma_expr_next(record_qty(st, l.name.name@, Quantity::One), l.value),
        StmtKind::Expr(x) => lemma_expr_next(st, x),
        StmtKind::Reversible(block) => lemma_stmts_next(st, block.body.stmts@),
        StmtKind::Item(item) => lemma_item_next(st, item),
        _ => {},
    }
}

proof fn lemma_stmts_next(st: LowerState, ss: Seq<Stmt>)
    ensures
        lower_stmts_spec(st, ss).0.next >= st.next,
    decreases ss,
{
    if ss.len() > 0 {
        lemma_stmts_next(st, ss.drop_last());
        lemma_stmt_next(lower_stmts_spec(st, ss.drop_last()).0, ss.last());
    }
}

proof fn lemma_item_next(st: LowerState, i: Item)
    ensures
        lower_item_spec(st, i).0.next >= st.next,
    decreases i,
{
    match i {
        Item::Function(f) => {
            if f.name.name@ == "main"@ {
                lemma_stmts_next(st, f.body.stmts@);
            }
        },
        _ => {},
    }
}

proof fn lemma_items_next(st: LowerState, is: Seq<Item>)
    ensures
        lower_items_spec(st, is).0.next >= st.next,
    decreases is,
{
    if is.len() > 0 {
        lemma_items_next(st, is.drop_last());
        lemma_item_next(lower_items_spec(st, is.drop_last()).0, is.last());
    }
}

/// A prefix of a list lowers to a state no further on than the whole list.
proof fn lemma_exprs_prefix(st: LowerState, es: Seq<Expr>, j: int)
    requires
        0 <= j <= es.len(),
    ensures
        lower_exprs_spec(st, es.take(j)).0.next <= lower_exprs_spec(st, es).0.next,
    decreases es.len() - j,
{
    if j < es.len() {
        lemma_exprs_prefix(st, es, j + 1);
        let t = es.take(j + 1);
        assert(t.drop_last() =~= es.take(j));
        lemma_expr_next(lower_exprs_spec(st, es.take(j)).0, t.last());
    } else {
        assert(es.take(j) =~= es);
    }
}

proof fn lemma_stmts_prefix(st: LowerState, ss: Seq<Stmt>, j: int)
    requires
        0 <= j <= ss.len(),
    ensures
        lower_stmts_spec(st, ss.take(j)).0.next <= lower_stmts_spec(st, ss).0.next,
    decreases ss.len() - j,
{
    if j < ss.len() {
        lemma_stmts_prefix(st, ss, j + 1);
        let t = ss.take(j + 1);
        assert(t.drop_last() =~= ss.take(j));
        lemma_stmt_next(lower_stmts_spec(st, ss.take(j)).0, t.last());
    } else {
        assert(ss.take(j) =~= ss);
    }
}

proof fn lemma_items_prefix(st: LowerState, is: Seq<Item>, j: int)
    requires
        0 <= j <= is.len(),
    ensures
        lower_items_spec(st, is.take(j)).0.next <= lower_items_spec(st, is).0.next,
    decreases is.len() - j,
{
    if j < is.len() {
        lemma_items_prefix(st, is, j + 1);
        let t = is.take(j + 1);
        assert(t.drop_last() =~= is.take(j));
        lemma_item_next(lower_items_spec(st, is.take(j)).0, t.last());
    } else {
        assert(is.take(j) =~= is);
    }
}


/// Once a prefix of a list fails, the whole list fails the same way.
proof fn lemma_exprs_err_stops(st: LowerState, es: Seq<Expr>, j: int)
    requires
        0 <= j <= es.len(),
        lower_exprs_spec(st, es.take(j)).1 is Err,
    ensures
        lower_exprs_spec(st, es) == lower_exprs_spec(st, es.take(j)),
    decreases es.len() - j,
{
    if j < es.len() {
        let t = es.take(j + 1);
        assert(t.drop_last() =~= es.take(j));
        lemma_exprs_err_stops(st, es, j + 1);
    } else {
        assert(es.take(j) =~= es);
    }
}

proof fn lemma_stmts_err_stops(st: LowerState, ss: Seq<Stmt>, j: int)
    requires
        0 <= j <= ss.len(),
        lower_stmts_spec(st, ss.take(j)).1 is Err,
    ensures
        lower_stmts_spec(st, ss) == lower_stmts_spec(st, ss.take(j)),
    decreases ss.len() - j,
{
    if j < ss.len() {
        let t = ss.take(j + 1);
        assert(t.drop_last() =~= ss.take(j));
        lemma_stmts_err_stops(st, ss, j + 1);
    } else {
        assert(ss.take(j) =~= ss);
    }
}

proof fn lemma_items_err_stops(st: LowerState, is: Seq<Item>, j: int)
    requires
        0 <= j <= is.len(),
        lower_items_spec(st, is.take(j)).1 is Err,
    ensures
        lower_items_spec(st, is) == lower_items_spec(st, is.take(j)),
    decreases is.len() - j,
{
    if j < is.len() {
        let t = is.take(j + 1);
        assert(t.drop_last() =~= is.take(j));
        lemma_items_err_stops(st, is, j + 1);
    } else {
        assert(is.take(j) =~= is);
    }
}

/// A lowering outcome matches its specification: the same value, or an
/// unsupported-construct error with the same text.
pub open spec fn expr_outcome(r: Result<PirExpr, LoweringError>, s: Result<ExprModel, Seq<char>>) -> bool {
    match (r, s) {
        (Ok(p), Ok(m)) => p@ == m,
        (Err(LoweringError::Unsupported(t)), Err(m)) => t@ == m,
        _ => false,
    }
}

/// A lowering outcome without a value matches its specification.
pub open spec fn unit_outcome(r: Result<(), LoweringError>, s: Result<(), Seq<char>>) -> bool {
    match (r, s) {
        (Ok(_), Ok(_)) => true,
        (Err(LoweringError::Unsupported(t)), Err(m)) => t@ == m,
        _ => false,
    }
}

impl LoweringContext {
    /// What lowering threads through, as values.
    pub open spec fn state(&self) -> LowerState {
        LowerState {
            next: self.next_id() as nat,
            stmts: shapes(self.stmt_seq()),
            qtys: self.qty_view(),
        }
    }

    /// Every statement has the form lowering gives it.
    pub open spec fn all_scalar(&self) -> bool {
        forall|i: int| 0 <= i < self.stmt_seq().len() ==> scalar_stmt(#[trigger] self.stmt_seq()[i])
    }

    /// The accesses and schedule pieces collected so far.
    pub closed spec fn aux(&self) -> (AccessRelations, Seq<ScheduleNode>) {
        (self.accesses, self.schedule_nodes@)
    }

    /// What lowering leaves alone: accesses, schedule pieces and parameters.
    pub open spec fn frame(&self) -> (AccessRelations, Seq<ScheduleNode>, Seq<String>) {
        (self.aux().0, self.aux().1, self.params())
    }

    /// Nothing lowered or recorded yet.
    pub closed spec fn is_fresh(&self) -> bool {
        &&& self.next_stmt_id == 0
        &&& self.statements@.len() == 0
        &&& self.quantities@.len() == 0
        &&& self.accesses@.len() == 0
        &&& self.schedule_nodes@.len() == 0
        &&& self.param_names@.len() == 0
    }

    /// Appends a scalar statement with the next id.
    fn emit_scalar(&mut self, body: PirExpr, quantity: Quantity, mutability: Mutability)
        requires
            old(self).next_id() < usize::MAX,
            old(self).all_scalar(),
        ensures
            final(self).state() == push_shape(old(self).state(), body@, quantity, mutability),
            final(self).all_scalar(),
            final(self).frame() == old(self).frame(),
    {
        let ghost st = self.state();
        let stmt_id = self.next_stmt_id();
        let domain = AffineDomain::universe(0, 0);
        let stmt = PirStatement { id: stmt_id, domain, body, quantity, mutability, span: None };
        self.statements.push(stmt);
        proof {
            assert(self.state().stmts =~= st.stmts.push(shape_of(stmt)));
        }
    }

    fn lower_literal(&self, lit: &Literal) -> (r: Result<PirExpr, LoweringError>)
        ensures
            expr_outcome(r, literal_lowering(*lit)),
    {
        match lit {
            Literal::Int(v) => Ok(PirExpr::IntLit(*v)),
            Literal::UInt(v) => Ok(PirExpr::IntLit(*v as i64)),
            Literal::Float(t) => Ok(PirExpr::FloatLit(t.clone())),
            Literal::Bool(b) => Ok(PirExpr::BoolLit(*b)),
            Literal::String(t) => Ok(PirExpr::Var(t.clone())),
            _ => Err(LoweringError::Unsupported(literal_debug_string(lit))),
        }
    }
}


impl LoweringContext {
    /// Lowers an expression; a reversible block in it lowers its statements
    /// into the context.
    fn lower_expr(&mut self, expr: &Expr) -> (r: Result<PirExpr, LoweringError>)
        requires
            old(self).all_scalar(),
            lower_expr_spec(old(self).state(), *expr).0.next <= usize::MAX,
        ensures
            final(self).state() == lower_expr_spec(old(self).state(), *expr).0,
            final(self).all_scalar(),
            final(self).frame() == old(self).frame(),
            expr_outcome(r, lower_expr_spec(old(self).state(), *expr).1),
        decreases expr, 0nat,
    {
        let ghost st = self.state();
        match &expr.kind {
            ExprKind::Literal(lit) => self.lower_literal(lit),
            ExprKind::Var(name) => {
                Ok(PirExpr::Var(name.name.clone()))
            },
            ExprKind::Binary(op, left, right) => {
                proof {
                    lemma_expr_next(lower_expr_spec(st, **left).0, **right);
                }
                let l = match self.lower_expr(left) {
                    Ok(l) => l,
                    Err(e) => return Err(e),
                };
                let r = match self.lower_expr(right) {
                    Ok(r) => r,
                    Err(e) => return Err(e),
                };
                Ok(PirExpr::Binary { op: self.lower_binop(*op), left: Box::new(l), right: Box::new(r) })
            },
            ExprKind::Unary(op, inner) => {
                let e = match self.lower_expr(inner) {
                    Ok(e) => e,
                    Err(e) => return Err(e),
                };
                Ok(PirExpr::Unary { op: self.lower_unop(*op), expr: Box::new(e) })
            },
            ExprKind::Call(func, args) => {
                let mut lowered: Vec<PirExpr> = Vec::new();
                let mut k: usize = 0;
                assert(args@.take(0) =~= Seq::<Expr>::empty());
                while k < args.len()
                    invariant
                        k <= args@.len(),
                        self.all_scalar(),
                        self.frame() == old(self).frame(),
                        st == old(self).state(),
                        expr.kind == ExprKind::Call(*func, *args),
                        self.state() == lower_exprs_spec(st, args@.take(k as int)).0,
                        lower_exprs_spec(st, args@.take(k as int)).1 == Ok::<Seq<ExprModel>, Seq<char>>(exprs_model(lowered@)),
                        lower_expr_spec(st, *expr).0.next <= usize::MAX,
                    decreases args@.len() - k,
                {
                    proof {
                        lemma_exprs_prefix(st, args@, k + 1);
                        let t = args@.take(k + 1);
                        assert(t.drop_last() =~= args@.take(k as int));
                        assert(t.last() == args@[k as int]);
                    }
                    match self.lower_expr(&args[k]) {
                        Ok(x) => {
                            proof {
                                assert(lowered@.push(x).drop_last() =~= lowered@);
                            }
                            lowered.push(x);
                        },
                        Err(e) => {
                            proof {
                                lemma_exprs_err_stops(st, args@, k + 1);
                            }
                            return Err(e);
                        },
                    }
                    k = k + 1;
                }
                assert(args@.take(args@.len() as int) =~= args@);
                let name = match &func.kind {
                    ExprKind::Var(n) => n.name.clone(),
                    _ => "unknown".to_string(),
                };
                assert(name@ == callee_name(**func));
                Ok(PirExpr::Call { name, args: lowered })
            },
            ExprKind::Index(base, index) => {
                proof {
                    lemma_expr_next(lower_expr_spec(st, **base).0, **index);
                }
                let b = match self.lower_expr(base) {
                    Ok(b) => b,
                    Err(e) => return Err(e),
                };
                let idx = match self.lower_expr(index) {
                    Ok(i) => i,
                    Err(e) => return Err(e),
                };
                let indices = vec![idx];
                proof {
                    crate::ir::expr_model::lemma_exprs_model_single(indices@);
                }
                assert(exprs_model(indices@) == seq![idx@]);
                Ok(PirExpr::Index { base: Box::new(b), indices })
            },
            ExprKind::Field(base, field) => {
                let b = match self.lower_expr(base) {
                    Ok(b) => b,
                    Err(e) => return Err(e),
                };
                Ok(PirExpr::Field { base: Box::new(b), field: field.name.clone() })
            },
            ExprKind::Let(binding) => {
                let v = match self.lower_expr(&binding.value) {
                    Ok(v) => v,
                    Err(e) => return Err(e),
                };
                let body = PirExpr::IntLit(0);
                assert(body@ == ExprModel::IntLit(0));
                Ok(PirExpr::Let {
                    name: binding.name.name.clone(),
                    qty: binding.quantity,
                    mutability: binding.mutability,
                    value: Box::new(v),
                    body: Box::new(body),
                })
            },
            ExprKind::If(cond, then_branch, else_branch) => {
                proof {
                    let s1 = lower_expr_spec(st, **cond).0;
                    lemma_expr_next(s1, **then_branch);
                    match else_branch {
                        Some(b) => lemma_expr_next(lower_expr_spec(s1, **then_branch).0, **b),
                        None => {},
                    }
                }
                let c = match self.lower_expr(cond) {
                    Ok(c) => c,
                    Err(e) => return Err(e),
                };
                let t = match self.lower_expr(then_branch) {
                    Ok(t) => t,
                    Err(e) => return Err(e),
                };
                let e = match else_branch {
                    Some(b) => match self.lower_expr(b) {
                        Ok(x) => x,
                        Err(e) => return Err(e),
                    },
                    None => PirExpr::IntLit(0),
                };
                Ok(PirExpr::If { cond: Box::new(c), then_branch: Box::new(t), else_branch: Box::new(e) })
            },
            ExprKind::Reversible(block) => {
                let b = match self.lower_reversible_expr(block) {
                    Ok(x) => x,
                    Err(e) => return Err(e),
                };
                assert(b@ == ExprModel::IntLit(0));
                Ok(PirExpr::Reversible { body: Box::new(b), inverse: Box::new(PirExpr::IntLit(0)) })
            },
            _ => {
                Err(LoweringError::Unsupported(expr_kind_debug_string(&expr.kind)))
            },
        }
    }

    /// Lowers the body of a reversible block expression into the context;
    /// the expression itself lowers to `0`.
    fn lower_reversible_expr(&mut self, block: &ReversibleBlock) -> (r: Result<PirExpr, LoweringError>)
        requires
            old(self).all_scalar(),
            lower_stmts_spec(old(self).state(), block.body.stmts@).0.next <= usize::MAX,
        ensures
            final(self).state() == lower_stmts_spec(old(self).state(), block.body.stmts@).0,
            final(self).all_scalar(),
            final(self).frame() == old(self).frame(),
            match lower_stmts_spec(old(self).state(), block.body.stmts@).1 {
                Ok(_) => r matches Ok(x) && x@ == ExprModel::IntLit(0),
                Err(m) => r matches Err(LoweringError::Unsupported(t)) && t@ == m,
            },
        decreases block, 0nat,
    {
        match self.lower_stmts(&block.body.stmts) {
            Ok(()) => Ok(PirExpr::IntLit(0)),
            Err(e) => Err(e),
        }
    }

    /// Lowers statements in order, stopping at the first failure.
    fn lower_stmts(&mut self, stmts: &Vec<Stmt>) -> (r: Result<(), LoweringError>)
        requires
            old(self).all_scalar(),
            lower_stmts_spec(old(self).state(), stmts@).0.next <= usize::MAX,
        ensures
            final(self).state() == lower_stmts_spec(old(self).state(), stmts@).0,
            final(self).all_scalar(),
            final(self).frame() == old(self).frame(),
            unit_outcome(r, lower_stmts_spec(old(self).state(), stmts@).1),
        decreases stmts, 0nat,
    {
        let ghost st = self.state();
        let mut k: usize = 0;
        assert(stmts@.take(0) =~= Seq::<Stmt>::empty());
        while k < stmts.len()
            invariant
                k <= stmts@.len(),
                self.all_scalar(),
                self.frame() == old(self).frame(),
                st == old(self).state(),
                self.state() == lower_stmts_spec(st, stmts@.take(k as int)).0,
                lower_stmts_spec(st, stmts@.take(k as int)).1 is Ok,
                lower_stmts_spec(st, stmts@).0.next <= usize::MAX,
            decreases stmts@.len() - k,
        {
            proof {
                lemma_stmts_prefix(st, stmts@, k + 1);
                let t = stmts@.take(k + 1);
                assert(t.drop_last() =~= stmts@.take(k as int));
                assert(t.last() == stmts@[k as int]);
            }
            match self.lower_stmt(&stmts[k]) {
                Ok(()) => {},
                Err(e) => {
                    proof {
                        lemma_stmts_err_stops(st, stmts@, k + 1);
                    }
                    return Err(e);
                },
            }
            k = k + 1;
        }
        assert(stmts@.take(stmts@.len() as int) =~= stmts@);
        Ok(())
    }

    /// Lowers a statement.
    fn lower_stmt(&mut self, stmt: &Stmt) -> (r: Result<(), LoweringError>)
        requires
            old(self).all_scalar(),
            lower_stmt_spec(old(self).state(), *stmt).0.next <= usize::MAX,
        ensures
            final(self).state() == lower_stmt_spec(old(self).state(), *stmt).0,
            final(self).all_scalar(),
            final(self).frame() == old(self).frame(),
            unit_outcome(r, lower_stmt_spec(old(self).state(), *stmt).1),
        decreases stmt, 0nat,
    {
        match &stmt.kind {
            StmtKind::Let(l) => self.lower_let_stmt(l),
            StmtKind::LetInOut(l) => self.lower_let_inout(l),
            StmtKind::LetConsume(l) => self.lower_let_consume(l),
            StmtKind::Expr(x) => self.lower_expr_stmt(x),
            StmtKind::Reversible(block) => self.lower_reversible_block(block),
            StmtKind::Item(item) => self.lower_item(item),
            _ => Err(LoweringError::Unsupported(stmt_kind_debug_string(&stmt.kind))),
        }
    }

    /// `let`: records the quantity, lowers the value and appends a scalar
    /// statement with the binding's quantity and mutability.
    fn lower_let_stmt(&mut self, let_stmt: &crate::ast::stmt::LetStmt) -> (r: Result<(), LoweringError>)
        requires
            old(self).all_scalar(),
            binding_lowering(old(self).state(), let_stmt.name.name@, let_stmt.quantity, let_stmt.mutability, let_stmt.value).0.next <= usize::MAX,
        ensures
            final(self).state() == binding_lowering(old(self).state(), let_stmt.name.name@, let_stmt.quantity, let_stmt.mutability, let_stmt.value).0,
            final(self).all_scalar(),
            final(self).frame() == old(self).frame(),
            unit_outcome(r, binding_lowering(old(self).state(), let_stmt.name.name@, let_stmt.quantity, let_stmt.mutability, let_stmt.value).1),
        decreases let_stmt, 0nat,
    {
        let qty = let_stmt.quantity;
        let mutability = let_stmt.mutability;
        self.quantities.insert(let_stmt.name.name.clone(), qty);
        let expr = match self.lower_expr(&let_stmt.value) {
            Ok(x) => x,
            Err(e) => return Err(e),
        };
        self.emit_scalar(expr, qty, mutability);
        Ok(())
    }

    /// `let inout`: an unrestricted, inout binding.
    fn lower_let_inout(&mut self, let_inout: &crate::ast::stmt::LetInOutStmt) -> (r: Result<(), LoweringError>)
        requires
            old(self).all_scalar(),
            binding_lowering(old(self).state(), let_inout.name.name@, Quantity::Many, Mutability::InOut, let_inout.value).0.next <= usize::MAX,
        ensures
            final(self).state() == binding_lowering(old(self).state(), let_inout.name.name@, Quantity::Many, Mutability::InOut, let_inout.value).0,
            final(self).all_scalar(),
            final(self).frame() == old(self).frame(),
            unit_outcome(r, binding_lowering(old(self).state(), let_inout.name.name@, Quantity::Many, Mutability::InOut, let_inout.value).1),
        decreases let_inout, 0nat,
    {
        let qty = Quantity::Many;
        let mutability = Mutability::InOut;
        self.quantities.insert(let_inout.name.name.clone(), qty);
        let expr = match self.lower_expr(&let_inout.value) {
            Ok(x) => x,
            Err(e) => return Err(e),
        };
        self.emit_scalar(expr, qty, mutability);
        Ok(())
    }

    /// `let consume`: a linear, consumed binding.
    fn lower_let_consume(&mut self, let_consume: &crate::ast::stmt::LetConsumeStmt) -> (r: Result<(), LoweringError>)
        requires
            old(self).all_scalar(),
            binding_lowering(old(self).state(), let_consume.name.name@, Quantity::One, Mutability::Consume, let_consume.value).0.next <= usize::MAX,
        ensures
            final(self).state() == binding_lowering(old(self).state(), let_consume.name.name@, Quantity::One, Mutability::Consume, let_consume.value).0,
            final(self).all_scalar(),
            final(self).frame() == old(self).frame(),
            unit_outcome(r, binding_lowering(old(self).state(), let_consume.name.name@, Quantity::One, Mutability::Consume, let_consume.value).1),
        decreases let_consume, 0nat,
    {
        let qty = Quantity::One;
        let mutability = Mutability::Consume;
        self.quantities.insert(let_consume.name.name.clone(), qty);
        let expr = match self.lower_expr(&let_consume.value) {
            Ok(x) => x,
            Err(e) => return Err(e),
        };
        self.emit_scalar(expr, qty, mutability);
        Ok(())
    }

    /// An expression statement: an unrestricted, immutable scalar statement.
    fn lower_expr_stmt(&mut self, expr: &Expr) -> (r: Result<(), LoweringError>)
        requires
            old(self).all_scalar(),
            expr_stmt_lowering(old(self).state(), *expr).0.next <= usize::MAX,
        ensures
            final(self).state() == expr_stmt_lowering(old(self).state(), *expr).0,
            final(self).all_scalar(),
            final(self).frame() == old(self).frame(),
            unit_outcome(r, expr_stmt_lowering(old(self).state(), *expr).1),
        decreases expr, 1nat,
    {
        let e = match self.lower_expr(expr) {
            Ok(x) => x,
            Err(e) => return Err(e),
        };
        self.emit_scalar(e, Quantity::Many, Mutability::Immutable);
        Ok(())
    }

    /// Lowers an item: the body of `main`, nothing for any other item.
    fn lower_item(&mut self, item: &Item) -> (r: Result<(), LoweringError>)
        requires
            old(self).all_scalar(),
            lower_item_spec(old(self).state(), *item).0.next <= usize::MAX,
        ensures
            final(self).state() == lower_item_spec(old(self).state(), *item).0,
            final(self).all_scalar(),
            final(self).frame() == old(self).frame(),
            unit_outcome(r, lower_item_spec(old(self).state(), *item).1),
        decreases item, 0nat,
    {
        match item {
            Item::Function(func) => {
                if !str_eq(func.name.name.as_str(), "main") {
                    return Ok(());
                }
                self.lower_stmts(&func.body.stmts)
            },
            _ => Ok(()),
        }
    }
}


/// The parameters of the first function named `main`, none if there is no
/// such function.
pub open spec fn main_params(is: Seq<Item>) -> Seq<Param>
    decreases is.len(),
{
    if is.len() == 0 {
        Seq::empty()
    } else {
        match is[0] {
            Item::Function(f) => if f.name.name@ == "main"@ {
                f.params@
            } else {
                main_params(is.drop_first())
            },
            _ => main_params(is.drop_first()),
        }
    }
}

/// The quantities after recording each parameter with the quantity of its
/// type, in order.
pub open spec fn params_qtys(q: Seq<(Seq<char>, Quantity)>, ps: Seq<Param>) -> Seq<(Seq<char>, Quantity)>
    decreases ps.len(),
{
    if ps.len() == 0 {
        q
    } else {
        qty_set(params_qtys(q, ps.drop_last()), ps.last().name.name@, ps.last().ty.quantity)
    }
}

/// The names of parameters.
pub open spec fn param_names(ps: Seq<Param>) -> Seq<Seq<char>> {
    ps.map_values(|p: Param| p.name.name@)
}

/// The state a program's items are lowered from: the parameters of `main`
/// recorded, nothing lowered yet.
pub open spec fn program_start(p: Program) -> LowerState {
    LowerState { next: 0, stmts: Seq::empty(), qtys: params_qtys(Seq::empty(), main_params(p.items@)) }
}

/// Lowering of a program's items.
pub open spec fn program_lowering(p: Program) -> (LowerState, Result<(), Seq<char>>) {
    lower_items_spec(program_start(p), p.items@)
}

/// Occurrences of `v` in the bodies of lowered statements.
pub open spec fn shapes_count(ss: Seq<StmtShape>, v: Seq<char>) -> nat
    decreases ss.len(),
{
    if ss.len() == 0 {
        0
    } else {
        shapes_count(ss.drop_last(), v) + model_count(ss.last().body, v)
    }
}

/// The lowered program fits the machine: its statement ids, and the uses of
/// each linear variable, can be counted in a `usize`.
pub open spec fn lowering_fits(p: Program) -> bool {
    let st = program_lowering(p).0;
    &&& st.next <= usize::MAX
    &&& forall|i: int| 0 <= i < st.qtys.len() && (#[trigger] st.qtys[i]).1 == Quantity::One
        ==> shapes_count(st.stmts, st.qtys[i].0) <= usize::MAX
}

/// A module holding exactly what lowering produced: the lowered statements,
/// all scalar, an empty schedule, no accesses, the recorded quantities and
/// the parameters of `main`.
pub open spec fn lowered_module(m: PirModule, st: LowerState, names: Seq<Seq<char>>) -> bool {
    &&& m.statements@.map_values(|s: PirStatement| shape_of(s)) == st.stmts
    &&& forall|i: int| 0 <= i < m.statements@.len() ==> scalar_stmt(#[trigger] m.statements@[i])
    &&& m.schedule.root is Empty
    &&& m.schedule.parameters@.len() == 0
    &&& m.accesses@.len() == 0
    &&& m.quantities@ == st.qtys
    &&& m.parameters@.map_values(|s: String| s@) == names
    &&& m.extern_functions@.len() == 0
}

/// The outcome of lowering a program: the first unsupported construct's
/// error; else the lowered module when it validates, and otherwise the
/// validation errors' `{:?}`.
pub open spec fn program_outcome(p: Program, r: Result<PirModule, LoweringError>) -> bool {
    let st = program_lowering(p).0;
    let names = param_names(main_params(p.items@));
    match program_lowering(p).1 {
        Err(t) => r matches Err(LoweringError::Unsupported(u)) && u@ == t,
        Ok(_) => match r {
            Ok(m) => lowered_module(m, st, names) && pir_errors(m).len() == 0,
            Err(LoweringError::ValidationError(u)) => exists|m: PirModule|
                lowered_module(m, st, names) && pir_errors(m).len() > 0 && u@ == issues_debug(pir_errors(m)),
            Err(_) => false,
        },
    }
}

proof fn lemma_total_count_shapes(stmts: Seq<PirStatement>, v: Seq<char>, k: int)
    requires
        0 <= k <= stmts.len(),
    ensures
        total_count(stmts, v, k) == shapes_count(stmts.take(k).map_values(|s: PirStatement| shape_of(s)), v),
    decreases k,
{
    if k > 0 {
        lemma_total_count_shapes(stmts, v, k - 1);
        let a = stmts.take(k).map_values(|s: PirStatement| shape_of(s));
        assert(a.drop_last() =~= stmts.take(k - 1).map_values(|s: PirStatement| shape_of(s)));
        lemma_count_model(stmts[k - 1].body, v);
    }
}

proof fn lemma_main_params_skip(is: Seq<Item>, k: int)
    requires
        0 <= k < is.len(),
        !(is[k] matches Item::Function(f) && f.name.name@ == "main"@),
    ensures
        main_params(is.subrange(k, is.len() as int)) == main_params(is.subrange(k + 1, is.len() as int)),
{
    let t = is.subrange(k, is.len() as int);
    assert(t[0] == is[k]);
    assert(t.drop_first() =~= is.subrange(k + 1, is.len() as int));
}

impl LoweringContext {
    /// Records the parameters of the first function named `main`, with the
    /// quantity of each parameter's type.
    fn extract_parameters(&mut self, program: &Program)
        ensures
            final(self).next_id() == old(self).next_id(),
            final(self).stmt_seq() == old(self).stmt_seq(),
            final(self).qty_view() == params_qtys(old(self).qty_view(), main_params(program.items@)),
            final(self).params().map_values(|s: String| s@)
                == old(self).params().map_values(|s: String| s@) + param_names(main_params(program.items@)),
            final(self).aux() == old(self).aux(),
    {
        let ghost is = program.items@;
        let ghost pv0 = self.params().map_values(|s: String| s@);
        let mut k: usize = 0;
        assert(is.subrange(0, is.len() as int) =~= is);
        while k < program.items.len()
            invariant
                k <= is.len(),
                is == program.items@,
                main_params(is) == main_params(is.subrange(k as int, is.len() as int)),
                self.next_id() == old(self).next_id(),
                self.stmt_seq() == old(self).stmt_seq(),
                self.qty_view() == old(self).qty_view(),
                self.params() == old(self).params(),
                pv0 == old(self).params().map_values(|s: String| s@),
                self.aux() == old(self).aux(),
            decreases is.len() - k,
        {
            match &program.items[k] {
                Item::Function(func) => {
                    if str_eq(func.name.name.as_str(), "main") {
                        let ghost t = is.subrange(k as int, is.len() as int);
                        assert(t[0] == is[k as int]);
                        assert(main_params(is) == func.params@);
                        let ghost q0 = self.qty_view();
                        let mut j: usize = 0;
                        assert(func.params@.take(0) =~= Seq::<Param>::empty());
                        assert(pv0 + param_names(func.params@.take(0)) =~= pv0);
                        while j < func.params.len()
                            invariant
                                j <= func.params@.len(),
                                main_params(is) == func.params@,
                                self.next_id() == old(self).next_id(),
                                self.stmt_seq() == old(self).stmt_seq(),
                                q0 == old(self).qty_view(),
                                self.qty_view() == params_qtys(q0, func.params@.take(j as int)),
                                self.params().map_values(|s: String| s@) == pv0 + param_names(func.params@.take(j as int)),
                                self.aux() == old(self).aux(),
                            decreases func.params@.len() - j,
                        {
                            let param = &func.params[j];
                            let ghost before = self.params();
                            self.param_names.push(param.name.name.clone());
                            self.quantities.insert(param.name.name.clone(), param.ty.quantity);
                            proof {
                                let t = func.params@.take(j + 1);
                                assert(t.drop_last() =~= func.params@.take(j as int));
                                assert(t.last() == func.params@[j as int]);
                                assert(self.params().map_values(|s: String| s@)
                                    =~= before.map_values(|s: String| s@).push(param.name.name@));
                                assert(param_names(t) =~= param_names(func.params@.take(j as int)).push(param.name.name@));
                            }
                            j = j + 1;
                        }
                        assert(func.params@.take(func.params@.len() as int) =~= func.params@);
                        return;
                    }
                    proof {
                        lemma_main_params_skip(is, k as int);
                    }
                },
                _ => {
                    proof {
                        lemma_main_params_skip(is, k as int);
                    }
                },
            }
            k = k + 1;
        }
        assert(is.subrange(k as int, is.len() as int) =~= Seq::<Item>::empty());
        assert(pv0 + param_names(Seq::<Param>::empty()) =~= pv0);
    }
}


impl LoweringContext {
    /// The schedule tree of the collected pieces: an empty tree without
    /// parameters when there are none, the single piece alone, or a sequence
    /// of them, under the parameters. The pieces are handed over.
    fn build_schedule_tree(&mut self) -> (r: Result<ScheduleTree, LoweringError>)
        ensures
            r is Ok,
            old(self).aux().1.len() == 0 ==> r->Ok_0.root == ScheduleNode::Empty && r->Ok_0.parameters@.len() == 0,
            old(self).aux().1.len() == 1 ==> r->Ok_0.root == old(self).aux().1[0] && r->Ok_0.parameters@ == old(self).params(),
            old(self).aux().1.len() > 1 ==> (r->Ok_0.root matches ScheduleNode::Sequence { children }
                && children@ == old(self).aux().1) && r->Ok_0.parameters@ == old(self).params(),
            final(self).state() == old(self).state(),
            final(self).stmt_seq() == old(self).stmt_seq(),
            final(self).params() == old(self).params(),
            final(self).aux().0 == old(self).aux().0,
    {
        if self.schedule_nodes.len() == 0 {
            return Ok(ScheduleTree::new(ScheduleNode::empty(), Vec::new()));
        }
        let mut nodes: Vec<ScheduleNode> = Vec::new();
        std::mem::swap(&mut nodes, &mut self.schedule_nodes);
        let root = if nodes.len() == 1 {
            nodes.pop().unwrap()
        } else {
            ScheduleNode::sequence(nodes)
        };
        Ok(ScheduleTree::new(root, copy_strings(&self.param_names)))
    }

    /// A one-row access map over the indices and the parameters, reading the
    /// first dimension.
    fn build_access_map(&self, indices: &[PirExpr]) -> (r: Result<AffineMap, LoweringError>)
        requires
            0 < indices@.len() + self.params().len() <= usize::MAX,
        ensures
            r matches Ok(m) && m@ == seq![PieceModel {
                domain: DomainModel {
                    dims: (indices@.len() + self.params().len()) as nat,
                    n_iter: (indices@.len() + self.params().len()) as nat,
                    n_param: 0,
                    constraints: Seq::empty(),
                    name: None,
                },
                matrix: MatrixModel {
                    data: zero_model(1, (indices@.len() + self.params().len()) as nat).data.update(0, 1),
                    ..zero_model(1, (indices@.len() + self.params().len()) as nat)
                },
            }],
    {
        let dims = indices.len() + self.param_names.len();
        let mut m = Matrix::new(1, dims);
        m.set(0, 0, 1);
        let domain = AffineDomain::universe(dims, 0);
        let map = AffineMap::total(domain, m);
        proof {
            assert(map@[0].domain.constraints =~= Seq::<ConstraintModel>::empty());
        }
        Ok(map)
    }

    /// Lowers the body of a reversible block statement into the context.
    fn lower_reversible_block(&mut self, block: &ReversibleBlock) -> (r: Result<(), LoweringError>)
        requires
            old(self).all_scalar(),
            lower_stmts_spec(old(self).state(), block.body.stmts@).0.next <= usize::MAX,
        ensures
            final(self).state() == lower_stmts_spec(old(self).state(), block.body.stmts@).0,
            final(self).all_scalar(),
            final(self).frame() == old(self).frame(),
            unit_outcome(r, lower_stmts_spec(old(self).state(), block.body.stmts@).1),
        decreases block, 0nat,
    {
        self.lower_stmts(&block.body.stmts)
    }
}


impl LoweringContext {
    /// Lowers a program: records the parameters of `main`, lowers every item,
    /// builds the module and validates it.
    fn lower_program(&mut self, program: &Program) -> (r: Result<PirModule, LoweringError>)
        requires
            old(self).is_fresh(),
            lowering_fits(*program),
        ensures
            program_outcome(*program, r),
    {
        let ghost is = program.items@;
        let ghost start = program_start(*program);
        self.extract_parameters(program);
        proof {
            assert(self.state().stmts =~= Seq::<StmtShape>::empty());
            assert(old(self).qty_view() =~= Seq::<(Seq<char>, Quantity)>::empty());
            assert(self.state() == start);
            assert(self.params().map_values(|s: String| s@) =~= param_names(main_params(is)));
            assert(is.take(0) =~= Seq::<Item>::empty());
        }
        let mut k: usize = 0;
        while k < program.items.len()
            invariant
                k <= is.len(),
                is == program.items@,
                start == program_start(*program),
                lowering_fits(*program),
                self.state() == lower_items_spec(start, is.take(k as int)).0,
                lower_items_spec(start, is.take(k as int)).1 is Ok,
                self.all_scalar(),
                self.aux() == old(self).aux(),
                self.params().map_values(|s: String| s@) == param_names(main_params(is)),
            decreases is.len() - k,
        {
            proof {
                lemma_items_prefix(start, is, k + 1);
                let t = is.take(k + 1);
                assert(t.drop_last() =~= is.take(k as int));
                assert(t.last() == is[k as int]);
            }
            match self.lower_item(&program.items[k]) {
                Ok(()) => {},
                Err(e) => {
                    proof {
                        lemma_items_err_stops(start, is, k + 1);
                    }
                    return Err(e);
                },
            }
            k = k + 1;
        }
        assert(is.take(is.len() as int) =~= is);
        let ghost st = self.state();
        let schedule = match self.build_schedule_tree() {
            Ok(t) => t,
            Err(e) => return Err(e),
        };
        let mut statements: Vec<PirStatement> = Vec::new();
        std::mem::swap(&mut statements, &mut self.statements);
        let mut accesses = AccessRelations::new();
        std::mem::swap(&mut accesses, &mut self.accesses);
        let mut quantities = QuantityMap::new();
        std::mem::swap(&mut quantities, &mut self.quantities);
        let parameters = copy_strings(&self.param_names);
        let pir = PirModule::new(statements, schedule, accesses, quantities, parameters);
        let ghost names = param_names(main_params(is));
        proof {
            assert(pir.statements@.map_values(|s: PirStatement| shape_of(s)) == st.stmts);
            assert(forall|i: int| 0 <= i < pir.statements@.len() ==> scalar_stmt(#[trigger] pir.statements@[i]));
            assert(pir.schedule.root is Empty);
            assert(pir.schedule.parameters@.len() == 0);
            assert(pir.accesses@.len() == 0);
            assert(pir.quantities@ == st.qtys);
            assert(pir.parameters@.map_values(|s: String| s@) == names);
            assert(lowered_module(pir, st, names));
            assert forall|i: int| 0 <= i < pir.quantities@.len() && (#[trigger] pir.quantities@[i]).1 == Quantity::One
                implies total_count(pir.statements@, pir.quantities@[i].0, pir.statements@.len() as int) <= usize::MAX by {
                lemma_total_count_shapes(pir.statements@, pir.quantities@[i].0, pir.statements@.len() as int);
                assert(pir.statements@.take(pir.statements@.len() as int) =~= pir.statements@);
            }
        }
        match validate_pir(&pir) {
            Ok(()) => Ok(pir),
            Err(es) => {
                let d = validation_errors_debug(&es);
                Err(LoweringError::ValidationError(d))
            },
        }
    }
}

/// Lowers a program to the polyhedral IR: the parameters of `main` become
/// the module's parameters, the body of `main` its scalar statements, and the
/// module is validated.
pub fn lower_program(program: &Program) -> (r: Result<PirModule, LoweringError>)
    requires
        lowering_fits(*program),
    ensures
        program_outcome(*program, r),
{
    let mut ctx = LoweringContext::new();
    ctx.lower_program(program)
}

/// Lowers a program to the polyhedral IR, as `lower_program` does.
pub fn lower_ast(program: &Program) -> (r: Result<PirModule, LoweringError>)
    requires
        lowering_fits(*program),
    ensures
        program_outcome(*program, r),
{
    lower_program(program)
}


/// The statements are numbered by their positions, and the next id is the
/// next position.
pub open spec fn ids_consecutive(st: LowerState) -> bool {
    &&& st.next == st.stmts.len()
    &&& forall|i: int| 0 <= i < st.stmts.len() ==> (#[trigger] st.stmts[i]).id == i
}

proof fn lemma_push_keeps_ids(s: LowerState, body: ExprModel, q: Quantity, m: Mutability)
    requires
        ids_consecutive(s),
    ensures
        ids_consecutive(push_shape(s, body, q, m)),
{
    let t = push_shape(s, body, q, m);
    assert forall|i: int| 0 <= i < t.stmts.len() implies (#[trigger] t.stmts[i]).id == i by {
        if i < s.stmts.len() {
            assert(t.stmts[i] == s.stmts[i]);
        }
    }
}

proof fn lemma_expr_ids(st: LowerState, e: Expr)
    requires
        ids_consecutive(st),
    ensures
        ids_consecutive(lower_expr_spec(st, e).0),
    decreases e,
{
    match e.kind {
        ExprKind::Binary(_, l, r) => {
            lemma_expr_ids(st, *l);
            lemma_expr_ids(lower_expr_spec(st, *l).0, *r);
        },
        ExprKind::Unary(_, x) => lemma_expr_ids(st, *x),
        ExprKind::Call(_, args) => lemma_exprs_ids(st, args@),
        ExprKind::Index(b, i) => {
            lemma_expr_ids(st, *b);
            lemma_expr_ids(lower_expr_spec(st, *b).0, *i);
        },
        ExprKind::Field(b, _) => lemma_expr_ids(st, *b),
        ExprKind::Let(b) => lemma_expr_ids(st, b.value),
        ExprKind::If(c, t, el) => {
            lemma_expr_ids(st, *c);
            let s1 = lower_expr_spec(st, *c).0;
            lemma_expr_ids(s1, *t);
            let s2 = lower_expr_spec(s1, *t).0;
            match el {
                Some(b) => lemma_expr_ids(s2, *b),
                None => {},
            }
        },
        ExprKind::Reversible(block) => lemma_stmts_ids(st, block.body.stmts@),
        _ => {},
    }
}

proof fn lemma_exprs_ids(st: LowerState, es: Seq<Expr>)
    requires
        ids_consecutive(st),
    ensures
        ids_consecutive(lower_exprs_spec(st, es).0),
    decreases es,
{
    if es.len() > 0 {
        lemma_exprs_ids(st, es.drop_last());
        lemma_expr_ids(lower_exprs_spec(st, es.drop_last()).0, es.last());
    }
}

proof fn lemma_stmt_ids(st: LowerState, s: Stmt)
    requires
        ids_consecutive(st),
    ensures
        ids_consecutive(lower_stmt_spec(st, s).0),
    decreases s,
{
    match s.kind {
        StmtKind::Let(l) => {
            let s0 = record_qty(st, l.name.name@, l.quantity);
            lemma_expr_ids(s0, l.value);
            match lower_expr_spec(s0, l.value).1 {
                Ok(vm) => lemma_push_keeps_ids(lower_expr_spec(s0, l.value).0, vm, l.quantity, l.mutability),
                Err(_) => {},
            }
        },
        StmtKind::LetInOut(l) => {
            let s0 = record_qty(st, l.name.name@, Quantity::Many);
            lemma_expr_ids(s0, l.value);
            match lower_expr_spec(s0, l.value).1 {
                Ok(vm) => lemma_push_keeps_ids(lower_expr_spec(s0, l.value).0, vm, Quantity::Many, Mutability::InOut),
                Err(_) => {},
            }
        },
        StmtKind::LetConsume(l) => {
            let s0 = record_qty(st, l.name.name@, Quantity::One);
            lemma_expr_ids(s0, l.value);
            match lower_expr_spec(s0, l.value).1 {
                Ok(vm) => lemma_push_keeps_ids(lower_expr_spec(s0, l.value).0, vm, Quantity::One, Mutability::Consume),
                Err(_) => {},
            }
        },
        StmtKind::Expr(x) => {
            lemma_expr_ids(st, x);
            match lower_expr_spec(st, x).1 {
                Ok(vm) => lemma_push_keeps_ids(lower_expr_spec(st, x).0, vm, Quantity::Many, Mutability::Immutable),
                Err(_) => {},
            }
        },
        StmtKind::Reversible(block) => lemma_stmts_ids(st, block.body.stmts@),
        StmtKind::Item(item) => lemma_item_ids(st, item),
        _ => {},
    }
}

proof fn lemma_stmts_ids(st: LowerState, ss: Seq<Stmt>)
    requires
        ids_consecutive(st),
    ensures
        ids_consecutive(lower_stmts_spec(st, ss).0),
    decreases ss,
{
    if ss.len() > 0 {
        lemma_stmts_ids(st, ss.drop_last());
        lemma_stmt_ids(lower_stmts_spec(st, ss.drop_last()).0, ss.last());
    }
}

proof fn lemma_item_ids(st: LowerState, i: Item)
    requires
        ids_consecutive(st),
    ensures
        ids_consecutive(lower_item_spec(st, i).0),
    decreases i,
{
    match i {
        Item::Function(f) => {
            if f.name.name@ == "main"@ {
                lemma_stmts_ids(st, f.body.stmts@);
            }
        },
        _ => {},
    }
}

proof fn lemma_items_ids(st: LowerState, is: Seq<Item>)
    requires
        ids_consecutive(st),
    ensures
        ids_consecutive(lower_items_spec(st, is).0),
    decreases is,
{
    if is.len() > 0 {
        lemma_items_ids(st, is.drop_last());
        lemma_item_ids(lower_items_spec(st, is.drop_last()).0, is.last());
    }
}

/// Lowering a program numbers its statements 0, 1, 2, ... in the order it
/// creates them, so no two lowered statements share an id.
pub proof fn lemma_program_ids(p: Program)
    ensures
        ids_consecutive(program_lowering(p).0),
        forall|i: int, j: int| 0 <= i < j < program_lowering(p).0.stmts.len()
            ==> (#[trigger] program_lowering(p).0.stmts[i]).id != (#[trigger] program_lowering(p).0.stmts[j]).id,
{
    lemma_items_ids(program_start(p), p.items@);
}


/// The truth value of a condition as an integer: 1 when it holds, 0 when not.
pub open spec fn truth(b: bool) -> int {
    if b {
        1
    } else {
        0
    }
}

/// The integer a source operator computes from `a` and `b`, for the
/// arithmetic operators, the comparisons and the logical connectives (on
/// truth values, any non-zero integer being true); division and remainder
/// need a non-zero divisor.
pub open spec fn source_value(op: BinOp, a: int, b: int) -> Option<int> {
    match op {
        BinOp::Add => Some(a + b),
        BinOp::Sub => Some(a - b),
        BinOp::Mul => Some(a * b),
        BinOp::Div => if b != 0 { Some(a / b) } else { None },
        BinOp::Rem => if b != 0 { Some(a % b) } else { None },
        BinOp::Eq => Some(truth(a == b)),
        BinOp::Ne => Some(truth(a != b)),
        BinOp::Lt => Some(truth(a < b)),
        BinOp::Le => Some(truth(a <= b)),
        BinOp::Gt => Some(truth(a > b)),
        BinOp::Ge => Some(truth(a >= b)),
        BinOp::And => Some(truth(a != 0 && b != 0)),
        BinOp::Or => Some(truth(a != 0 || b != 0)),
        _ => None,
    }
}

/// The integer a PIR operator computes from `a` and `b`, with the same
/// conventions as `source_value`.
pub open spec fn pir_value(op: BinaryOp, a: int, b: int) -> Option<int> {
    match op {
        BinaryOp::Add => Some(a + b),
        BinaryOp::Sub => Some(a - b),
        BinaryOp::Mul => Some(a * b),
        BinaryOp::Div => if b != 0 { Some(a / b) } else { None },
        BinaryOp::Mod => if b != 0 { Some(a % b) } else { None },
        BinaryOp::Eq => Some(truth(a == b)),
        BinaryOp::Ne => Some(truth(a != b)),
        BinaryOp::Lt => Some(truth(a < b)),
        BinaryOp::Le => Some(truth(a <= b)),
        BinaryOp::Gt => Some(truth(a > b)),
        BinaryOp::Ge => Some(truth(a >= b)),
        BinaryOp::And => Some(truth(a != 0 && b != 0)),
        BinaryOp::Or => Some(truth(a != 0 || b != 0)),
        _ => None,
    }
}

/// Lowering keeps what an operator computes: on any operands, the PIR
/// operator that a source arithmetic operator, comparison or connective
/// lowers to computes the same value (`i < n` stays a strict comparison).
pub proof fn lemma_lowering_keeps_meaning(op: BinOp, a: int, b: int)
    requires
        source_value(op, a, b) is Some,
    ensures
        pir_value(binop_lowering(op), a, b) == source_value(op, a, b),
{
}

/// Lowering keeps each operator's symbol: where a token stands for a source
/// operator that PIR has too (all but `&` and `|`, which lower to the
/// logical connectives), the PIR operator it lowers to is printed with the
/// token's own symbol, the one its diagnostic name quotes (`<` stays `<`).
pub proof fn lemma_lowering_keeps_symbol(k: TokenKind)
    requires
        binary_op_of(k) is Some,
        !(binary_op_of(k) == Some(BinOp::BitAnd) || binary_op_of(k) == Some(BinOp::BitOr)),
    ensures
        display_name_text(k) == seq!['\''] + binary_op_text(binop_lowering(binary_op_of(k)->0)) + seq!['\''],
{
    reveal_strlit("||");
    reveal_strlit("'||'");
    reveal_strlit("&&");
    reveal_strlit("'&&'");
    reveal_strlit("==");
    reveal_strlit("'=='");
    reveal_strlit("!=");
    reveal_strlit("'!='");
    reveal_strlit("<");
    reveal_strlit("'<'");
    reveal_strlit("<=");
    reveal_strlit("'<='");
    reveal_strlit(">");
    reveal_strlit("'>'");
    reveal_strlit(">=");
    reveal_strlit("'>='");
    reveal_strlit("^");
    reveal_strlit("'^'");
    reveal_strlit("<<");
    reveal_strlit("'<<'");
    reveal_strlit(">>");
    reveal_strlit("'>>'");
    reveal_strlit("+");
    reveal_strlit("'+'");
    reveal_strlit("-");
    reveal_strlit("'-'");
    reveal_strlit("*");
    reveal_strlit("'*'");
    reveal_strlit("/");
    reveal_strlit("'/'");
    reveal_strlit("%");
    reveal_strlit("'%'");
    match k {
        TokenKind::OrOr => {
            assert(display_name_text(k) =~= seq!['\''] + "||"@ + seq!['\'']);
        },
        TokenKind::AndAnd => {
            assert(display_name_text(k) =~= seq!['\''] + "&&"@ + seq!['\'']);
        },
        TokenKind::Eq => {
            assert(display_name_text(k) =~= seq!['\''] + "=="@ + seq!['\'']);
        },
        TokenKind::Ne => {
            assert(display_name_text(k) =~= seq!['\''] + "!="@ + seq!['\'']);
        },
        TokenKind::Lt => {
            assert(display_name_text(k) =~= seq!['\''] + "<"@ + seq!['\'']);
        },
        TokenKind::Le => {
            assert(display_name_text(k) =~= seq!['\''] + "<="@ + seq!['\'']);
        },
        TokenKind::Gt => {
            assert(display_name_text(k) =~= seq!['\''] + ">"@ + seq!['\'']);
        },
        TokenKind::Ge => {
            assert(display_name_text(k) =~= seq!['\''] + ">="@ + seq!['\'']);
        },
        TokenKind::Caret => {
            assert(display_name_text(k) =~= seq!['\''] + "^"@ + seq!['\'']);
        },
        TokenKind::Shl => {
            assert(display_name_text(k) =~= seq!['\''] + "<<"@ + seq!['\'']);
        },
        TokenKind::Shr => {
            assert(display_name_text(k) =~= seq!['\''] + ">>"@ + seq!['\'']);
        },
        TokenKind::Plus => {
            assert(display_name_text(k) =~= seq!['\''] + "+"@ + seq!['\'']);
        },
        TokenKind::Minus => {
            assert(display_name_text(k) =~= seq!['\''] + "-"@ + seq!['\'']);
        },
        TokenKind::Star => {
            assert(display_name_text(k) =~= seq!['\''] + "*"@ + seq!['\'']);
        },
        TokenKind::Slash => {
            assert(display_name_text(k) =~= seq!['\''] + "/"@ + seq!['\'']);
        },
        TokenKind::Percent => {
            assert(display_name_text(k) =~= seq!['\''] + "%"@ + seq!['\'']);
        },
        _ => {},
    }
}

/// The integer a source prefix operator computes from `a`: negation, and
/// logical not on truth values.
pub open spec fn source_unary_value(op: UnOp, a: int) -> Option<int> {
    match op {
        UnOp::Neg => Some(-a),
        UnOp::Not => Some(truth(a == 0)),
        _ => None,
    }
}

/// The integer a PIR prefix operator computes from `a`.
pub open spec fn pir_unary_value(op: UnaryOp, a: int) -> int {
    match op {
        UnaryOp::Neg => -a,
        UnaryOp::Not => truth(a == 0),
    }
}

/// Lowering keeps what a prefix operator computes: `-` stays negation and
/// `!` stays logical not.
pub proof fn lemma_unary_lowering_keeps_meaning(op: UnOp, a: int)
    requires
        source_unary_value(op, a) is Some,
    ensures
        Some(pir_unary_value(unop_lowering(op), a)) == source_unary_value(op, a),
{
}

} // verus!
