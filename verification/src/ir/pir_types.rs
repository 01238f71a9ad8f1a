//! The polyhedral IR module: statements with iteration domains, the
//! schedule, access relations and the quantities the type checker assigned.

use vstd::prelude::*;
pub use crate::ast::{Mutability, Quantity};
use crate::ast::Span;
use crate::ir::access_relation::AccessRelations;
use crate::ir::affine_domain::{AffineDomain, DomainModel};
use crate::ir::schedule_tree::{
    ScheduleTree, ScheduleValidationError, StmtId, domains_of, validate_at, validate_safe,
};
use crate::text::str_eq;

verus! {

/// Expression of the PIR, lowered from the AST.
#[derive(Debug, PartialEq)]
pub enum PirExpr {
    IntLit(i64),
    /// Float literal, kept as its source text.
    FloatLit(String),
    BoolLit(bool),
    Var(String),
    Binary { op: BinaryOp, left: Box<PirExpr>, right: Box<PirExpr> },
    Unary { op: UnaryOp, expr: Box<PirExpr> },
    Call { name: String, args: Vec<PirExpr> },
    /// Array access.
    Index { base: Box<PirExpr>, indices: Vec<PirExpr> },
    /// Struct field access.
    Field { base: Box<PirExpr>, field: String },
    /// Let binding (SSA form).
    Let { name: String, qty: Quantity, mutability: Mutability, value: Box<PirExpr>, body: Box<PirExpr> },
    If { cond: Box<PirExpr>, then_branch: Box<PirExpr>, else_branch: Box<PirExpr> },
    /// Reversible block with its inverse.
    Reversible { body: Box<PirExpr>, inverse: Box<PirExpr> },
    /// Quantum operation (qalloc, gates, measure, ...).
    QuantumOp { op: String, args: Vec<PirExpr>, qubits: Vec<PirExpr> },
}

#[derive(Debug, Clone, Copy, PartialEq, Eq, Structural)]
pub enum BinaryOp {
    Add,
    Sub,
    Mul,
    Div,
    Mod,
    And,
    Or,
    Xor,
    Eq,
    Ne,
    Lt,
    Le,
    Gt,
    Ge,
    Shl,
    Shr,
}

#[derive(Debug, Clone, Copy, PartialEq, Eq, Structural)]
pub enum UnaryOp {
    Neg,
    Not,
}

/// A computational unit with its iteration domain.
#[derive(Debug)]
pub struct PirStatement {
    pub id: StmtId,
    /// Iteration domain.
    pub domain: AffineDomain,
    /// Lowered body.
    pub body: PirExpr,
    /// Quantity from the type checker.
    pub quantity: Quantity,
    pub mutability: Mutability,
    /// Source location, for diagnostics.
    pub span: Option<Span>,
}

/// Variable name -> quantity, in insertion order, each name at most once.
#[derive(Debug)]
pub struct QuantityMap {
    entries: Vec<(String, Quantity)>,
}

/// The entries as values.
pub open spec fn entries_view(es: Seq<(String, Quantity)>) -> Seq<(Seq<char>, Quantity)> {
    es.map_values(|e: (String, Quantity)| (e.0@, e.1))
}

/// No name occurs twice.
pub open spec fn keys_unique(s: Seq<(Seq<char>, Quantity)>) -> bool {
    forall|i: int, j: int| 0 <= i < j < s.len() ==> (#[trigger] s[i]).0 != (#[trigger] s[j]).0
}

/// Position of a name, if present.
pub open spec fn key_index(s: Seq<(Seq<char>, Quantity)>, k: Seq<char>) -> Option<int> {
    if exists|i: int| 0 <= i < s.len() && (#[trigger] s[i]).0 == k {
        Some(choose|i: int| 0 <= i < s.len() && (#[trigger] s[i]).0 == k)
    } else {
        None
    }
}

/// The quantities after setting `k` to `v`: in place where `k` is
/// recorded, appended otherwise.
pub open spec fn qty_set(s: Seq<(Seq<char>, Quantity)>, k: Seq<char>, v: Quantity) -> Seq<(Seq<char>, Quantity)> {
    match key_index(s, k) {
        Some(i) => s.update(i, (k, v)),
        None => s.push((k, v)),
    }
}

impl View for QuantityMap {
    type V = Seq<(Seq<char>, Quantity)>;

    closed spec fn view(&self) -> Seq<(Seq<char>, Quantity)> {
        entries_view(self.entries@)
    }
}

impl QuantityMap {
    #[verifier::type_invariant]
    spec fn unique(&self) -> bool {
        keys_unique(entries_view(self.entries@))
    }

    pub fn new() -> (r: Self)
        ensures
            r@ == Seq::<(Seq<char>, Quantity)>::empty(),
    {
        let r = QuantityMap { entries: Vec::new() };
        assert(entries_view(r.entries@) =~= Seq::<(Seq<char>, Quantity)>::empty());
        r
    }

    /// Number of names.
    pub fn len(&self) -> (r: usize)
        ensures
            r == self@.len(),
            keys_unique(self@),
    {
        proof {
            use_type_invariant(self);
        }
        self.entries.len()
    }

    pub fn is_empty(&self) -> (r: bool)
        ensures
            r == (self@.len() == 0),
    {
        self.entries.len() == 0
    }

    /// The entry at a position.
    pub fn entry(&self, i: usize) -> (r: (&String, Quantity))
        requires
            i < self@.len(),
        ensures
            r.0@ == self@[i as int].0,
            r.1 == self@[i as int].1,
    {
        let e = &self.entries[i];
        (&e.0, e.1)
    }

    fn find(&self, key: &str) -> (r: Option<usize>)
        ensures
            r matches Some(i) ==> i < self@.len() && self@[i as int].0 == key@,
            r is None ==> forall|i: int| 0 <= i < self@.len() ==> (#[trigger] self@[i]).0 != key@,
    {
        let mut i: usize = 0;
        while i < self.entries.len()
            invariant
                i <= self.entries@.len(),
                self@ == entries_view(self.entries@),
                forall|j: int| 0 <= j < i ==> (#[trigger] self@[j]).0 != key@,
            decreases self.entries@.len() - i,
        {
            if str_eq(self.entries[i].0.as_str(), key) {
                return Some(i);
            }
            i = i + 1;
        }
        None
    }

    /// The quantity of a name.
    pub fn get(&self, key: &str) -> (r: Option<Quantity>)
        ensures
            r matches Some(q) ==> exists|i: int| 0 <= i < self@.len() && self@[i] == (key@, q),
            r is None ==> forall|i: int| 0 <= i < self@.len() ==> (#[trigger] self@[i]).0 != key@,
    {
        match self.find(key) {
            Some(i) => {
                assert(self@[i as int] == (key@, self.entries@[i as int].1));
                Some(self.entries[i].1)
            },
            None => None,
        }
    }

    pub fn contains_key(&self, key: &str) -> (r: bool)
        ensures
            r == exists|i: int| 0 <= i < self@.len() && (#[trigger] self@[i]).0 == key@,
    {
        self.find(key).is_some()
    }

    /// Sets the quantity of a name: in place where the name is present
    /// (returning the previous quantity), appended otherwise.
    pub fn insert(&mut self, key: String, value: Quantity) -> (r: Option<Quantity>)
        ensures
            r matches Some(q) ==> exists|i: int| 0 <= i < old(self)@.len() && old(self)@[i] == (key@, q)
                && final(self)@ == old(self)@.update(i, (key@, value)),
            r is None ==> (forall|i: int| 0 <= i < old(self)@.len() ==> (#[trigger] old(self)@[i]).0 != key@)
                && final(self)@ == old(self)@.push((key@, value)),
            keys_unique(final(self)@),
            final(self)@ == qty_set(old(self)@, key@, value),
    {
        proof {
            use_type_invariant(&*self);
        }
        let ghost k = key@;
        let r = match self.find(key.as_str()) {
            Some(i) => {
                let prev = self.entries[i].1;
                let ghost old_view = self@;
                let mut entries: Vec<(String, Quantity)> = Vec::new();
                std::mem::swap(&mut entries, &mut self.entries);
                proof {
                    assert(entries_view(entries@) == old_view);
                }
                entries.set(i, (key, value));
                proof {
                    assert(entries_view(entries@) =~= old_view.update(i as int, (entries@[i as int].0@, value)));
                }
                self.entries = entries;
                proof {
                    assert(old_view[i as int].0 == k);
                    let j = choose|j: int| 0 <= j < old_view.len() && (#[trigger] old_view[j]).0 == k;
                    assert(j == i as int);
                }
                Some(prev)
            },
            None => {
                let ghost old_view = self@;
                let mut entries: Vec<(String, Quantity)> = Vec::new();
                std::mem::swap(&mut entries, &mut self.entries);
                entries.push((key, value));
                proof {
                    assert(entries_view(entries@) =~= old_view.push((entries@.last().0@, value)));
                }
                self.entries = entries;
                proof {
                    assert(key_index(old_view, k) is None);
                }
                None
            },
        };
        proof {
            use_type_invariant(&*self);
        }
        r
    }
}

impl Clone for QuantityMap {
    fn clone(&self) -> (r: Self)
        ensures
            r@ == self@,
    {
        proof {
            use_type_invariant(self);
        }
        let mut entries: Vec<(String, Quantity)> = Vec::new();
        let mut i: usize = 0;
        while i < self.entries.len()
            invariant
                i <= self.entries@.len(),
                entries@ == self.entries@.subrange(0, i as int),
            decreases self.entries@.len() - i,
        {
            let k = self.entries[i].0.clone();
            entries.push((k, self.entries[i].1));
            proof {
                assert(entries@ =~= self.entries@.subrange(0, i + 1));
            }
            i = i + 1;
        }
        proof {
            assert(entries@ =~= self.entries@);
        }
        QuantityMap { entries }
    }
}

/// The whole PIR module.
#[derive(Debug)]
pub struct PirModule {
    /// All statements.
    pub statements: Vec<PirStatement>,
    /// Execution order.
    pub schedule: ScheduleTree,
    /// Memory accesses.
    pub accesses: AccessRelations,
    /// Quantities from the type checker.
    pub quantities: QuantityMap,
    /// Symbolic constants.
    pub parameters: Vec<String>,
    /// Signatures of external functions.
    pub extern_functions: Vec<ExternFunction>,
}

/// Declaration of an external function.
#[derive(Debug)]
pub struct ExternFunction {
    pub name: String,
    pub params: Vec<ExternParam>,
    pub return_type: Option<String>,
}

#[derive(Debug)]
pub struct ExternParam {
    pub name: String,
    pub ty: String,
    pub quantity: Quantity,
    pub mutability: Mutability,
}

/// Validation errors of a PIR module.
#[derive(Debug)]
pub enum ValidationError {
    ScheduleError(String),
    UnscheduledStatement(StmtId),
    ZeroQuantityInRuntime(String, StmtId),
    LinearVarNotUsed(String),
    LinearVarUsedMultipleTimes(String, usize),
    AccessDomainMismatch(StmtId),
    DuplicateStatementId(StmtId),
}

/// A validation error as values.
pub enum ValidationIssue {
    ScheduleError(Seq<char>),
    UnscheduledStatement(usize),
    ZeroQuantityInRuntime(Seq<char>, usize),
    LinearVarNotUsed(Seq<char>),
    LinearVarUsedMultipleTimes(Seq<char>, nat),
    AccessDomainMismatch(usize),
    DuplicateStatementId(usize),
}

impl View for ValidationError {
    type V = ValidationIssue;

    open spec fn view(&self) -> ValidationIssue {
        match self {
            ValidationError::ScheduleError(s) => ValidationIssue::ScheduleError(s@),
            ValidationError::UnscheduledStatement(id) => ValidationIssue::UnscheduledStatement(id.0),
            ValidationError::ZeroQuantityInRuntime(v, id) => ValidationIssue::ZeroQuantityInRuntime(v@, id.0),
            ValidationError::LinearVarNotUsed(v) => ValidationIssue::LinearVarNotUsed(v@),
            ValidationError::LinearVarUsedMultipleTimes(v, c) => ValidationIssue::LinearVarUsedMultipleTimes(v@, *c as nat),
            ValidationError::AccessDomainMismatch(id) => ValidationIssue::AccessDomainMismatch(id.0),
            ValidationError::DuplicateStatementId(id) => ValidationIssue::DuplicateStatementId(id.0),
        }
    }
}

/// A list of errors as values.
pub open spec fn issues_view(es: Seq<ValidationError>) -> Seq<ValidationIssue> {
    es.map_values(|e: ValidationError| e@)
}

/// The variable `v` occurs in `e`.
pub open spec fn contains_var(e: PirExpr, v: Seq<char>) -> bool
    decreases e,
{
    match e {
        PirExpr::Var(x) => x@ == v,
        PirExpr::Binary { left, right, .. } => contains_var(*left, v) || contains_var(*right, v),
        PirExpr::Let { value, body, .. } => contains_var(*value, v) || contains_var(*body, v),
        PirExpr::Unary { expr, .. } => contains_var(*expr, v),
        PirExpr::Call { args, .. } => any_contains_var(args@, v),
        PirExpr::Index { base, indices } => contains_var(*base, v) || any_contains_var(indices@, v),
        PirExpr::Field { base, .. } => contains_var(*base, v),
        PirExpr::If { cond, then_branch, else_branch } =>
            contains_var(*cond, v) || contains_var(*then_branch, v) || contains_var(*else_branch, v),
        PirExpr::Reversible { body, inverse } => contains_var(*body, v) || contains_var(*inverse, v),
        PirExpr::QuantumOp { args, qubits, .. } => any_contains_var(args@, v) || any_contains_var(qubits@, v),
        PirExpr::IntLit(_) => false,
        PirExpr::FloatLit(_) => false,
        PirExpr::BoolLit(_) => false,
    }
}

/// `v` occurs in one of the expressions.
pub open spec fn any_contains_var(es: Seq<PirExpr>, v: Seq<char>) -> bool
    decreases es,
{
    if es.len() == 0 {
        false
    } else {
        any_contains_var(es.drop_last(), v) || contains_var(es.last(), v)
    }
}

/// Number of occurrences of the variable `v` in `e`.
pub open spec fn count_var(e: PirExpr, v: Seq<char>) -> nat
    decreases e,
{
    match e {
        PirExpr::Var(x) => if x@ == v { 1 } else { 0 },
        PirExpr::Binary { left, right, .. } => count_var(*left, v) + count_var(*right, v),
        PirExpr::Let { value, body, .. } => count_var(*value, v) + count_var(*body, v),
        PirExpr::Unary { expr, .. } => count_var(*expr, v),
        PirExpr::Call { args, .. } => count_all(args@, v),
        PirExpr::Index { base, indices } => count_var(*base, v) + count_all(indices@, v),
        PirExpr::Field { base, .. } => count_var(*base, v),
        PirExpr::If { cond, then_branch, else_branch } =>
            count_var(*cond, v) + count_var(*then_branch, v) + count_var(*else_branch, v),
        PirExpr::Reversible { body, inverse } => count_var(*body, v) + count_var(*inverse, v),
        PirExpr::QuantumOp { args, qubits, .. } => count_all(args@, v) + count_all(qubits@, v),
        PirExpr::IntLit(_) => 0,
        PirExpr::FloatLit(_) => 0,
        PirExpr::BoolLit(_) => 0,
    }
}

/// Occurrences of `v` in a list of expressions.
pub open spec fn count_all(es: Seq<PirExpr>, v: Seq<char>) -> nat
    decreases es,
{
    if es.len() == 0 {
        0
    } else {
        count_all(es.drop_last(), v) + count_var(es.last(), v)
    }
}

/// Occurrences of `v` in the bodies of the first `k` statements.
pub open spec fn total_count(stmts: Seq<PirStatement>, v: Seq<char>, k: int) -> nat
    decreases k,
{
    if k <= 0 {
        0
    } else {
        total_count(stmts, v, k - 1) + count_var(stmts[k - 1].body, v)
    }
}

/// The statement `id` has a domain leaf in the schedule.
pub open spec fn scheduled(ds: Seq<(usize, DomainModel)>, id: usize) -> bool {
    exists|k: int| 0 <= k < ds.len() && (#[trigger] ds[k]).0 == id
}

/// Text of a schedule validation error.
pub open spec fn schedule_error_text(e: ScheduleValidationError) -> Seq<char> {
    match e {
        ScheduleValidationError::EmptyBand => "Band node has no members"@,
        ScheduleValidationError::CoincidentLengthMismatch => "Coincident flags length doesn't match band members"@,
        ScheduleValidationError::BandDimensionMismatch => "Band members have different input dimensions"@,
        ScheduleValidationError::EmptyFilterDomain => "Filter node has empty domain"@,
        ScheduleValidationError::EmptySequence => "Sequence node has no children"@,
        ScheduleValidationError::EmptyContextDomain => "Context node has empty domain"@,
        ScheduleValidationError::EmptyDomainNode => "Domain node has empty domain"@,
        ScheduleValidationError::MaxDepthExceeded => "Schedule tree exceeds maximum depth"@,
    }
}

impl ScheduleValidationError {
    /// The error's message.
    pub fn message(&self) -> (r: String)
        ensures
            r@ == schedule_error_text(*self),
    {
        match self {
            ScheduleValidationError::EmptyBand => "Band node has no members".to_string(),
            ScheduleValidationError::CoincidentLengthMismatch => "Coincident flags length doesn't match band members".to_string(),
            ScheduleValidationError::BandDimensionMismatch => "Band members have different input dimensions".to_string(),
            ScheduleValidationError::EmptyFilterDomain => "Filter node has empty domain".to_string(),
            ScheduleValidationError::EmptySequence => "Sequence node has no children".to_string(),
            ScheduleValidationError::EmptyContextDomain => "Context node has empty domain".to_string(),
            ScheduleValidationError::EmptyDomainNode => "Domain node has empty domain".to_string(),
            ScheduleValidationError::MaxDepthExceeded => "Schedule tree exceeds maximum depth".to_string(),
        }
    }
}

/// The schedule's own error, if any.
pub open spec fn schedule_errors(m: PirModule) -> Seq<ValidationIssue> {
    match validate_at(m.schedule.root, 0) {
        Some(e) => seq![ValidationIssue::ScheduleError(schedule_error_text(e))],
        None => Seq::empty(),
    }
}

/// Statements without a domain leaf, among the first `k`.
pub open spec fn unscheduled_errors(stmts: Seq<PirStatement>, ds: Seq<(usize, DomainModel)>, k: int) -> Seq<ValidationIssue>
    decreases k,
{
    if k <= 0 {
        Seq::empty()
    } else if !scheduled(ds, stmts[k - 1].id.0) {
        unscheduled_errors(stmts, ds, k - 1).push(ValidationIssue::UnscheduledStatement(stmts[k - 1].id.0))
    } else {
        unscheduled_errors(stmts, ds, k - 1)
    }
}

/// Among the first `k` statements, those whose body mentions `v`.
pub open spec fn zero_errors_for(v: Seq<char>, stmts: Seq<PirStatement>, k: int) -> Seq<ValidationIssue>
    decreases k,
{
    if k <= 0 {
        Seq::empty()
    } else if contains_var(stmts[k - 1].body, v) {
        zero_errors_for(v, stmts, k - 1).push(ValidationIssue::ZeroQuantityInRuntime(v, stmts[k - 1].id.0))
    } else {
        zero_errors_for(v, stmts, k - 1)
    }
}

/// Erased (`[0]`) variables among the first `k` entries that occur in a body.
pub open spec fn zero_errors(es: Seq<(Seq<char>, Quantity)>, stmts: Seq<PirStatement>, k: int) -> Seq<ValidationIssue>
    decreases k,
{
    if k <= 0 {
        Seq::empty()
    } else if es[k - 1].1 == Quantity::Zero {
        zero_errors(es, stmts, k - 1) + zero_errors_for(es[k - 1].0, stmts, stmts.len() as int)
    } else {
        zero_errors(es, stmts, k - 1)
    }
}

/// The linearity error of one variable, if any.
pub open spec fn linear_error(v: Seq<char>, stmts: Seq<PirStatement>) -> Seq<ValidationIssue> {
    let c = total_count(stmts, v, stmts.len() as int);
    if c == 0 {
        seq![ValidationIssue::LinearVarNotUsed(v)]
    } else if c > 1 {
        seq![ValidationIssue::LinearVarUsedMultipleTimes(v, c)]
    } else {
        Seq::empty()
    }
}

/// Linear (`[1]`) variables among the first `k` entries not used exactly once.
pub open spec fn linear_errors(es: Seq<(Seq<char>, Quantity)>, stmts: Seq<PirStatement>, k: int) -> Seq<ValidationIssue>
    decreases k,
{
    if k <= 0 {
        Seq::empty()
    } else if es[k - 1].1 == Quantity::One {
        linear_errors(es, stmts, k - 1) + linear_error(es[k - 1].0, stmts)
    } else {
        linear_errors(es, stmts, k - 1)
    }
}

/// Every error of a module, in the order they are reported.
pub open spec fn module_errors(m: PirModule) -> Seq<ValidationIssue> {
    schedule_errors(m)
        + unscheduled_errors(m.statements@, domains_of(m.schedule.root), m.statements@.len() as int)
        + zero_errors(m.quantities@, m.statements@, m.quantities@.len() as int)
        + linear_errors(m.quantities@, m.statements@, m.quantities@.len() as int)
}

/// Occurrence counts of the linear variables fit in a `usize`.
pub open spec fn counts_fit(m: PirModule) -> bool {
    forall|i: int| 0 <= i < m.quantities@.len() && (#[trigger] m.quantities@[i]).1 == Quantity::One
        ==> total_count(m.statements@, m.quantities@[i].0, m.statements@.len() as int) <= usize::MAX
}

proof fn lemma_issues_push(s: Seq<ValidationError>, e: ValidationError)
    ensures
        issues_view(s.push(e)) == issues_view(s).push(e@),
{
    assert(issues_view(s.push(e)) =~= issues_view(s).push(e@));
}

proof fn lemma_count_all_prefix(es: Seq<PirExpr>, v: Seq<char>, k: int)
    requires
        0 <= k <= es.len(),
    ensures
        count_all(es.subrange(0, k), v) <= count_all(es, v),
    decreases es.len() - k,
{
    if k < es.len() {
        lemma_count_all_prefix(es, v, k + 1);
        assert(es.subrange(0, k + 1).drop_last() =~= es.subrange(0, k));
    } else {
        assert(es.subrange(0, k) =~= es);
    }
}

proof fn lemma_total_count_mono(stmts: Seq<PirStatement>, v: Seq<char>, k: int, n: int)
    requires
        0 <= k <= n,
    ensures
        total_count(stmts, v, k) <= total_count(stmts, v, n),
    decreases n - k,
{
    if k < n {
        lemma_total_count_mono(stmts, v, k + 1, n);
    }
}

/// Whether `var` occurs in `expr`.
pub(crate) fn expr_contains_var(expr: &PirExpr, var: &str) -> (r: bool)
    ensures
        r == contains_var(*expr, var@),
    decreases expr,
{
    match expr {
        PirExpr::Var(v) => str_eq(v.as_str(), var),
        PirExpr::Binary { left, right, .. } => expr_contains_var(left, var) || expr_contains_var(right, var),
        PirExpr::Let { value, body, .. } => expr_contains_var(value, var) || expr_contains_var(body, var),
        PirExpr::Unary { expr: e, .. } => expr_contains_var(e, var),
        PirExpr::Call { args, .. } => {
            proof {
                assert(decreases_to!(*expr => (*expr)->Call_args));
            }
            any_expr_contains_var(args, var)
        },
        PirExpr::Index { base, indices } => {
            proof {
                assert(decreases_to!(*expr => (*expr)->indices));
            }
            expr_contains_var(base, var) || any_expr_contains_var(indices, var)
        },
        PirExpr::Field { base, .. } => expr_contains_var(base, var),
        PirExpr::If { cond, then_branch, else_branch } =>
            expr_contains_var(cond, var) || expr_contains_var(then_branch, var) || expr_contains_var(else_branch, var),
        PirExpr::Reversible { body, inverse } => expr_contains_var(body, var) || expr_contains_var(inverse, var),
        PirExpr::QuantumOp { args, qubits, .. } => {
            proof {
                assert(decreases_to!(*expr => (*expr)->QuantumOp_args));
                assert(decreases_to!(*expr => (*expr)->qubits));
            }
            any_expr_contains_var(args, var) || any_expr_contains_var(qubits, var)
        },
        PirExpr::IntLit(_) => false,
        PirExpr::FloatLit(_) => false,
        PirExpr::BoolLit(_) => false,
    }
}

/// Whether `var` occurs in one of the expressions.
fn any_expr_contains_var(es: &Vec<PirExpr>, var: &str) -> (r: bool)
    ensures
        r == any_contains_var(es@, var@),
    decreases es,
{
    let mut i: usize = 0;
    assert(es@.subrange(0, 0) =~= Seq::<PirExpr>::empty());
    while i < es.len()
        invariant
            i <= es@.len(),
            !any_contains_var(es@.subrange(0, i as int), var@),
        decreases es@.len() - i,
    {
        proof {
            assert(decreases_to!(es => es@));
            assert(decreases_to!(es@ => es@[i as int]));
            let s = es@.subrange(0, i + 1);
            assert(s.drop_last() =~= es@.subrange(0, i as int));
            assert(s.last() == es@[i as int]);
        }
        if expr_contains_var(&es[i], var) {
            proof {
                lemma_any_contains_extend(es@, var@, i + 1);
            }
            return true;
        }
        i = i + 1;
    }
    assert(es@.subrange(0, es@.len() as int) =~= es@);
    false
}

proof fn lemma_any_contains_extend(es: Seq<PirExpr>, v: Seq<char>, k: int)
    requires
        0 <= k <= es.len(),
        any_contains_var(es.subrange(0, k), v),
    ensures
        any_contains_var(es, v),
    decreases es.len() - k,
{
    if k < es.len() {
        let s = es.subrange(0, k + 1);
        assert(s.drop_last() =~= es.subrange(0, k));
        lemma_any_contains_extend(es, v, k + 1);
    } else {
        assert(es.subrange(0, k) =~= es);
    }
}

/// Number of occurrences of `var` in `expr`.
fn count_in_expr(expr: &PirExpr, var: &str) -> (r: usize)
    requires
        count_var(*expr, var@) <= usize::MAX,
    ensures
        r == count_var(*expr, var@),
    decreases expr,
{
    match expr {
        PirExpr::Var(v) => if str_eq(v.as_str(), var) { 1 } else { 0 },
        PirExpr::Binary { left, right, .. } => count_in_expr(left, var) + count_in_expr(right, var),
        PirExpr::Let { value, body, .. } => count_in_expr(value, var) + count_in_expr(body, var),
        PirExpr::Unary { expr: e, .. } => count_in_expr(e, var),
        PirExpr::Call { args, .. } => {
            proof {
                assert(decreases_to!(*expr => (*expr)->Call_args));
            }
            count_in_all(args, var)
        },
        PirExpr::Index { base, indices } => {
            proof {
                assert(decreases_to!(*expr => (*expr)->indices));
            }
            count_in_expr(base, var) + count_in_all(indices, var)
        },
        PirExpr::Field { base, .. } => count_in_expr(base, var),
        PirExpr::If { cond, then_branch, else_branch } =>
            count_in_expr(cond, var) + count_in_expr(then_branch, var) + count_in_expr(else_branch, var),
        PirExpr::Reversible { body, inverse } => count_in_expr(body, var) + count_in_expr(inverse, var),
        PirExpr::QuantumOp { args, qubits, .. } => {
            proof {
                assert(decreases_to!(*expr => (*expr)->QuantumOp_args));
                assert(decreases_to!(*expr => (*expr)->qubits));
            }
            count_in_all(args, var) + count_in_all(qubits, var)
        },
        PirExpr::IntLit(_) => 0,
        PirExpr::FloatLit(_) => 0,
        PirExpr::BoolLit(_) => 0,
    }
}

/// Number of occurrences of `var` in a list of expressions.
fn count_in_all(es: &Vec<PirExpr>, var: &str) -> (r: usize)
    requires
        count_all(es@, var@) <= usize::MAX,
    ensures
        r == count_all(es@, var@),
    decreases es,
{
    let mut total: usize = 0;
    let mut i: usize = 0;
    assert(es@.subrange(0, 0) =~= Seq::<PirExpr>::empty());
    while i < es.len()
        invariant
            i <= es@.len(),
            count_all(es@, var@) <= usize::MAX,
            total == count_all(es@.subrange(0, i as int), var@),
        decreases es@.len() - i,
    {
        proof {
            assert(decreases_to!(es => es@));
            assert(decreases_to!(es@ => es@[i as int]));
            let s = es@.subrange(0, i + 1);
            assert(s.drop_last() =~= es@.subrange(0, i as int));
            assert(s.last() == es@[i as int]);
            lemma_count_all_prefix(es@, var@, i + 1);
        }
        let c = count_in_expr(&es[i], var);
        total = total + c;
        i = i + 1;
    }
    assert(es@.subrange(0, es@.len() as int) =~= es@);
    total
}

/// Whether `id` has a domain leaf among the collected ones.
fn is_scheduled(ds: &Vec<(StmtId, AffineDomain)>, id: StmtId) -> (r: bool)
    ensures
        r == scheduled(crate::ir::schedule_tree::entries_view(ds@), id.0),
{
    let ghost dv = crate::ir::schedule_tree::entries_view(ds@);
    let mut i: usize = 0;
    while i < ds.len()
        invariant
            i <= ds@.len(),
            dv == crate::ir::schedule_tree::entries_view(ds@),
            forall|k: int| 0 <= k < i ==> (#[trigger] dv[k]).0 != id.0,
        decreases ds@.len() - i,
    {
        assert(dv[i as int].0 == ds@[i as int].0.0);
        if ds[i].0.0 == id.0 {
            return true;
        }
        i = i + 1;
    }
    false
}

impl PirModule {
    /// A module without external functions.
    pub fn new(
        statements: Vec<PirStatement>,
        schedule: ScheduleTree,
        accesses: AccessRelations,
        quantities: QuantityMap,
        parameters: Vec<String>,
    ) -> (r: Self)
        ensures
            r.statements == statements,
            r.schedule == schedule,
            r.accesses == accesses,
            r.quantities == quantities,
            r.parameters == parameters,
            r.extern_functions@.len() == 0,
    {
        PirModule { statements, schedule, accesses, quantities, parameters, extern_functions: Vec::new() }
    }

    /// Checks the schedule, that every statement is scheduled, that erased
    /// variables stay out of statement bodies and that linear variables are
    /// used exactly once. All errors are reported, in that order.
    pub fn validate(&self) -> (r: Result<(), Vec<ValidationError>>)
        requires
            validate_safe(self.schedule.root, 0),
            counts_fit(*self),
        ensures
            r is Ok <==> module_errors(*self).len() == 0,
            r matches Err(es) ==> issues_view(es@) == module_errors(*self),
    {
        let mut errors: Vec<ValidationError> = Vec::new();
        match self.schedule.validate() {
            Err(e) => {
                let msg = e.message();
                proof {
                    lemma_issues_push(errors@, ValidationError::ScheduleError(msg));
                }
                errors.push(ValidationError::ScheduleError(msg));
            },
            Ok(()) => {},
        }
        assert(issues_view(errors@) =~= schedule_errors(*self));
        let ghost part1 = issues_view(errors@);

        let scheduled_domains = self.schedule.collect_domains();
        let ghost ds = domains_of(self.schedule.root);
        let mut i: usize = 0;
        while i < self.statements.len()
            invariant
                i <= self.statements@.len(),
                crate::ir::schedule_tree::entries_view(scheduled_domains@) == ds,
                issues_view(errors@) == part1 + unscheduled_errors(self.statements@, ds, i as int),
            decreases self.statements@.len() - i,
        {
            let stmt = &self.statements[i];
            if !is_scheduled(&scheduled_domains, stmt.id) {
                proof {
                    lemma_issues_push(errors@, ValidationError::UnscheduledStatement(stmt.id));
                }
                errors.push(ValidationError::UnscheduledStatement(stmt.id));
            }
            i = i + 1;
        }
        let ghost part2 = issues_view(errors@);

        let n_q = self.quantities.len();
        let mut q: usize = 0;
        while q < n_q
            invariant
                n_q == self.quantities@.len(),
                q <= n_q,
                issues_view(errors@) == part2 + zero_errors(self.quantities@, self.statements@, q as int),
            decreases n_q - q,
        {
            let (var, qty) = self.quantities.entry(q);
            if let Quantity::Zero = qty {
                let ghost before = issues_view(errors@);
                let mut j: usize = 0;
                while j < self.statements.len()
                    invariant
                        q < n_q,
                        n_q == self.quantities@.len(),
                        var@ == self.quantities@[q as int].0,
                        j <= self.statements@.len(),
                        issues_view(errors@) == before + zero_errors_for(var@, self.statements@, j as int),
                    decreases self.statements@.len() - j,
                {
                    let stmt = &self.statements[j];
                    if expr_contains_var(&stmt.body, var.as_str()) {
                        let v = var.clone();
                        proof {
                            lemma_issues_push(errors@, ValidationError::ZeroQuantityInRuntime(v, stmt.id));
                        }
                        errors.push(ValidationError::ZeroQuantityInRuntime(v, stmt.id));
                    }
                    j = j + 1;
                }
            }
            q = q + 1;
        }
        let ghost part3 = issues_view(errors@);

        let mut q: usize = 0;
        while q < n_q
            invariant
                n_q == self.quantities@.len(),
                q <= n_q,
                counts_fit(*self),
                issues_view(errors@) == part3 + linear_errors(self.quantities@, self.statements@, q as int),
            decreases n_q - q,
        {
            let (var, qty) = self.quantities.entry(q);
            if let Quantity::One = qty {
                assert(self.quantities@[q as int].1 == Quantity::One);
                let count = self.count_var_occurrences(var.as_str());
                if count == 0 {
                    let v = var.clone();
                    proof {
                        lemma_issues_push(errors@, ValidationError::LinearVarNotUsed(v));
                    }
                    errors.push(ValidationError::LinearVarNotUsed(v));
                } else if count > 1 {
                    let v = var.clone();
                    proof {
                        lemma_issues_push(errors@, ValidationError::LinearVarUsedMultipleTimes(v, count));
                    }
                    errors.push(ValidationError::LinearVarUsedMultipleTimes(v, count));
                }
                assert(issues_view(errors@) =~= part3 + linear_errors(self.quantities@, self.statements@, q + 1));
            }
            q = q + 1;
        }
        assert(issues_view(errors@) =~= module_errors(*self));
        if errors.len() == 0 {
            Ok(())
        } else {
            Err(errors)
        }
    }

    /// Occurrences of `var` over all statement bodies.
    pub(crate) fn count_var_occurrences(&self, var: &str) -> (r: usize)
        requires
            total_count(self.statements@, var@, self.statements@.len() as int) <= usize::MAX,
        ensures
            r == total_count(self.statements@, var@, self.statements@.len() as int),
    {
        let mut total: usize = 0;
        let mut i: usize = 0;
        while i < self.statements.len()
            invariant
                i <= self.statements@.len(),
                total_count(self.statements@, var@, self.statements@.len() as int) <= usize::MAX,
                total == total_count(self.statements@, var@, i as int),
            decreases self.statements@.len() - i,
        {
            proof {
                lemma_total_count_mono(self.statements@, var@, i + 1, self.statements@.len() as int);
            }
            let c = count_in_expr(&self.statements[i].body, var);
            total = total + c;
            i = i + 1;
        }
        total
    }
}

} // verus!
