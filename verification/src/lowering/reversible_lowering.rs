//! Reversible block lowering with automatic uncomputation.
//!
//! The temporaries of a reversible block form a dataflow DAG. A temporary is
//! uncomputed only after everything computed from it, so the DAG is ordered
//! reverse-topologically; each temporary gets an inverse operation (a gate
//! adjoint, an arithmetic inverse, or an ancilla-backed uncompute for
//! measurement and randomness), and the inverse schedule runs those steps
//! followed by the deallocation of quantum ancillas. Zero-quantity
//! temporaries are proof-only and are erased.

use vstd::prelude::*;
use crate::ir::affine_domain::{AffineDomain, ConstraintModel, DomainModel};
use crate::ir::affine_map::{AffineMap, Matrix, MatrixModel, PieceModel, zero_model};
use crate::ir::expr_model::{
    ExprModel, clone_expr, exprs_model, lemma_exprs_model_index, lemma_exprs_model_single,
};
use crate::ir::pir_types::{
    BinaryOp, Mutability, PirExpr, PirStatement, Quantity, QuantityMap, UnaryOp,
};
use crate::ir::schedule_tree::{ScheduleNode, ScheduleTree, StmtId, domains_of, domains_of_all, maps_view};
use crate::ir::vecs::copy_strings;
use crate::lowering::{lower_stmts_spec, scalar_stmt, shapes, LoweringContext, LoweringError};
use crate::ast::expr::ReversibleBlock;
use crate::text::{concat, decimal, names_contains, names_insert, names_set, str_eq, u64_to_decimal};

verus! {

/// An ancilla qubit (or classical ancilla) that the inverse schedule must
/// return to zero.
#[derive(Debug, PartialEq, Eq)]
pub struct AncillaRequirement {
    pub name: String,
    pub allocated_at: StmtId,
    pub zeroed_at: Option<StmtId>,
    pub is_quantum: bool,
}

/// The operation that uncomputes a temporary.
#[derive(Debug)]
pub struct InverseOperation {
    /// The inverse expression.
    pub expr: PirExpr,
    /// Affine map for the inverse schedule, where one is known.
    pub schedule_map: Option<AffineMap>,
    /// Whether this is the adjoint of a quantum gate.
    pub is_adjoint: bool,
    /// Ancillas the uncompute needs.
    pub required_ancilla: Vec<String>,
}

/// A temporary of the dataflow DAG.
#[derive(Debug)]
pub struct DAGNode {
    /// The temporary's name.
    pub temp: String,
    /// The statement that defines it.
    pub def_stmt: StmtId,
    /// The statements that use it, once per use.
    pub uses: Vec<StmtId>,
    /// Whether it is zero-quantity (proof-only).
    pub is_zero_qty: bool,
    /// Whether it is an ancilla qubit.
    pub is_ancilla: bool,
    /// Its inverse operation, once one is attached.
    pub inverse_op: Option<InverseOperation>,
    /// The temporaries used by its defining statement.
    pub dependencies: Vec<String>,
}

/// A DAG node as a value.
pub struct NodeModel {
    pub temp: Seq<char>,
    pub def_stmt: usize,
    pub uses: Seq<usize>,
    pub is_zero_qty: bool,
    pub is_ancilla: bool,
    pub deps: Seq<Seq<char>>,
    pub has_inverse: bool,
}

impl View for DAGNode {
    type V = NodeModel;

    open spec fn view(&self) -> NodeModel {
        NodeModel {
            temp: self.temp@,
            def_stmt: self.def_stmt.0,
            uses: self.uses@.map_values(|s: StmtId| s.0),
            is_zero_qty: self.is_zero_qty,
            is_ancilla: self.is_ancilla,
            deps: self.dependencies@.map_values(|s: String| s@),
            has_inverse: self.inverse_op is Some,
        }
    }
}

/// The temporaries of a DAG, keyed by name, in the order they were first defined.
#[derive(Debug)]
pub struct NodeMap {
    entries: Vec<DAGNode>,
}

impl View for NodeMap {
    type V = Seq<NodeModel>;

    closed spec fn view(&self) -> Seq<NodeModel> {
        self.entries@.map_values(|n: DAGNode| n@)
    }
}

/// No two nodes share a name.
pub open spec fn names_unique(m: Seq<NodeModel>) -> bool {
    forall|i: int, j: int| 0 <= i < m.len() && 0 <= j < m.len() && i != j ==> (#[trigger] m[i]).temp != (#[trigger] m[j]).temp
}

/// Position of the first node named `x`, or -1.
pub open spec fn name_index(m: Seq<NodeModel>, x: Seq<char>) -> int
    decreases m.len(),
{
    if m.len() == 0 {
        -1
    } else {
        let r = name_index(m.drop_last(), x);
        if r >= 0 {
            r
        } else if m.last().temp == x {
            m.len() - 1
        } else {
            -1
        }
    }
}

/// `name_index` is the first position holding the name, and -1 exactly when
/// no node holds it.
pub proof fn lemma_name_index(m: Seq<NodeModel>, x: Seq<char>)
    ensures
        -1 <= name_index(m, x) < m.len(),
        name_index(m, x) == -1 <==> (forall|j: int| 0 <= j < m.len() ==> (#[trigger] m[j]).temp != x),
        name_index(m, x) >= 0 ==> m[name_index(m, x)].temp == x
            && (forall|j: int| 0 <= j < name_index(m, x) ==> (#[trigger] m[j]).temp != x),
    decreases m.len(),
{
    if m.len() > 0 {
        let d = m.drop_last();
        lemma_name_index(d, x);
        assert forall|j: int| 0 <= j < d.len() implies d[j] == m[j] by {}
        if name_index(d, x) == -1 && m.last().temp != x {
            assert forall|j: int| 0 <= j < m.len() implies (#[trigger] m[j]).temp != x by {
                if j < d.len() {
                    assert(d[j].temp != x);
                }
            }
        }
    }
}

/// A node position with the given name is the first such position when names are unique.
proof fn lemma_unique_index(m: Seq<NodeModel>, i: int)
    requires
        names_unique(m),
        0 <= i < m.len(),
    ensures
        name_index(m, m[i].temp) == i,
{
    lemma_name_index(m, m[i].temp);
    let r = name_index(m, m[i].temp);
    if r != i {
        assert(m[r].temp == m[i].temp);
    }
}

impl NodeMap {
    pub fn new() -> (r: Self)
        ensures
            r@ == Seq::<NodeModel>::empty(),
    {
        let r = NodeMap { entries: Vec::new() };
        assert(r@ =~= Seq::<NodeModel>::empty());
        r
    }

    /// Number of nodes.
    pub fn len(&self) -> (r: usize)
        ensures
            r == self@.len(),
    {
        self.entries.len()
    }

    /// The node at a position.
    pub fn entry(&self, i: usize) -> (r: &DAGNode)
        requires
            i < self@.len(),
        ensures
            r@ == self@[i as int],
    {
        &self.entries[i]
    }

    /// Position of the node with this name.
    pub fn find(&self, name: &str) -> (r: Option<usize>)
        ensures
            r matches Some(i) ==> i == name_index(self@, name@) && i < self@.len() && self@[i as int].temp == name@,
            r is None ==> name_index(self@, name@) == -1,
    {
        proof {
            lemma_name_index(self@, name@);
        }
        let mut i: usize = 0;
        while i < self.entries.len()
            invariant
                i <= self@.len(),
                self@.len() == self.entries@.len(),
                forall|j: int| 0 <= j < i ==> (#[trigger] self@[j]).temp != name@,
            decreases self@.len() - i,
        {
            assert(self@[i as int] == self.entries@[i as int]@);
            if str_eq(self.entries[i].temp.as_str(), name) {
                proof {
                    lemma_name_index(self@, name@);
                    let r = name_index(self@, name@);
                    assert(r >= 0);
                    if r != i {
                        assert(self@[r].temp == name@);
                    }
                }
                return Some(i);
            }
            i = i + 1;
        }
        None
    }

    /// Whether a node has this name.
    pub fn contains_key(&self, name: &str) -> (r: bool)
        ensures
            r == (exists|i: int| 0 <= i < self@.len() && (#[trigger] self@[i]).temp == name@),
    {
        proof {
            lemma_name_index(self@, name@);
        }
        self.find(name).is_some()
    }

    /// The node with this name.
    pub fn get(&self, name: &str) -> (r: Option<&DAGNode>)
        ensures
            r matches Some(n) ==> 0 <= name_index(self@, name@) < self@.len() && n@ == self@[name_index(self@, name@)]
                && n@.temp == name@,
            r is None ==> name_index(self@, name@) == -1,
    {
        proof {
            lemma_name_index(self@, name@);
        }
        match self.find(name) {
            Some(i) => Some(&self.entries[i]),
            None => None,
        }
    }
}

/// One definition of a temporary: its name, defining statement, and whether
/// it is zero-quantity or an ancilla allocation.
pub struct DefEvent {
    pub name: Seq<char>,
    pub stmt: usize,
    pub zero: bool,
    pub ancilla: bool,
}

/// The names of the qubit-allocating calls.
pub open spec fn is_alloc_name(n: Seq<char>) -> bool {
    n == "qalloc"@ || n == "alloc_qubit"@
}

/// The expression is a call that allocates a qubit.
pub open spec fn allocates(e: PirExpr) -> bool {
    match e {
        PirExpr::Call { name, .. } => is_alloc_name(name@),
        _ => false,
    }
}

/// The definitions that an expression makes, in traversal order: each `let`
/// defines its name, and an allocating call defines the variable it is given.
pub open spec fn def_events(e: PirExpr, sid: usize) -> Seq<DefEvent>
    decreases e,
{
    match e {
        PirExpr::Let { name, qty, value, body, .. } =>
            seq![DefEvent { name: name@, stmt: sid, zero: qty == Quantity::Zero, ancilla: allocates(*value) }]
                + def_events(*value, sid) + def_events(*body, sid),
        PirExpr::Call { name, args } => if is_alloc_name(name@) {
            if args@.len() > 0 {
                match args@[0] {
                    PirExpr::Var(v) => seq![DefEvent { name: v@, stmt: sid, zero: false, ancilla: true }],
                    _ => Seq::empty(),
                }
            } else {
                Seq::empty()
            }
        } else {
            def_events_all(args@, sid)
        },
        PirExpr::Reversible { body, inverse } => def_events(*body, sid) + def_events(*inverse, sid),
        PirExpr::If { cond, then_branch, else_branch } =>
            def_events(*cond, sid) + def_events(*then_branch, sid) + def_events(*else_branch, sid),
        PirExpr::Binary { left, right, .. } => def_events(*left, sid) + def_events(*right, sid),
        PirExpr::Unary { expr, .. } => def_events(*expr, sid),
        PirExpr::Index { base, indices } => def_events(*base, sid) + def_events_all(indices@, sid),
        PirExpr::Field { base, .. } => def_events(*base, sid),
        _ => Seq::empty(),
    }
}

/// The definitions made by a list of expressions, in order.
pub open spec fn def_events_all(es: Seq<PirExpr>, sid: usize) -> Seq<DefEvent>
    decreases es,
{
    if es.len() == 0 {
        Seq::empty()
    } else {
        def_events_all(es.drop_last(), sid) + def_events(es.last(), sid)
    }
}

/// The variable reads of an expression, in traversal order, each with the statement.
pub open spec fn use_events(e: PirExpr, sid: usize) -> Seq<(Seq<char>, usize)>
    decreases e,
{
    match e {
        PirExpr::Var(x) => seq![(x@, sid)],
        PirExpr::Let { value, body, .. } => use_events(*value, sid) + use_events(*body, sid),
        PirExpr::Reversible { body, inverse } => use_events(*body, sid) + use_events(*inverse, sid),
        PirExpr::If { cond, then_branch, else_branch } =>
            use_events(*cond, sid) + use_events(*then_branch, sid) + use_events(*else_branch, sid),
        PirExpr::Binary { left, right, .. } => use_events(*left, sid) + use_events(*right, sid),
        PirExpr::Unary { expr, .. } => use_events(*expr, sid),
        PirExpr::Call { args, .. } => use_events_all(args@, sid),
        PirExpr::Index { base, indices } => use_events(*base, sid) + use_events_all(indices@, sid),
        PirExpr::Field { base, .. } => use_events(*base, sid),
        _ => Seq::empty(),
    }
}

/// The variable reads of a list of expressions, in order.
pub open spec fn use_events_all(es: Seq<PirExpr>, sid: usize) -> Seq<(Seq<char>, usize)>
    decreases es,
{
    if es.len() == 0 {
        Seq::empty()
    } else {
        use_events_all(es.drop_last(), sid) + use_events(es.last(), sid)
    }
}

/// The fresh node a definition creates.
pub open spec fn event_node(ev: DefEvent) -> NodeModel {
    NodeModel {
        temp: ev.name,
        def_stmt: ev.stmt,
        uses: Seq::empty(),
        is_zero_qty: ev.zero,
        is_ancilla: ev.ancilla,
        deps: Seq::empty(),
        has_inverse: false,
    }
}

/// Puts a node in the map: it replaces the node of the same name, or is appended.
pub open spec fn put_node(m: Seq<NodeModel>, n: NodeModel) -> Seq<NodeModel> {
    let i = name_index(m, n.temp);
    if i >= 0 {
        m.update(i, n)
    } else {
        m.push(n)
    }
}

/// The map after a sequence of definitions.
pub open spec fn apply_defs(m: Seq<NodeModel>, evs: Seq<DefEvent>) -> Seq<NodeModel>
    decreases evs.len(),
{
    if evs.len() == 0 {
        m
    } else {
        put_node(apply_defs(m, evs.drop_last()), event_node(evs.last()))
    }
}

/// Records one read: the node of that name, if any, gains the statement as a use.
pub open spec fn add_use(m: Seq<NodeModel>, ev: (Seq<char>, usize)) -> Seq<NodeModel> {
    let i = name_index(m, ev.0);
    if i >= 0 {
        m.update(i, NodeModel { uses: m[i].uses.push(ev.1), ..m[i] })
    } else {
        m
    }
}

/// The map after a sequence of reads.
pub open spec fn apply_uses(m: Seq<NodeModel>, evs: Seq<(Seq<char>, usize)>) -> Seq<NodeModel>
    decreases evs.len(),
{
    if evs.len() == 0 {
        m
    } else {
        add_use(apply_uses(m, evs.drop_last()), evs.last())
    }
}

proof fn lemma_apply_defs_concat(m: Seq<NodeModel>, a: Seq<DefEvent>, b: Seq<DefEvent>)
    ensures
        apply_defs(m, a + b) == apply_defs(apply_defs(m, a), b),
    decreases b.len(),
{
    if b.len() == 0 {
        assert(a + b =~= a);
    } else {
        assert((a + b).drop_last() =~= a + b.drop_last());
        lemma_apply_defs_concat(m, a, b.drop_last());
    }
}

proof fn lemma_apply_uses_concat(m: Seq<NodeModel>, a: Seq<(Seq<char>, usize)>, b: Seq<(Seq<char>, usize)>)
    ensures
        apply_uses(m, a + b) == apply_uses(apply_uses(m, a), b),
    decreases b.len(),
{
    if b.len() == 0 {
        assert(a + b =~= a);
    } else {
        assert((a + b).drop_last() =~= a + b.drop_last());
        lemma_apply_uses_concat(m, a, b.drop_last());
    }
}

proof fn lemma_apply_defs_one(m: Seq<NodeModel>, ev: DefEvent)
    ensures
        apply_defs(m, seq![ev]) == put_node(m, event_node(ev)),
{
    assert(seq![ev].drop_last() =~= Seq::<DefEvent>::empty());
    assert(apply_defs(m, Seq::<DefEvent>::empty()) == m);
}

proof fn lemma_apply_uses_one(m: Seq<NodeModel>, ev: (Seq<char>, usize))
    ensures
        apply_uses(m, seq![ev]) == add_use(m, ev),
{
    assert(seq![ev].drop_last() =~= Seq::<(Seq<char>, usize)>::empty());
    assert(apply_uses(m, Seq::<(Seq<char>, usize)>::empty()) == m);
}

/// Putting a node keeps the names unique.
proof fn lemma_put_unique(m: Seq<NodeModel>, n: NodeModel)
    requires
        names_unique(m),
    ensures
        names_unique(put_node(m, n)),
{
    lemma_name_index(m, n.temp);
    let r = put_node(m, n);
    let i = name_index(m, n.temp);
    assert forall|a: int, b: int| 0 <= a < r.len() && 0 <= b < r.len() && a != b implies (#[trigger] r[a]).temp != (#[trigger] r[b]).temp by {
        if i >= 0 {
            if a == i {
                assert(m[b].temp != m[i].temp);
            } else if b == i {
                assert(m[a].temp != m[i].temp);
            } else {
                assert(m[a].temp != m[b].temp);
            }
        } else {
            if a == m.len() {
                assert(m[b].temp != n.temp);
            } else if b == m.len() {
                assert(m[a].temp != n.temp);
            } else {
                assert(m[a].temp != m[b].temp);
            }
        }
    }
}

/// Reads change no name.
proof fn lemma_add_use_names(m: Seq<NodeModel>, ev: (Seq<char>, usize))
    ensures
        add_use(m, ev).len() == m.len(),
        forall|i: int| 0 <= i < m.len() ==> (#[trigger] add_use(m, ev)[i]).temp == m[i].temp
            && add_use(m, ev)[i].def_stmt == m[i].def_stmt,
{
    lemma_name_index(m, ev.0);
}

proof fn lemma_apply_uses_names(m: Seq<NodeModel>, evs: Seq<(Seq<char>, usize)>)
    ensures
        apply_uses(m, evs).len() == m.len(),
        forall|i: int| 0 <= i < m.len() ==> (#[trigger] apply_uses(m, evs)[i]).temp == m[i].temp
            && apply_uses(m, evs)[i].def_stmt == m[i].def_stmt,
    decreases evs.len(),
{
    if evs.len() > 0 {
        lemma_apply_uses_names(m, evs.drop_last());
        lemma_add_use_names(apply_uses(m, evs.drop_last()), evs.last());
    }
}

impl NodeMap {
    /// Puts a node in the map, replacing the node of the same name.
    pub(crate) fn put(&mut self, node: DAGNode)
        ensures
            final(self)@ == put_node(old(self)@, node@),
    {
        let ghost nv = node@;
        match self.find(node.temp.as_str()) {
            Some(i) => {
                self.entries.set(i, node);
                proof {
                    assert(self@ =~= old(self)@.update(i as int, nv));
                }
            },
            None => {
                self.entries.push(node);
                proof {
                    assert(self@ =~= old(self)@.push(nv));
                }
            },
        }
    }

    /// Records that the node of this name, if any, is used by a statement.
    pub(crate) fn record_use(&mut self, name: &str, sid: StmtId)
        ensures
            final(self)@ == add_use(old(self)@, (name@, sid.0)),
    {
        match self.find(name) {
            Some(i) => {
                let ghost old_node = old(self)@[i as int];
                self.entries[i].uses.push(sid);
                proof {
                    let n = self.entries@[i as int]@;
                    assert(n.uses =~= old_node.uses.push(sid.0));
                    assert(n == NodeModel { uses: old_node.uses.push(sid.0), ..old_node });
                    assert(self@ =~= old(self)@.update(i as int, n));
                }
            },
            None => {},
        }
    }
}

/// A set of names.
#[derive(Debug)]
pub struct NameSet {
    names: Vec<String>,
}

impl View for NameSet {
    type V = Set<Seq<char>>;

    closed spec fn view(&self) -> Set<Seq<char>> {
        names_set(self.names@)
    }
}

impl NameSet {
    pub fn new() -> (r: Self)
        ensures
            r@ == Set::<Seq<char>>::empty(),
    {
        let r = NameSet { names: Vec::new() };
        assert(r@ =~= Set::<Seq<char>>::empty());
        r
    }

    /// Whether the name is in the set.
    pub fn contains(&self, name: &str) -> (r: bool)
        ensures
            r == self@.contains(name@),
    {
        names_contains(&self.names, name)
    }

    /// Adds a name.
    pub fn insert(&mut self, name: &str)
        ensures
            final(self)@ == old(self)@.insert(name@),
    {
        names_insert(&mut self.names, name);
    }
}

impl Clone for NameSet {
    fn clone(&self) -> (r: Self)
        ensures
            r@ == self@,
    {
        let mut names: Vec<String> = Vec::new();
        let mut i: usize = 0;
        while i < self.names.len()
            invariant
                i <= self.names@.len(),
                names@ == self.names@.subrange(0, i as int),
            decreases self.names@.len() - i,
        {
            let s = self.names[i].clone();
            names.push(s);
            proof {
                assert(names@ =~= self.names@.subrange(0, i + 1));
            }
            i = i + 1;
        }
        proof {
            assert(names@ =~= self.names@);
        }
        NameSet { names }
    }
}

/// The definitions made by a list of statements, statement by statement.
pub open spec fn stmts_def_events(stmts: Seq<PirStatement>) -> Seq<DefEvent>
    decreases stmts.len(),
{
    if stmts.len() == 0 {
        Seq::empty()
    } else {
        stmts_def_events(stmts.drop_last()) + def_events(stmts.last().body, stmts.last().id.0)
    }
}

/// The reads made by a list of statements, statement by statement.
pub open spec fn stmts_use_events(stmts: Seq<PirStatement>) -> Seq<(Seq<char>, usize)>
    decreases stmts.len(),
{
    if stmts.len() == 0 {
        Seq::empty()
    } else {
        stmts_use_events(stmts.drop_last()) + use_events(stmts.last().body, stmts.last().id.0)
    }
}

/// The dependencies of node `i` among the first `k` nodes: the other nodes
/// that node `i`'s defining statement reads, in node order.
pub open spec fn deps_upto(m: Seq<NodeModel>, i: int, k: int) -> Seq<Seq<char>>
    decreases k,
{
    if k <= 0 {
        Seq::empty()
    } else {
        let prev = deps_upto(m, i, k - 1);
        if m[k - 1].temp != m[i].temp && m[k - 1].uses.contains(m[i].def_stmt) {
            prev.push(m[k - 1].temp)
        } else {
            prev
        }
    }
}

/// The map with every node's dependencies computed.
pub open spec fn with_deps(m: Seq<NodeModel>) -> Seq<NodeModel> {
    Seq::new(m.len(), |i: int| NodeModel { deps: deps_upto(m, i, m.len() as int), ..m[i] })
}

/// The DAG that a list of statements gives: its definitions, then its reads,
/// then the dependencies.
pub open spec fn dag_of(m: Seq<NodeModel>, stmts: Seq<PirStatement>) -> Seq<NodeModel> {
    with_deps(apply_uses(apply_defs(m, stmts_def_events(stmts)), stmts_use_events(stmts)))
}

/// The names with zero quantity.
pub open spec fn zero_names(q: Seq<(Seq<char>, Quantity)>) -> Set<Seq<char>> {
    Set::new(|x: Seq<char>| exists|i: int| 0 <= i < q.len() && (#[trigger] q[i]).0 == x && q[i].1 == Quantity::Zero)
}

/// Names are unique and every dependency names a node.
pub open spec fn dag_wf(m: Seq<NodeModel>) -> bool {
    &&& names_unique(m)
    &&& forall|i: int, t: int| 0 <= i < m.len() && 0 <= t < m[i].deps.len()
            ==> exists|k: int| 0 <= k < m.len() && (#[trigger] m[k]).temp == #[trigger] m[i].deps[t]
}

proof fn lemma_apply_defs_unique(m: Seq<NodeModel>, evs: Seq<DefEvent>)
    requires
        names_unique(m),
    ensures
        names_unique(apply_defs(m, evs)),
    decreases evs.len(),
{
    if evs.len() > 0 {
        lemma_apply_defs_unique(m, evs.drop_last());
        lemma_put_unique(apply_defs(m, evs.drop_last()), event_node(evs.last()));
    }
}

proof fn lemma_deps_upto_names(m: Seq<NodeModel>, i: int, k: int)
    requires
        0 <= i < m.len(),
        k <= m.len(),
    ensures
        forall|t: int| 0 <= t < deps_upto(m, i, k).len()
            ==> exists|j: int| 0 <= j < m.len() && (#[trigger] m[j]).temp == #[trigger] deps_upto(m, i, k)[t],
    decreases k,
{
    if k > 0 {
        lemma_deps_upto_names(m, i, k - 1);
        let prev = deps_upto(m, i, k - 1);
        let cur = deps_upto(m, i, k);
        assert forall|t: int| 0 <= t < cur.len() implies exists|j: int| 0 <= j < m.len() && (#[trigger] m[j]).temp == #[trigger] cur[t] by {
            if t < prev.len() {
                assert(cur[t] == prev[t]);
            } else {
                assert(m[k - 1].temp == cur[t]);
            }
        }
    }
}

proof fn lemma_with_deps_wf(m: Seq<NodeModel>)
    requires
        names_unique(m),
    ensures
        dag_wf(with_deps(m)),
        with_deps(m).len() == m.len(),
        forall|i: int| 0 <= i < m.len() ==> (#[trigger] with_deps(m)[i]).temp == m[i].temp,
{
    let w = with_deps(m);
    assert forall|i: int, j: int| 0 <= i < w.len() && 0 <= j < w.len() && i != j implies (#[trigger] w[i]).temp != (#[trigger] w[j]).temp by {
        assert(m[i].temp != m[j].temp);
    }
    assert forall|i: int, t: int| 0 <= i < w.len() && 0 <= t < w[i].deps.len()
        implies exists|k: int| 0 <= k < w.len() && (#[trigger] w[k]).temp == #[trigger] w[i].deps[t] by {
        lemma_deps_upto_names(m, i, m.len() as int);
        let k = choose|k: int| 0 <= k < m.len() && (#[trigger] m[k]).temp == deps_upto(m, i, m.len() as int)[t];
        assert(w[k].temp == m[k].temp);
    }
}

/// Whether a node is a qubit allocation.
fn is_ancilla_allocation(expr: &PirExpr) -> (r: bool)
    ensures
        r == allocates(*expr),
{
    match expr {
        PirExpr::Call { name, .. } => str_eq(name.as_str(), "qalloc") || str_eq(name.as_str(), "alloc_qubit"),
        _ => false,
    }
}

/// The fresh node for a definition.
fn new_node(name: &String, sid: StmtId, is_zero: bool, is_anc: bool) -> (r: DAGNode)
    ensures
        r@ == event_node(DefEvent { name: name@, stmt: sid.0, zero: is_zero, ancilla: is_anc }),
{
    let r = DAGNode {
        temp: name.clone(),
        def_stmt: sid,
        uses: Vec::new(),
        is_zero_qty: is_zero,
        is_ancilla: is_anc,
        inverse_op: None,
        dependencies: Vec::new(),
    };
    assert(r@.uses =~= Seq::<usize>::empty());
    assert(r@.deps =~= Seq::<Seq<char>>::empty());
    r
}

/// Records the definitions of an expression.
fn collect_defs(nodes: &mut NodeMap, expr: &PirExpr, sid: StmtId)
    ensures
        final(nodes)@ == apply_defs(old(nodes)@, def_events(*expr, sid.0)),
    decreases expr,
{
    let ghost m0 = nodes@;
    match expr {
        PirExpr::Let { name, qty, value, body, .. } => {
            let is_zero = match qty {
                Quantity::Zero => true,
                _ => false,
            };
            let is_anc = is_ancilla_allocation(value);
            let ghost ev = DefEvent { name: name@, stmt: sid.0, zero: is_zero, ancilla: is_anc };
            nodes.put(new_node(name, sid, is_zero, is_anc));
            let ghost m1 = nodes@;
            collect_defs(nodes, value, sid);
            let ghost m2 = nodes@;
            collect_defs(nodes, body, sid);
            proof {
                lemma_apply_defs_one(m0, ev);
                lemma_apply_defs_concat(m0, seq![ev], def_events(**value, sid.0));
                lemma_apply_defs_concat(m0, seq![ev] + def_events(**value, sid.0), def_events(**body, sid.0));
            }
        },
        PirExpr::Call { name, args } => {
            if str_eq(name.as_str(), "qalloc") || str_eq(name.as_str(), "alloc_qubit") {
                if args.len() > 0 {
                    match &args[0] {
                        PirExpr::Var(var) => {
                            nodes.put(new_node(var, sid, false, true));
                            proof {
                                lemma_apply_defs_one(m0, DefEvent { name: var@, stmt: sid.0, zero: false, ancilla: true });
                            }
                        },
                        _ => {},
                    }
                }
            } else {
                collect_defs_all(nodes, args, sid);
            }
        },
        PirExpr::Reversible { body, inverse } => {
            collect_defs(nodes, body, sid);
            collect_defs(nodes, inverse, sid);
            proof {
                lemma_apply_defs_concat(m0, def_events(**body, sid.0), def_events(**inverse, sid.0));
            }
        },
        PirExpr::If { cond, then_branch, else_branch } => {
            collect_defs(nodes, cond, sid);
            collect_defs(nodes, then_branch, sid);
            collect_defs(nodes, else_branch, sid);
            proof {
                lemma_apply_defs_concat(m0, def_events(**cond, sid.0), def_events(**then_branch, sid.0));
                lemma_apply_defs_concat(m0, def_events(**cond, sid.0) + def_events(**then_branch, sid.0), def_events(**else_branch, sid.0));
            }
        },
        PirExpr::Binary { left, right, .. } => {
            collect_defs(nodes, left, sid);
            collect_defs(nodes, right, sid);
            proof {
                lemma_apply_defs_concat(m0, def_events(**left, sid.0), def_events(**right, sid.0));
            }
        },
        PirExpr::Unary { expr, .. } => {
            collect_defs(nodes, expr, sid);
        },
        PirExpr::Index { base, indices } => {
            collect_defs(nodes, base, sid);
            collect_defs_all(nodes, indices, sid);
            proof {
                lemma_apply_defs_concat(m0, def_events(**base, sid.0), def_events_all(indices@, sid.0));
            }
        },
        PirExpr::Field { base, .. } => {
            collect_defs(nodes, base, sid);
        },
        _ => {},
    }
}

/// Records the definitions of a list of expressions, in order.
fn collect_defs_all(nodes: &mut NodeMap, es: &Vec<PirExpr>, sid: StmtId)
    ensures
        final(nodes)@ == apply_defs(old(nodes)@, def_events_all(es@, sid.0)),
    decreases es,
{
    let ghost m0 = nodes@;
    let mut i: usize = 0;
    while i < es.len()
        invariant
            i <= es@.len(),
            nodes@ == apply_defs(m0, def_events_all(es@.subrange(0, i as int), sid.0)),
        decreases es@.len() - i,
    {
        proof {
            assert(decreases_to!(es => es@));
            assert(decreases_to!(es@ => es@[i as int]));
        }
        collect_defs(nodes, &es[i], sid);
        proof {
            let s = es@.subrange(0, i + 1);
            assert(s.drop_last() =~= es@.subrange(0, i as int));
            lemma_apply_defs_concat(m0, def_events_all(es@.subrange(0, i as int), sid.0), def_events(es@[i as int], sid.0));
        }
        i = i + 1;
    }
    proof {
        assert(es@.subrange(0, es@.len() as int) =~= es@);
    }
}

/// Records the reads of an expression.
fn collect_uses(nodes: &mut NodeMap, expr: &PirExpr, sid: StmtId)
    ensures
        final(nodes)@ == apply_uses(old(nodes)@, use_events(*expr, sid.0)),
    decreases expr,
{
    let ghost m0 = nodes@;
    match expr {
        PirExpr::Var(name) => {
            nodes.record_use(name.as_str(), sid);
            proof {
                lemma_apply_uses_one(m0, (name@, sid.0));
            }
        },
        PirExpr::Let { value, body, .. } => {
            collect_uses(nodes, value, sid);
            collect_uses(nodes, body, sid);
            proof {
                lemma_apply_uses_concat(m0, use_events(**value, sid.0), use_events(**body, sid.0));
            }
        },
        PirExpr::Reversible { body, inverse } => {
            collect_uses(nodes, body, sid);
            collect_uses(nodes, inverse, sid);
            proof {
                lemma_apply_uses_concat(m0, use_events(**body, sid.0), use_events(**inverse, sid.0));
            }
        },
        PirExpr::If { cond, then_branch, else_branch } => {
            collect_uses(nodes, cond, sid);
            collect_uses(nodes, then_branch, sid);
            collect_uses(nodes, else_branch, sid);
            proof {
                lemma_apply_uses_concat(m0, use_events(**cond, sid.0), use_events(**then_branch, sid.0));
                lemma_apply_uses_concat(m0, use_events(**cond, sid.0) + use_events(**then_branch, sid.0), use_events(**else_branch, sid.0));
            }
        },
        PirExpr::Binary { left, right, .. } => {
            collect_uses(nodes, left, sid);
            collect_uses(nodes, right, sid);
            proof {
                lemma_apply_uses_concat(m0, use_events(**left, sid.0), use_events(**right, sid.0));
            }
        },
        PirExpr::Unary { expr, .. } => {
            collect_uses(nodes, expr, sid);
        },
        PirExpr::Call { args, .. } => {
            collect_uses_all(nodes, args, sid);
        },
        PirExpr::Index { base, indices } => {
            collect_uses(nodes, base, sid);
            collect_uses_all(nodes, indices, sid);
            proof {
                lemma_apply_uses_concat(m0, use_events(**base, sid.0), use_events_all(indices@, sid.0));
            }
        },
        PirExpr::Field { base, .. } => {
            collect_uses(nodes, base, sid);
        },
        _ => {},
    }
}

/// Records the reads of a list of expressions, in order.
fn collect_uses_all(nodes: &mut NodeMap, es: &Vec<PirExpr>, sid: StmtId)
    ensures
        final(nodes)@ == apply_uses(old(nodes)@, use_events_all(es@, sid.0)),
    decreases es,
{
    let ghost m0 = nodes@;
    let mut i: usize = 0;
    while i < es.len()
        invariant
            i <= es@.len(),
            nodes@ == apply_uses(m0, use_events_all(es@.subrange(0, i as int), sid.0)),
        decreases es@.len() - i,
    {
        proof {
            assert(decreases_to!(es => es@));
            assert(decreases_to!(es@ => es@[i as int]));
        }
        collect_uses(nodes, &es[i], sid);
        proof {
            let s = es@.subrange(0, i + 1);
            assert(s.drop_last() =~= es@.subrange(0, i as int));
            lemma_apply_uses_concat(m0, use_events_all(es@.subrange(0, i as int), sid.0), use_events(es@[i as int], sid.0));
        }
        i = i + 1;
    }
    proof {
        assert(es@.subrange(0, es@.len() as int) =~= es@);
    }
}

impl NodeMap {
    /// Replaces the dependencies of the node at a position.
    pub(crate) fn set_deps(&mut self, i: usize, deps: Vec<String>)
        requires
            i < old(self)@.len(),
        ensures
            final(self)@ == old(self)@.update(i as int, NodeModel { deps: deps@.map_values(|s: String| s@), ..old(self)@[i as int] }),
    {
        let ghost dv = deps@.map_values(|s: String| s@);
        self.entries[i].dependencies = deps;
        proof {
            let n = self.entries@[i as int]@;
            assert(n == NodeModel { deps: dv, ..old(self)@[i as int] });
            assert(self@ =~= old(self)@.update(i as int, n));
        }
    }
}

/// Whether a statement is among the uses.
fn stmt_in(uses: &Vec<StmtId>, s: usize) -> (r: bool)
    ensures
        r == uses@.map_values(|x: StmtId| x.0).contains(s),
{
    let ghost u = uses@.map_values(|x: StmtId| x.0);
    let mut k: usize = 0;
    while k < uses.len()
        invariant
            k <= uses@.len(),
            u == uses@.map_values(|x: StmtId| x.0),
            forall|j: int| 0 <= j < k ==> u[j] != s,
        decreases uses@.len() - k,
    {
        if uses[k].0 == s {
            assert(u[k as int] == s);
            return true;
        }
        k = k + 1;
    }
    false
}

/// Gives every node its dependencies: the other nodes read by its defining statement.
fn compute_dependencies(nodes: &mut NodeMap)
    ensures
        final(nodes)@ == with_deps(old(nodes)@),
{
    let ghost m = nodes@;
    let n = nodes.len();
    let mut i: usize = 0;
    while i < n
        invariant
            n == m.len(),
            i <= n,
            nodes@.len() == n,
            forall|j: int| 0 <= j < i ==> nodes@[j] == with_deps(m)[j],
            forall|j: int| i <= j < n ==> nodes@[j] == m[j],
        decreases n - i,
    {
        let d = nodes.entry(i).def_stmt.0;
        let my_name = nodes.entry(i).temp.clone();
        let mut deps: Vec<String> = Vec::new();
        let mut k: usize = 0;
        while k < n
            invariant
                n == m.len(),
                i < n,
                k <= n,
                nodes@.len() == n,
                forall|j: int| 0 <= j < i ==> nodes@[j] == with_deps(m)[j],
                forall|j: int| i <= j < n ==> nodes@[j] == m[j],
                d == m[i as int].def_stmt,
                my_name@ == m[i as int].temp,
                deps@.map_values(|s: String| s@) == deps_upto(m, i as int, k as int),
            decreases n - k,
        {
            let other = nodes.entry(k);
            proof {
                if k < i {
                    assert(nodes@[k as int] == with_deps(m)[k as int]);
                }
                assert(other@.temp == m[k as int].temp);
                assert(other@.uses == m[k as int].uses);
            }
            let ghost before = deps@;
            if !str_eq(other.temp.as_str(), my_name.as_str()) && stmt_in(&other.uses, d) {
                let t = other.temp.clone();
                deps.push(t);
                proof {
                    assert(deps@.map_values(|s: String| s@) =~= before.map_values(|s: String| s@).push(m[k as int].temp));
                }
            }
            k = k + 1;
        }
        nodes.set_deps(i, deps);
        i = i + 1;
    }
    assert(nodes@ =~= with_deps(m));
}

proof fn lemma_zero_names_step(q: Seq<(Seq<char>, Quantity)>, i: int)
    requires
        0 <= i < q.len(),
    ensures
        zero_names(q.subrange(0, i + 1)) == if q[i].1 == Quantity::Zero {
            zero_names(q.subrange(0, i)).insert(q[i].0)
        } else {
            zero_names(q.subrange(0, i))
        },
{
    let a = q.subrange(0, i);
    let b = q.subrange(0, i + 1);
    let rhs = if q[i].1 == Quantity::Zero { zero_names(a).insert(q[i].0) } else { zero_names(a) };
    assert forall|x: Seq<char>| zero_names(b).contains(x) <==> rhs.contains(x) by {
        if zero_names(b).contains(x) {
            let j = choose|j: int| 0 <= j < b.len() && (#[trigger] b[j]).0 == x && b[j].1 == Quantity::Zero;
            if j < i {
                assert(a[j] == b[j]);
            }
        }
        if zero_names(a).contains(x) {
            let j = choose|j: int| 0 <= j < a.len() && (#[trigger] a[j]).0 == x && a[j].1 == Quantity::Zero;
            assert(b[j] == a[j]);
        }
        if q[i].1 == Quantity::Zero && x == q[i].0 {
            assert(b[i] == q[i]);
        }
    }
    assert(zero_names(b) =~= rhs);
}

/// Dataflow DAG of the temporaries of a reversible block.
#[derive(Debug)]
pub struct DataflowDAG {
    /// The temporaries, by name.
    pub nodes: NodeMap,
    /// Zero-quantity names, erased at compile time.
    pub zero_qty_temps: NameSet,
    /// The quantities of the enclosing context.
    pub quantities: QuantityMap,
}

impl DataflowDAG {
    /// An empty DAG over the given quantities.
    pub fn new(quantities: &QuantityMap) -> (r: Self)
        ensures
            r.nodes@ == Seq::<NodeModel>::empty(),
            r.zero_qty_temps@ == Set::<Seq<char>>::empty(),
            r.quantities@ == quantities@,
    {
        DataflowDAG { nodes: NodeMap::new(), zero_qty_temps: NameSet::new(), quantities: quantities.clone() }
    }

    /// Builds the DAG from the forward statements: the definitions, the
    /// reads, the dependencies, and the zero-quantity names.
    pub fn build(&mut self, stmts: &[PirStatement]) -> (r: Result<(), LoweringError>)
        requires
            names_unique(old(self).nodes@),
        ensures
            r is Ok,
            final(self).nodes@ == dag_of(old(self).nodes@, stmts@),
            dag_wf(final(self).nodes@),
            final(self).zero_qty_temps@ == old(self).zero_qty_temps@.union(zero_names(old(self).quantities@)),
            final(self).quantities@ == old(self).quantities@,
    {
        let ghost m0 = self.nodes@;
        let ghost z_init = self.zero_qty_temps@;
        let ghost q_init = self.quantities@;
        let mut i: usize = 0;
        while i < stmts.len()
            invariant
                i <= stmts@.len(),
                self.zero_qty_temps@ == z_init,
                self.quantities@ == q_init,
                self.nodes@ == apply_defs(m0, stmts_def_events(stmts@.subrange(0, i as int))),
            decreases stmts@.len() - i,
        {
            collect_defs(&mut self.nodes, &stmts[i].body, stmts[i].id);
            proof {
                let s = stmts@.subrange(0, i + 1);
                assert(s.drop_last() =~= stmts@.subrange(0, i as int));
                lemma_apply_defs_concat(m0, stmts_def_events(stmts@.subrange(0, i as int)), def_events(stmts@[i as int].body, stmts@[i as int].id.0));
            }
            i = i + 1;
        }
        proof {
            assert(stmts@.subrange(0, stmts@.len() as int) =~= stmts@);
            lemma_apply_defs_unique(m0, stmts_def_events(stmts@));
        }
        let ghost m1 = self.nodes@;
        let mut i: usize = 0;
        while i < stmts.len()
            invariant
                i <= stmts@.len(),
                self.zero_qty_temps@ == z_init,
                self.quantities@ == q_init,
                self.nodes@ == apply_uses(m1, stmts_use_events(stmts@.subrange(0, i as int))),
            decreases stmts@.len() - i,
        {
            collect_uses(&mut self.nodes, &stmts[i].body, stmts[i].id);
            proof {
                let s = stmts@.subrange(0, i + 1);
                assert(s.drop_last() =~= stmts@.subrange(0, i as int));
                lemma_apply_uses_concat(m1, stmts_use_events(stmts@.subrange(0, i as int)), use_events(stmts@[i as int].body, stmts@[i as int].id.0));
            }
            i = i + 1;
        }
        proof {
            assert(stmts@.subrange(0, stmts@.len() as int) =~= stmts@);
            let m2 = apply_uses(m1, stmts_use_events(stmts@));
            lemma_apply_uses_names(m1, stmts_use_events(stmts@));
            assert forall|a: int, b: int| 0 <= a < m2.len() && 0 <= b < m2.len() && a != b implies (#[trigger] m2[a]).temp != (#[trigger] m2[b]).temp by {
                assert(m1[a].temp != m1[b].temp);
            }
            lemma_with_deps_wf(m2);
        }
        compute_dependencies(&mut self.nodes);
        let ghost m3 = self.nodes@;
        assert(m3 == dag_of(m0, stmts@));
        assert(dag_wf(m3));
        let ghost z0 = self.zero_qty_temps@;
        let ghost q = self.quantities@;
        let mut i: usize = 0;
        while i < self.quantities.len()
            invariant
                i <= q.len(),
                q == self.quantities@,
                self.nodes@ == m3,
                self.zero_qty_temps@ == z0.union(zero_names(q.subrange(0, i as int))),
            decreases q.len() - i,
        {
            let (name, qty) = self.quantities.entry(i);
            proof {
                lemma_zero_names_step(q, i as int);
            }
            match qty {
                Quantity::Zero => {
                    let s = name.clone();
                    self.zero_qty_temps.insert(s.as_str());
                    proof {
                        assert(z0.union(zero_names(q.subrange(0, i as int))).insert(q[i as int].0)
                            =~= z0.union(zero_names(q.subrange(0, i + 1))));
                    }
                },
                _ => {},
            }
            i = i + 1;
        }
        proof {
            assert(q.subrange(0, q.len() as int) =~= q);
        }
        Ok(())
    }

    /// The zero-quantity names, which are never allocated.
    pub fn erased_temps(&self) -> (r: NameSet)
        ensures
            r@ == self.zero_qty_temps@,
    {
        self.zero_qty_temps.clone()
    }
}

/// The node named `x` lists `y` among its dependencies.
pub open spec fn depends_on(m: Seq<NodeModel>, x: Seq<char>, y: Seq<char>) -> bool {
    exists|i: int| #![trigger m[i]] 0 <= i < m.len() && m[i].temp == x && m[i].deps.contains(y)
}

/// Some node is named `x`.
pub open spec fn is_node_name(m: Seq<NodeModel>, x: Seq<char>) -> bool {
    exists|i: int| 0 <= i < m.len() && (#[trigger] m[i]).temp == x
}

/// An order in which the temporaries can be uncomputed: each node's name
/// exactly once, nothing else, and every node before the nodes it depends on.
pub open spec fn is_uncompute_order(m: Seq<NodeModel>, order: Seq<Seq<char>>) -> bool {
    &&& order.no_duplicates()
    &&& forall|a: int| 0 <= a < order.len() ==> is_node_name(m, #[trigger] order[a])
    &&& forall|i: int| 0 <= i < m.len() ==> order.contains(#[trigger] m[i].temp)
    &&& forall|a: int, b: int| 0 <= a < order.len() && 0 <= b < order.len() && depends_on(m, #[trigger] order[a], #[trigger] order[b]) ==> a < b
}

/// The text of the error for a cyclic DAG.
pub open spec fn cycle_message() -> Seq<char> {
    "Cycle detected in dataflow DAG - cannot uncomputation"@
}

/// A placed node carries the name `d`.
pub open spec fn dep_placed(m: Seq<NodeModel>, placed: Seq<bool>, d: Seq<char>) -> bool {
    exists|k: int| #![trigger m[k]] 0 <= k < m.len() && m[k].temp == d && placed[k]
}

/// Every dependency of node `j` is a placed node.
pub open spec fn ready(m: Seq<NodeModel>, placed: Seq<bool>, j: int) -> bool {
    forall|u: int| 0 <= u < m[j].deps.len() ==> #[trigger] dep_placed(m, placed, m[j].deps[u])
}

/// Some name among the first `t` of `fwd` is `d`.
pub open spec fn named_before(fwd: Seq<String>, t: int, d: Seq<char>) -> bool {
    exists|t2: int| 0 <= t2 < t && fwd[t2]@ == d
}

/// Number of `false` entries.
pub open spec fn count_false(s: Seq<bool>) -> nat
    decreases s.len(),
{
    if s.len() == 0 {
        0
    } else {
        count_false(s.drop_last()) + if s.last() { 0nat } else { 1nat }
    }
}

proof fn lemma_count_false_update(s: Seq<bool>, i: int)
    requires
        0 <= i < s.len(),
        !s[i],
    ensures
        count_false(s.update(i, true)) + 1 == count_false(s),
    decreases s.len(),
{
    let t = s.update(i, true);
    if i == s.len() - 1 {
        assert(t.drop_last() =~= s.drop_last());
    } else {
        assert(t.drop_last() =~= s.drop_last().update(i, true));
        lemma_count_false_update(s.drop_last(), i);
    }
}

/// Position of a name in an order that holds it.
spec fn pos_in(o: Seq<Seq<char>>, x: Seq<char>) -> int {
    choose|a: int| 0 <= a < o.len() && o[a] == x
}

/// An unplaced node among the first `k` whose name comes last in `o`.
proof fn lemma_last_unplaced(m: Seq<NodeModel>, placed: Seq<bool>, o: Seq<Seq<char>>, k: int) -> (r: int)
    requires
        0 < k <= m.len(),
        placed.len() == m.len(),
        exists|j: int| 0 <= j < k && !placed[j],
        forall|i: int| 0 <= i < m.len() ==> o.contains(#[trigger] m[i].temp),
    ensures
        0 <= r < k,
        !placed[r],
        forall|j: int| 0 <= j < k && !placed[j] ==> pos_in(o, m[j].temp) <= pos_in(o, m[r].temp),
    decreases k,
{
    if exists|j: int| 0 <= j < k - 1 && !placed[j] {
        let r0 = lemma_last_unplaced(m, placed, o, k - 1);
        if !placed[k - 1] && pos_in(o, m[r0].temp) < pos_in(o, m[k - 1].temp) {
            k - 1
        } else {
            r0
        }
    } else {
        assert(!placed[k - 1]);
        k - 1
    }
}

/// When no unplaced node is ready, no uncompute order exists: the unplaced
/// node that comes last in such an order would depend on an unplaced node
/// after it.
proof fn lemma_stuck_no_order(m: Seq<NodeModel>, placed: Seq<bool>, o: Seq<Seq<char>>)
    requires
        dag_wf(m),
        placed.len() == m.len(),
        exists|j: int| 0 <= j < m.len() && !placed[j],
        forall|j: int| 0 <= j < m.len() && !placed[j] ==> !ready(m, placed, j),
    ensures
        !is_uncompute_order(m, o),
{
    if is_uncompute_order(m, o) {
        let r = lemma_last_unplaced(m, placed, o, m.len() as int);
        assert(!ready(m, placed, r));
        let u = choose|u: int| 0 <= u < m[r].deps.len() && !#[trigger] dep_placed(m, placed, m[r].deps[u]);
        let d = m[r].deps[u];
        let k = choose|k: int| 0 <= k < m.len() && (#[trigger] m[k]).temp == m[r].deps[u];
        assert(!placed[k]);
        assert(o.contains(m[r].temp));
        assert(o.contains(m[k].temp));
        let a = pos_in(o, m[r].temp);
        let b = pos_in(o, m[k].temp);
        assert(m[r].deps.contains(d));
        assert(depends_on(m, o[a], o[b]));
        assert(a < b);
        assert(b <= a);
    }
}

impl DataflowDAG {
    /// Whether every dependency of node `j` is placed.
    fn deps_ready(&self, j: usize, placed: &Vec<bool>) -> (r: bool)
        requires
            dag_wf(self.nodes@),
            j < self.nodes@.len(),
            placed@.len() == self.nodes@.len(),
        ensures
            r == ready(self.nodes@, placed@, j as int),
    {
        let ghost m = self.nodes@;
        let node = self.nodes.entry(j);
        let mut u: usize = 0;
        while u < node.dependencies.len()
            invariant
                m == self.nodes@,
                dag_wf(m),
                j < m.len(),
                node@ == m[j as int],
                placed@.len() == m.len(),
                u <= node.dependencies@.len(),
                forall|w: int| 0 <= w < u ==> #[trigger] dep_placed(m, placed@, m[j as int].deps[w]),
            decreases node.dependencies@.len() - u,
        {
            let dep = &node.dependencies[u];
            assert(m[j as int].deps[u as int] == dep@);
            match self.nodes.find(dep.as_str()) {
                Some(k) => {
                    if !placed[k] {
                        proof {
                            assert forall|k2: int| 0 <= k2 < m.len() && (#[trigger] m[k2]).temp == m[j as int].deps[u as int] implies !placed@[k2] by {
                                if k2 != k {
                                    assert(m[k2].temp != m[k as int].temp);
                                }
                            }
                            assert(!dep_placed(m, placed@, m[j as int].deps[u as int]));
                        }
                        return false;
                    }
                    assert(dep_placed(m, placed@, m[j as int].deps[u as int])) by {
                        assert(m[k as int].temp == dep@);
                    }
                },
                None => {
                    proof {
                        lemma_name_index(m, dep@);
                        let k = choose|k: int| 0 <= k < m.len() && (#[trigger] m[k]).temp == m[j as int].deps[u as int];
                        assert(m[k].temp != dep@);
                    }
                },
            }
            u = u + 1;
        }
        true
    }

    /// Orders the temporaries for uncomputation: every node comes before the
    /// nodes it depends on, so the last one defined is uncomputed first.
    /// Fails exactly when the dependencies form a cycle, that is when no such
    /// order exists.
    pub fn topological_sort(&self) -> (r: Result<Vec<String>, LoweringError>)
        requires
            dag_wf(self.nodes@),
        ensures
            r matches Ok(order) ==> is_uncompute_order(self.nodes@, order@.map_values(|s: String| s@)),
            r matches Err(e) ==> e matches LoweringError::NonReversibleOp(msg) && msg@ == cycle_message(),
            r is Ok <==> exists|o: Seq<Seq<char>>| is_uncompute_order(self.nodes@, o),
    {
        let ghost m = self.nodes@;
        let n = self.nodes.len();
        let mut placed: Vec<bool> = Vec::new();
        let mut z: usize = 0;
        while z < n
            invariant
                z <= n,
                placed@ == Seq::new(z as nat, |k: int| false),
            decreases n - z,
        {
            placed.push(false);
            z = z + 1;
            assert(placed@ =~= Seq::new(z as nat, |k: int| false));
        }
        let mut fwd: Vec<String> = Vec::new();
        let ghost mut picked: Seq<int> = Seq::empty();
        loop
            invariant
                m == self.nodes@,
                n == m.len(),
                dag_wf(m),
                placed@.len() == n,
                picked.len() == fwd@.len(),
                picked.no_duplicates(),
                forall|t: int| 0 <= t < picked.len() ==> 0 <= #[trigger] picked[t] < n && fwd@[t]@ == m[picked[t]].temp,
                forall|j: int| 0 <= j < n ==> (placed@[j] <==> picked.contains(j)),
                forall|t: int, u: int| 0 <= t < picked.len() && 0 <= u < m[picked[t]].deps.len()
                    ==> #[trigger] named_before(fwd@, t, m[picked[t]].deps[u]),
            ensures
                forall|j: int| 0 <= j < n ==> placed@[j],
                placed@.len() == n,
                picked.len() == fwd@.len(),
                picked.no_duplicates(),
                forall|t: int| 0 <= t < picked.len() ==> 0 <= #[trigger] picked[t] < n && fwd@[t]@ == m[picked[t]].temp,
                forall|j: int| 0 <= j < n ==> (placed@[j] <==> picked.contains(j)),
                forall|t: int, u: int| 0 <= t < picked.len() && 0 <= u < m[picked[t]].deps.len()
                    ==> #[trigger] named_before(fwd@, t, m[picked[t]].deps[u]),
            decreases count_false(placed@),
        {
            let mut found: Option<usize> = None;
            let mut any_unplaced = false;
            let mut i: usize = 0;
            while i < n && found.is_none()
                invariant
                    m == self.nodes@,
                    n == m.len(),
                    dag_wf(m),
                    placed@.len() == n,
                    i <= n,
                    found matches Some(f) ==> f < n && !placed@[f as int] && ready(m, placed@, f as int),
                    found is None ==> forall|j: int| 0 <= j < i && !placed@[j] ==> !ready(m, placed@, j),
                    any_unplaced <==> exists|j: int| 0 <= j < i && !placed@[j],
                    picked.len() == fwd@.len(),
                    picked.no_duplicates(),
                    forall|t: int| 0 <= t < picked.len() ==> 0 <= #[trigger] picked[t] < n && fwd@[t]@ == m[picked[t]].temp,
                    forall|j: int| 0 <= j < n ==> (placed@[j] <==> picked.contains(j)),
                    forall|t: int, u: int| 0 <= t < picked.len() && 0 <= u < m[picked[t]].deps.len()
                        ==> #[trigger] named_before(fwd@, t, m[picked[t]].deps[u]),
                decreases n - i,
            {
                if !placed[i] {
                    any_unplaced = true;
                    if self.deps_ready(i, &placed) {
                        found = Some(i);
                    }
                }
                i = i + 1;
            }
            match found {
                Some(f) => {
                    let ghost p0 = placed@;
                    let ghost f0 = fwd@;
                    let ghost t = picked.len() as int;
                    proof {
                        lemma_count_false_update(p0, f as int);
                        assert(!picked.contains(f as int));
                    }
                    placed.set(f, true);
                    let name = self.nodes.entry(f).temp.clone();
                    fwd.push(name);
                    proof {
                        let pk = picked.push(f as int);
                        assert forall|a: int, b: int| 0 <= a < b < pk.len() implies pk[a] != pk[b] by {
                            if b == t {
                                assert(picked.contains(pk[a]));
                            } else {
                                assert(picked[a] != picked[b]);
                            }
                        }
                        assert forall|tt: int| 0 <= tt < pk.len() implies 0 <= #[trigger] pk[tt] < n && fwd@[tt]@ == m[pk[tt]].temp by {
                            if tt < t {
                                assert(fwd@[tt] == f0[tt]);
                            }
                        }
                        assert(placed@ == p0.update(f as int, true));
                        assert forall|j: int| 0 <= j < n implies (placed@[j] <==> pk.contains(j)) by {
                            if j == f {
                                assert(pk[t] == j);
                            } else {
                                assert(placed@[j] == p0[j]);
                                assert(p0[j] <==> picked.contains(j));
                                if picked.contains(j) {
                                    let w = choose|w: int| 0 <= w < picked.len() && picked[w] == j;
                                    assert(pk[w] == j);
                                }
                                if pk.contains(j) {
                                    let w = choose|w: int| 0 <= w < pk.len() && pk[w] == j;
                                    assert(w != t);
                                    assert(picked[w] == j);
                                }
                            }
                        }
                        assert forall|tt: int, u: int| 0 <= tt < pk.len() && 0 <= u < m[pk[tt]].deps.len()
                            implies #[trigger] named_before(fwd@, tt, m[pk[tt]].deps[u]) by {
                            if tt < t {
                                assert(pk[tt] == picked[tt]);
                                assert(named_before(f0, tt, m[picked[tt]].deps[u]));
                                let t2 = choose|t2: int| 0 <= t2 < tt && f0[t2]@ == m[picked[tt]].deps[u];
                                assert(fwd@[t2] == f0[t2]);
                                assert(fwd@[t2]@ == m[pk[tt]].deps[u]);
                            } else {
                                assert(ready(m, p0, f as int));
                                assert(dep_placed(m, p0, m[f as int].deps[u]));
                                let k = choose|k: int| #![trigger m[k]] 0 <= k < m.len() && m[k].temp == m[f as int].deps[u] && p0[k];
                                assert(picked.contains(k));
                                let t2 = choose|t2: int| 0 <= t2 < picked.len() && picked[t2] == k;
                                assert(fwd@[t2] == f0[t2]);
                                assert(fwd@[t2]@ == m[k].temp);
                            }
                        }
                        picked = pk;
                    }
                },
                None => {
                    if any_unplaced {
                        proof {
                            assert forall|o: Seq<Seq<char>>| !is_uncompute_order(m, o) by {
                                lemma_stuck_no_order(m, placed@, o);
                            }
                        }
                        return Err(LoweringError::NonReversibleOp("Cycle detected in dataflow DAG - cannot uncomputation".to_string()));
                    }
                    break;
                },
            }
        }
        // every node is placed; reverse the forward order
        assert forall|j: int| 0 <= j < n implies picked.contains(j) by {
            assert(placed@[j]);
        }
        let ghost fv = fwd@.map_values(|s: String| s@);
        let mut order: Vec<String> = Vec::new();
        let mut t: usize = fwd.len();
        while t > 0
            invariant
                t <= fwd@.len(),
                fv == fwd@.map_values(|s: String| s@),
                order@.len() == fwd@.len() - t,
                forall|a: int| 0 <= a < order@.len() ==> (#[trigger] order@[a])@ == fv[fwd@.len() - 1 - a],
                m == self.nodes@,
                n == m.len(),
                dag_wf(m),
                picked.len() == fwd@.len(),
                picked.no_duplicates(),
                forall|tt: int| 0 <= tt < picked.len() ==> 0 <= #[trigger] picked[tt] < n && fwd@[tt]@ == m[picked[tt]].temp,
                forall|j: int| 0 <= j < n ==> picked.contains(j),
                forall|tt: int, u: int| 0 <= tt < picked.len() && 0 <= u < m[picked[tt]].deps.len()
                    ==> #[trigger] named_before(fwd@, tt, m[picked[tt]].deps[u]),
            decreases t,
        {
            t = t - 1;
            let s = fwd[t].clone();
            order.push(s);
        }
        proof {
            let ov = order@.map_values(|s: String| s@);
            let len = fwd@.len() as int;
            assert forall|a: int| 0 <= a < ov.len() implies ov[a] == fv[len - 1 - a] && ov[a] == m[picked[len - 1 - a]].temp by {
                assert(ov[a] == order@[a]@);
            }
            // no duplicates
            assert forall|a: int, b: int| 0 <= a < ov.len() && 0 <= b < ov.len() && a != b implies ov[a] != ov[b] by {
                let ta = len - 1 - a;
                let tb = len - 1 - b;
                assert(picked[ta] != picked[tb]);
                assert(m[picked[ta]].temp != m[picked[tb]].temp);
            }
            // only node names
            assert forall|a: int| 0 <= a < ov.len() implies is_node_name(m, #[trigger] ov[a]) by {
                let i = picked[len - 1 - a];
                assert(m[i].temp == ov[a]);
            }
            // every node
            assert forall|i: int| 0 <= i < m.len() implies ov.contains(#[trigger] m[i].temp) by {
                assert(picked.contains(i));
                let w = choose|w: int| 0 <= w < picked.len() && picked[w] == i;
                assert(ov[len - 1 - w] == m[i].temp);
            }
            // dependencies come later
            assert forall|a: int, b: int| 0 <= a < ov.len() && 0 <= b < ov.len() && depends_on(m, #[trigger] ov[a], #[trigger] ov[b]) implies a < b by {
                let ta = len - 1 - a;
                let tb = len - 1 - b;
                let i = choose|i: int| #![trigger m[i]] 0 <= i < m.len() && m[i].temp == ov[a] && m[i].deps.contains(ov[b]);
                if i != picked[ta] {
                    assert(m[i].temp != m[picked[ta]].temp);
                }
                let u = choose|u: int| 0 <= u < m[i].deps.len() && m[i].deps[u] == ov[b];
                assert(named_before(fwd@, ta, m[picked[ta]].deps[u]));
                let t2 = choose|t2: int| 0 <= t2 < ta && fwd@[t2]@ == m[picked[ta]].deps[u];
                assert(fv[t2] == ov[b]);
                if t2 != tb {
                    assert(picked[t2] != picked[tb]);
                    assert(m[picked[t2]].temp != m[picked[tb]].temp);
                }
            }
            assert(is_uncompute_order(m, ov));
        }
        Ok(order)
    }
}

/// An inverse operation as a value.
pub struct InvModel {
    pub expr: ExprModel,
    pub is_adjoint: bool,
    pub required: Seq<Seq<char>>,
    pub has_map: bool,
}

impl View for InverseOperation {
    type V = InvModel;

    open spec fn view(&self) -> InvModel {
        InvModel {
            expr: self.expr@,
            is_adjoint: self.is_adjoint,
            required: self.required_ancilla@.map_values(|s: String| s@),
            has_map: self.schedule_map is Some,
        }
    }
}

/// Names of the quantum gates.
pub open spec fn is_gate_name(n: Seq<char>) -> bool {
    n == "H"@ || n == "X"@ || n == "Y"@ || n == "Z"@ || n == "S"@ || n == "T"@ || n == "CX"@ || n == "CY"@
        || n == "CZ"@ || n == "RX"@ || n == "RY"@ || n == "RZ"@ || n == "qgate"@ || n == "apply_gate"@
}

/// Names of the measurements.
pub open spec fn is_measurement_name(n: Seq<char>) -> bool {
    n == "measure"@ || n == "qmeasure"@ || n == "measure_z"@
}

/// Names of the random number sources.
pub open spec fn is_rng_name(n: Seq<char>) -> bool {
    n == "rng"@ || n == "random"@ || n == "rand"@
}

/// Names of the rotation gates.
pub open spec fn is_rotation_name(n: Seq<char>) -> bool {
    n == "RX"@ || n == "RY"@ || n == "RZ"@
}

/// Whether a call is a quantum gate.
pub fn is_quantum_gate(name: &str) -> (r: bool)
    ensures
        r == is_gate_name(name@),
{
    str_eq(name, "H") || str_eq(name, "X") || str_eq(name, "Y") || str_eq(name, "Z") || str_eq(name, "S")
        || str_eq(name, "T") || str_eq(name, "CX") || str_eq(name, "CY") || str_eq(name, "CZ")
        || str_eq(name, "RX") || str_eq(name, "RY") || str_eq(name, "RZ") || str_eq(name, "qgate")
        || str_eq(name, "apply_gate")
}

/// Whether a call is a measurement.
pub fn is_measurement(name: &str) -> (r: bool)
    ensures
        r == is_measurement_name(name@),
{
    str_eq(name, "measure") || str_eq(name, "qmeasure") || str_eq(name, "measure_z")
}

/// Whether a call draws a random number.
pub fn is_rng(name: &str) -> (r: bool)
    ensures
        r == is_rng_name(name@),
{
    str_eq(name, "rng") || str_eq(name, "random") || str_eq(name, "rand")
}

/// The adjoint of a gate: self-adjoint gates are their own, `S`, `T` and the
/// rotations get a dagger, anything else is unknown.
pub open spec fn adjoint_name(g: Seq<char>) -> Seq<char> {
    if g == "H"@ || g == "X"@ || g == "Y"@ || g == "Z"@ || g == "CX"@ || g == "CY"@ || g == "CZ"@ {
        g
    } else if g == "S"@ {
        "S†"@
    } else if g == "T"@ {
        "T†"@
    } else if g == "RX"@ {
        "RX†"@
    } else if g == "RY"@ {
        "RY†"@
    } else if g == "RZ"@ {
        "RZ†"@
    } else {
        "UNKNOWN"@
    }
}

/// An argument of an adjoint: a rotation applied to an angle variable gets
/// the negated angle; anything else is kept.
pub open spec fn adjoint_arg(a: ExprModel) -> ExprModel {
    match a {
        ExprModel::Call { name, args } => if is_rotation_name(name) && args.len() > 0 {
            match args[0] {
                ExprModel::Var(angle) => ExprModel::Unary { op: UnaryOp::Neg, expr: Box::new(ExprModel::Var(angle)) },
                _ => a,
            }
        } else {
            a
        },
        _ => a,
    }
}

/// The adjoint of a gate application.
pub open spec fn adjoint_op(g: Seq<char>, args: Seq<ExprModel>) -> InvModel {
    InvModel {
        expr: ExprModel::Call { name: adjoint_name(g), args: args.map_values(|a: ExprModel| adjoint_arg(a)) },
        is_adjoint: true,
        required: Seq::empty(),
        has_map: false,
    }
}

/// A measurement is undone on its qubit (the first argument, or 0) with an ancilla.
pub open spec fn measurement_uncompute(args: Seq<ExprModel>) -> InvModel {
    InvModel {
        expr: ExprModel::Call {
            name: "unmeasure"@,
            args: seq![if args.len() > 0 { args[0] } else { ExprModel::IntLit(0) }],
        },
        is_adjoint: false,
        required: seq!["measurement_ancilla"@],
        has_map: false,
    }
}

/// A random draw is undone with an ancilla holding the entropy.
pub open spec fn rng_uncompute() -> InvModel {
    InvModel {
        expr: ExprModel::Call { name: "unrng"@, args: Seq::empty() },
        is_adjoint: false,
        required: seq!["rng_ancilla"@],
        has_map: false,
    }
}

/// The operator that undoes an arithmetic operator.
pub open spec fn inverse_binop(op: BinaryOp) -> BinaryOp {
    match op {
        BinaryOp::Add => BinaryOp::Sub,
        BinaryOp::Sub => BinaryOp::Add,
        BinaryOp::Mul => BinaryOp::Div,
        BinaryOp::Div => BinaryOp::Mul,
        BinaryOp::Xor => BinaryOp::Xor,
        _ => BinaryOp::Add,
    }
}

/// The inverse of an arithmetic operation on the same operands.
pub open spec fn arithmetic_inverse(op: BinaryOp, left: ExprModel, right: ExprModel) -> InvModel {
    InvModel {
        expr: ExprModel::Binary { op: inverse_binop(op), left: Box::new(left), right: Box::new(right) },
        is_adjoint: false,
        required: Seq::empty(),
        has_map: false,
    }
}

/// A copy is undone by discarding the value.
pub open spec fn assignment_inverse(value: ExprModel) -> InvModel {
    InvModel {
        expr: ExprModel::Call { name: "discard"@, args: seq![value] },
        is_adjoint: false,
        required: Seq::empty(),
        has_map: false,
    }
}

/// Anything else is undone by the inverse of its affine map.
pub open spec fn affine_inverse(e: ExprModel) -> InvModel {
    InvModel {
        expr: ExprModel::Call { name: "affine_inverse"@, args: seq![e] },
        is_adjoint: false,
        required: Seq::empty(),
        has_map: false,
    }
}

/// The inverse operation for a defining expression.
pub open spec fn inverse_of(d: ExprModel) -> InvModel {
    match d {
        ExprModel::Call { name, args } => if is_gate_name(name) {
            adjoint_op(name, args)
        } else if is_measurement_name(name) {
            measurement_uncompute(args)
        } else if is_rng_name(name) {
            rng_uncompute()
        } else {
            affine_inverse(d)
        },
        ExprModel::Binary { op, left, right } => arithmetic_inverse(op, *left, *right),
        ExprModel::Let { value, .. } => assignment_inverse(*value),
        _ => affine_inverse(d),
    }
}

/// One argument of an adjoint.
fn adjoint_argument(arg: &PirExpr) -> (r: PirExpr)
    ensures
        r@ == adjoint_arg(arg@),
{
    match arg {
        PirExpr::Call { name, args } => {
            if (str_eq(name.as_str(), "RX") || str_eq(name.as_str(), "RY") || str_eq(name.as_str(), "RZ")) && args.len() > 0 {
                proof {
                    lemma_exprs_model_index(args@, 0);
                }
                match &args[0] {
                    PirExpr::Var(angle) => PirExpr::Unary { op: UnaryOp::Neg, expr: Box::new(PirExpr::Var(angle.clone())) },
                    _ => clone_expr(arg),
                }
            } else {
                proof {
                    if args@.len() > 0 {
                        lemma_exprs_model_index(args@, 0);
                    } else {
                        assert(exprs_model(args@).len() == 0) by {
                            lemma_exprs_model_index_len(args@);
                        }
                    }
                }
                clone_expr(arg)
            }
        },
        _ => clone_expr(arg),
    }
}

proof fn lemma_exprs_model_index_len(es: Seq<PirExpr>)
    ensures
        exprs_model(es).len() == es.len(),
    decreases es.len(),
{
    if es.len() > 0 {
        lemma_exprs_model_index_len(es.drop_last());
    }
}

/// The adjoint of a quantum gate: the adjoint gate applied to the arguments,
/// with the angles of rotations negated.
pub fn generate_quantum_adjoint(gate: &str, args: &[PirExpr], stmt_id: StmtId) -> (r: Result<InverseOperation, LoweringError>)
    ensures
        r matches Ok(op) && op@ == adjoint_op(gate@, exprs_model(args@)),
{
    let adjoint_gate = if str_eq(gate, "H") || str_eq(gate, "X") || str_eq(gate, "Y") || str_eq(gate, "Z")
        || str_eq(gate, "CX") || str_eq(gate, "CY") || str_eq(gate, "CZ") {
        gate.to_string()
    } else if str_eq(gate, "S") {
        "S†".to_string()
    } else if str_eq(gate, "T") {
        "T†".to_string()
    } else if str_eq(gate, "RX") {
        "RX†".to_string()
    } else if str_eq(gate, "RY") {
        "RY†".to_string()
    } else if str_eq(gate, "RZ") {
        "RZ†".to_string()
    } else {
        "UNKNOWN".to_string()
    };
    let ghost am = exprs_model(args@);
    let mut inv_args: Vec<PirExpr> = Vec::new();
    let mut i: usize = 0;
    proof {
        lemma_exprs_model_index_len(args@);
    }
    while i < args.len()
        invariant
            i <= args@.len(),
            am == exprs_model(args@),
            am.len() == args@.len(),
            exprs_model(inv_args@) == am.subrange(0, i as int).map_values(|a: ExprModel| adjoint_arg(a)),
        decreases args@.len() - i,
    {
        let a = adjoint_argument(&args[i]);
        let ghost before = inv_args@;
        inv_args.push(a);
        proof {
            lemma_exprs_model_index(args@, i as int);
            assert(inv_args@.drop_last() =~= before);
            assert(am.subrange(0, i + 1).map_values(|a: ExprModel| adjoint_arg(a))
                =~= am.subrange(0, i as int).map_values(|a: ExprModel| adjoint_arg(a)).push(adjoint_arg(am[i as int])));
        }
        i = i + 1;
    }
    proof {
        assert(am.subrange(0, am.len() as int) =~= am);
    }
    let r = InverseOperation {
        expr: PirExpr::Call { name: adjoint_gate, args: inv_args },
        schedule_map: None,
        is_adjoint: true,
        required_ancilla: Vec::new(),
    };
    assert(r@.required =~= Seq::<Seq<char>>::empty());
    Ok(r)
}

/// The uncompute of a measurement: it needs an ancilla to record the outcome.
pub fn generate_measurement_uncompute(name: &str, args: &[PirExpr], stmt_id: StmtId) -> (r: Result<InverseOperation, LoweringError>)
    ensures
        r matches Ok(op) && op@ == measurement_uncompute(exprs_model(args@)),
{
    proof {
        lemma_exprs_model_index_len(args@);
        if args@.len() > 0 {
            lemma_exprs_model_index(args@, 0);
        }
    }
    let qubit = if args.len() > 0 { clone_expr(&args[0]) } else { PirExpr::IntLit(0) };
    let mut call_args: Vec<PirExpr> = Vec::new();
    call_args.push(qubit);
    let mut required: Vec<String> = Vec::new();
    required.push("measurement_ancilla".to_string());
    let r = InverseOperation {
        expr: PirExpr::Call { name: "unmeasure".to_string(), args: call_args },
        schedule_map: None,
        is_adjoint: false,
        required_ancilla: required,
    };
    proof {
        lemma_exprs_model_single(call_args@);
        assert(r@.required =~= seq!["measurement_ancilla"@]);
    }
    Ok(r)
}

/// The uncompute of a random draw: it needs an ancilla holding the entropy.
pub fn generate_rng_uncompute(name: &str, args: &[PirExpr], stmt_id: StmtId) -> (r: Result<InverseOperation, LoweringError>)
    ensures
        r matches Ok(op) && op@ == rng_uncompute(),
{
    let mut required: Vec<String> = Vec::new();
    required.push("rng_ancilla".to_string());
    let r = InverseOperation {
        expr: PirExpr::Call { name: "unrng".to_string(), args: Vec::new() },
        schedule_map: None,
        is_adjoint: false,
        required_ancilla: required,
    };
    proof {
        assert(exprs_model(Seq::<PirExpr>::empty()) =~= Seq::<ExprModel>::empty());
        assert(r@.required =~= seq!["rng_ancilla"@]);
    }
    Ok(r)
}

/// The inverse of an arithmetic operation: `+` and `-` undo each other, as do
/// `*` and `/`; `^` undoes itself; other operators get `+`.
pub fn generate_arithmetic_inverse(op: BinaryOp, left: &PirExpr, right: &PirExpr, stmt_id: StmtId) -> (r: Result<InverseOperation, LoweringError>)
    ensures
        r matches Ok(o) && o@ == arithmetic_inverse(op, left@, right@),
{
    let inv_op = match op {
        BinaryOp::Add => BinaryOp::Sub,
        BinaryOp::Sub => BinaryOp::Add,
        BinaryOp::Mul => BinaryOp::Div,
        BinaryOp::Div => BinaryOp::Mul,
        BinaryOp::Xor => BinaryOp::Xor,
        _ => BinaryOp::Add,
    };
    let r = InverseOperation {
        expr: PirExpr::Binary { op: inv_op, left: Box::new(clone_expr(left)), right: Box::new(clone_expr(right)) },
        schedule_map: None,
        is_adjoint: false,
        required_ancilla: Vec::new(),
    };
    assert(r@.required =~= Seq::<Seq<char>>::empty());
    Ok(r)
}

/// The inverse of a copy `let x = v`: discard the value.
pub fn generate_assignment_inverse(value: &PirExpr, stmt_id: StmtId) -> (r: Result<InverseOperation, LoweringError>)
    ensures
        r matches Ok(o) && o@ == assignment_inverse(value@),
{
    let mut args: Vec<PirExpr> = Vec::new();
    args.push(clone_expr(value));
    let r = InverseOperation {
        expr: PirExpr::Call { name: "discard".to_string(), args },
        schedule_map: None,
        is_adjoint: false,
        required_ancilla: Vec::new(),
    };
    proof {
        lemma_exprs_model_single(args@);
        assert(r@.required =~= Seq::<Seq<char>>::empty());
    }
    Ok(r)
}

/// The inverse of any other expression, through its affine map.
pub fn generate_affine_inverse(expr: &PirExpr, stmt_id: StmtId) -> (r: Result<InverseOperation, LoweringError>)
    ensures
        r matches Ok(o) && o@ == affine_inverse(expr@),
{
    let mut args: Vec<PirExpr> = Vec::new();
    args.push(clone_expr(expr));
    let r = InverseOperation {
        expr: PirExpr::Call { name: "affine_inverse".to_string(), args },
        schedule_map: None,
        is_adjoint: false,
        required_ancilla: Vec::new(),
    };
    proof {
        lemma_exprs_model_single(args@);
        assert(r@.required =~= Seq::<Seq<char>>::empty());
    }
    Ok(r)
}

/// The defining expression of `x` in a statement, if it defines `x`: the
/// value of a top-level `let x`, or the whole allocating call on `x`.
pub open spec fn stmt_def(s: PirStatement, x: Seq<char>) -> Option<ExprModel> {
    match s.body {
        PirExpr::Let { name, value, .. } => if name@ == x { Some((*value)@) } else { None },
        PirExpr::Call { name, args } => if is_alloc_name(name@) && args@.len() > 0 && (args@[0] matches PirExpr::Var(v) && v@ == x) {
            Some(s.body@)
        } else {
            None
        },
        _ => None,
    }
}

/// The defining expression of `x` in the first statement from `k` on that defines it.
pub open spec fn def_site(stmts: Seq<PirStatement>, x: Seq<char>, k: int) -> Option<ExprModel>
    decreases stmts.len() - k,
{
    if k < 0 || k >= stmts.len() {
        None
    } else {
        match stmt_def(stmts[k], x) {
            Some(d) => Some(d),
            None => def_site(stmts, x, k + 1),
        }
    }
}

/// The text of the error for an undefined temporary.
pub open spec fn not_found_message(x: Seq<char>) -> Seq<char> {
    "Temp "@ + x + " not found"@
}

/// The defining expression of a temporary in the statements.
pub fn find_def_expr(temp: &str, stmts: &[PirStatement]) -> (r: Result<PirExpr, LoweringError>)
    ensures
        def_site(stmts@, temp@, 0) matches Some(d) ==> (r matches Ok(e) && e@ == d),
        def_site(stmts@, temp@, 0) is None ==> (r matches Err(LoweringError::Unsupported(msg)) && msg@ == not_found_message(temp@)),
{
    let mut i: usize = 0;
    while i < stmts.len()
        invariant
            i <= stmts@.len(),
            def_site(stmts@, temp@, 0) == def_site(stmts@, temp@, i as int),
        decreases stmts@.len() - i,
    {
        let body = &stmts[i].body;
        match body {
            PirExpr::Let { name, value, .. } => {
                if str_eq(name.as_str(), temp) {
                    return Ok(clone_expr(value));
                }
            },
            PirExpr::Call { name, args } => {
                if str_eq(name.as_str(), "qalloc") || str_eq(name.as_str(), "alloc_qubit") {
                    if args.len() > 0 {
                        match &args[0] {
                            PirExpr::Var(v) => {
                                if str_eq(v.as_str(), temp) {
                                    return Ok(clone_expr(body));
                                }
                            },
                            _ => {},
                        }
                    }
                }
            },
            _ => {},
        }
        i = i + 1;
    }
    let m1 = concat("Temp ", temp);
    let msg = concat(m1.as_str(), " not found");
    Err(LoweringError::Unsupported(msg))
}

/// The names of a list of strings.
pub open spec fn names_of(s: Seq<String>) -> Seq<Seq<char>> {
    s.map_values(|x: String| x@)
}

/// A list of named inverse operations as values.
pub open spec fn ops_view(ops: Seq<(String, InverseOperation)>) -> Seq<(Seq<char>, InvModel)> {
    ops.map_values(|p: (String, InverseOperation)| (p.0@, p.1@))
}

/// The inverse operations for the temporaries of `order` that are not
/// zero-quantity, in that order, each built from the temporary's defining
/// expression; or the first such temporary that no statement defines.
pub open spec fn inverse_plan(m: Seq<NodeModel>, stmts: Seq<PirStatement>, order: Seq<Seq<char>>) -> Result<Seq<(Seq<char>, InvModel)>, Seq<char>>
    decreases order.len(),
{
    if order.len() == 0 {
        Ok(Seq::empty())
    } else {
        match inverse_plan(m, stmts, order.drop_last()) {
            Err(x) => Err(x),
            Ok(ops) => {
                let x = order.last();
                if m[name_index(m, x)].is_zero_qty {
                    Ok(ops)
                } else {
                    match def_site(stmts, x, 0) {
                        Some(d) => Ok(ops.push((x, inverse_of(d)))),
                        None => Err(x),
                    }
                }
            },
        }
    }
}

proof fn lemma_plan_err_extends(m: Seq<NodeModel>, stmts: Seq<PirStatement>, o: Seq<Seq<char>>, i: int, k: int, x: Seq<char>)
    requires
        0 <= i <= k <= o.len(),
        inverse_plan(m, stmts, o.subrange(0, i)) == Err::<Seq<(Seq<char>, InvModel)>, Seq<char>>(x),
    ensures
        inverse_plan(m, stmts, o.subrange(0, k)) == Err::<Seq<(Seq<char>, InvModel)>, Seq<char>>(x),
    decreases k - i,
{
    if k > i {
        lemma_plan_err_extends(m, stmts, o, i, k - 1, x);
        assert(o.subrange(0, k).drop_last() =~= o.subrange(0, k - 1));
    }
}

/// Generates the inverse operation of every temporary in uncompute order,
/// skipping the zero-quantity ones.
fn generate_inverse_operations(dag: &DataflowDAG, topo_order: &[String], ctx: &LoweringContext) -> (r: Result<Vec<(String, InverseOperation)>, LoweringError>)
    requires
        forall|a: int| 0 <= a < topo_order@.len() ==> is_node_name(dag.nodes@, #[trigger] topo_order@[a]@),
    ensures
        inverse_plan(dag.nodes@, ctx.stmt_seq(), names_of(topo_order@)) matches Ok(ps) ==> (r matches Ok(ops) && ops_view(ops@) == ps),
        inverse_plan(dag.nodes@, ctx.stmt_seq(), names_of(topo_order@)) matches Err(x)
            ==> (r matches Err(LoweringError::Unsupported(msg)) && msg@ == not_found_message(x)),
{
    let ghost m = dag.nodes@;
    let ghost stmts = ctx.stmt_seq();
    let ghost o = names_of(topo_order@);
    let mut inverse_ops: Vec<(String, InverseOperation)> = Vec::new();
    assert(o.subrange(0, 0) =~= Seq::<Seq<char>>::empty());
    assert(ops_view(inverse_ops@) =~= Seq::<(Seq<char>, InvModel)>::empty());
    let mut i: usize = 0;
    while i < topo_order.len()
        invariant
            i <= topo_order@.len(),
            m == dag.nodes@,
            stmts == ctx.stmt_seq(),
            o == names_of(topo_order@),
            forall|a: int| 0 <= a < topo_order@.len() ==> is_node_name(m, #[trigger] topo_order@[a]@),
            inverse_plan(m, stmts, o.subrange(0, i as int)) == Ok::<Seq<(Seq<char>, InvModel)>, Seq<char>>(ops_view(inverse_ops@)),
        decreases topo_order@.len() - i,
    {
        let temp_name = &topo_order[i];
        proof {
            assert(is_node_name(m, topo_order@[i as int]@));
            lemma_name_index(m, temp_name@);
            assert(o.subrange(0, i + 1).drop_last() =~= o.subrange(0, i as int));
            assert(o[i as int] == temp_name@);
        }
        let node = dag.nodes.get(temp_name.as_str()).unwrap();
        if node.is_zero_qty {
            i = i + 1;
        } else {
            let found = find_def_expr(node.temp.as_str(), ctx.statements().as_slice());
            match found {
                Err(e) => {
                    proof {
                        lemma_plan_err_extends(m, stmts, o, i + 1, o.len() as int, temp_name@);
                        assert(o.subrange(0, o.len() as int) =~= o);
                    }
                    return Err(e);
                },
                Ok(def_expr) => {
                    let inv_op = match &def_expr {
                        PirExpr::Call { name, args } => {
                            if is_quantum_gate(name.as_str()) {
                                generate_quantum_adjoint(name.as_str(), args.as_slice(), node.def_stmt)
                            } else if is_measurement(name.as_str()) {
                                generate_measurement_uncompute(name.as_str(), args.as_slice(), node.def_stmt)
                            } else if is_rng(name.as_str()) {
                                generate_rng_uncompute(name.as_str(), args.as_slice(), node.def_stmt)
                            } else {
                                generate_affine_inverse(&def_expr, node.def_stmt)
                            }
                        },
                        PirExpr::Binary { op, left, right } => generate_arithmetic_inverse(*op, left, right, node.def_stmt),
                        PirExpr::Let { value, .. } => generate_assignment_inverse(value, node.def_stmt),
                        _ => generate_affine_inverse(&def_expr, node.def_stmt),
                    };
                    match inv_op {
                        Ok(op) => {
                            let ghost before = inverse_ops@;
                            inverse_ops.push((temp_name.clone(), op));
                            proof {
                                assert(ops_view(inverse_ops@) =~= ops_view(before).push((temp_name@, inverse_ops@.last().1@)));
                            }
                        },
                        Err(e) => {
                            return Err(e);
                        },
                    }
                    i = i + 1;
                },
            }
        }
    }
    proof {
        assert(o.subrange(0, o.len() as int) =~= o);
    }
    Ok(inverse_ops)
}

/// An ancilla requirement as a value.
pub struct ReqModel {
    pub name: Seq<char>,
    pub allocated_at: usize,
    pub zeroed_at: Option<usize>,
    pub is_quantum: bool,
}

impl View for AncillaRequirement {
    type V = ReqModel;

    open spec fn view(&self) -> ReqModel {
        ReqModel {
            name: self.name@,
            allocated_at: self.allocated_at.0,
            zeroed_at: match self.zeroed_at {
                Some(s) => Some(s.0),
                None => None,
            },
            is_quantum: self.is_quantum,
        }
    }
}

/// Requirements as values.
pub open spec fn reqs_view(rs: Seq<AncillaRequirement>) -> Seq<ReqModel> {
    rs.map_values(|r: AncillaRequirement| r@)
}

/// Number of ancillas the operations ask for.
pub open spec fn required_count(ops: Seq<(Seq<char>, InvModel)>) -> nat
    decreases ops.len(),
{
    if ops.len() == 0 {
        0
    } else {
        required_count(ops.drop_last()) + ops.last().1.required.len()
    }
}

/// The requirements of one operation: each ancilla it asks for, numbered
/// from `c` on, then the temporary itself where it is an ancilla qubit.
pub open spec fn reqs_for(m: Seq<NodeModel>, x: Seq<char>, inv: InvModel, c: nat) -> Seq<ReqModel> {
    let node = m[name_index(m, x)];
    Seq::new(inv.required.len(), |k: int| ReqModel {
        name: inv.required[k] + "_"@ + decimal((c + k) as nat),
        allocated_at: node.def_stmt,
        zeroed_at: None,
        is_quantum: inv.is_adjoint,
    }) + if node.is_ancilla {
        seq![ReqModel { name: x, allocated_at: node.def_stmt, zeroed_at: None, is_quantum: true }]
    } else {
        Seq::empty()
    }
}

/// The requirements of all operations, in order.
pub open spec fn ancilla_plan(m: Seq<NodeModel>, ops: Seq<(Seq<char>, InvModel)>) -> Seq<ReqModel>
    decreases ops.len(),
{
    if ops.len() == 0 {
        Seq::empty()
    } else {
        ancilla_plan(m, ops.drop_last()) + reqs_for(m, ops.last().0, ops.last().1, required_count(ops.drop_last()))
    }
}

/// The first quantum requirement from `k` on that cannot be zeroed, as the
/// text of the error: its name is no temporary, or its temporary has no
/// inverse operation.
pub open spec fn zeroing_failure(m: Seq<NodeModel>, reqs: Seq<ReqModel>, k: int) -> Option<Seq<char>>
    decreases reqs.len() - k,
{
    if k < 0 || k >= reqs.len() {
        None
    } else if reqs[k].is_quantum && name_index(m, reqs[k].name) < 0 {
        Some("Quantum ancilla "@ + reqs[k].name + " not found in DAG"@)
    } else if reqs[k].is_quantum && !m[name_index(m, reqs[k].name)].has_inverse {
        Some("No inverse operation for quantum ancilla "@ + reqs[k].name)
    } else {
        zeroing_failure(m, reqs, k + 1)
    }
}

/// Checks that every quantum ancilla can be returned to zero.
fn verify_ancilla_zeroing(requirements: &Vec<AncillaRequirement>, dag: &DataflowDAG) -> (r: Result<(), LoweringError>)
    ensures
        zeroing_failure(dag.nodes@, reqs_view(requirements@), 0) is None ==> r is Ok,
        zeroing_failure(dag.nodes@, reqs_view(requirements@), 0) matches Some(t)
            ==> (r matches Err(LoweringError::NonReversibleOp(msg)) && msg@ == t),
{
    let ghost rv = reqs_view(requirements@);
    let mut i: usize = 0;
    while i < requirements.len()
        invariant
            i <= requirements@.len(),
            rv == reqs_view(requirements@),
            zeroing_failure(dag.nodes@, rv, 0) == zeroing_failure(dag.nodes@, rv, i as int),
        decreases requirements@.len() - i,
    {
        let req = &requirements[i];
        assert(rv[i as int] == req@);
        if req.is_quantum {
            match dag.nodes.get(req.name.as_str()) {
                None => {
                    let m1 = concat("Quantum ancilla ", req.name.as_str());
                    let msg = concat(m1.as_str(), " not found in DAG");
                    return Err(LoweringError::NonReversibleOp(msg));
                },
                Some(node) => {
                    proof {
                        lemma_name_index(dag.nodes@, req.name@);
                        assert(name_index(dag.nodes@, rv[i as int].name) >= 0);
                        assert(node@.has_inverse == dag.nodes@[name_index(dag.nodes@, rv[i as int].name)].has_inverse);
                    }
                    if node.inverse_op.is_none() {
                        assert(zeroing_failure(dag.nodes@, rv, i as int) == Some("No inverse operation for quantum ancilla "@ + req.name@));
                        let msg = concat("No inverse operation for quantum ancilla ", req.name.as_str());
                        return Err(LoweringError::NonReversibleOp(msg));
                    }
                },
            }
        }
        i = i + 1;
    }
    Ok(())
}

/// Lists the ancillas that the inverse operations need, numbered in order,
/// with the ancilla qubits among the temporaries, and checks that each
/// quantum ancilla can be zeroed.
fn allocate_ancilla_and_verify(dag: &DataflowDAG, inverse_ops: &Vec<(String, InverseOperation)>) -> (r: Result<Vec<AncillaRequirement>, LoweringError>)
    requires
        forall|a: int| 0 <= a < inverse_ops@.len() ==> is_node_name(dag.nodes@, #[trigger] inverse_ops@[a].0@),
        required_count(ops_view(inverse_ops@)) <= usize::MAX,
    ensures
        zeroing_failure(dag.nodes@, ancilla_plan(dag.nodes@, ops_view(inverse_ops@)), 0) is None
            ==> (r matches Ok(reqs) && reqs_view(reqs@) == ancilla_plan(dag.nodes@, ops_view(inverse_ops@))),
        zeroing_failure(dag.nodes@, ancilla_plan(dag.nodes@, ops_view(inverse_ops@)), 0) matches Some(t)
            ==> (r matches Err(LoweringError::NonReversibleOp(msg)) && msg@ == t),
{
    let ghost m = dag.nodes@;
    let ghost ov = ops_view(inverse_ops@);
    let mut requirements: Vec<AncillaRequirement> = Vec::new();
    let mut counter: usize = 0;
    let mut i: usize = 0;
    while i < inverse_ops.len()
        invariant
            i <= inverse_ops@.len(),
            m == dag.nodes@,
            ov == ops_view(inverse_ops@),
            forall|a: int| 0 <= a < inverse_ops@.len() ==> is_node_name(m, #[trigger] inverse_ops@[a].0@),
            required_count(ov) <= usize::MAX,
            counter == required_count(ov.subrange(0, i as int)),
            reqs_view(requirements@) == ancilla_plan(m, ov.subrange(0, i as int)),
        decreases inverse_ops@.len() - i,
    {
        let temp = &inverse_ops[i].0;
        let inv_op = &inverse_ops[i].1;
        proof {
            assert(is_node_name(m, inverse_ops@[i as int].0@));
            lemma_name_index(m, temp@);
            lemma_required_count_prefix(ov, i as int + 1);
            assert(ov.subrange(0, i + 1).drop_last() =~= ov.subrange(0, i as int));
            assert(ov[i as int] == (temp@, inv_op@));
        }
        let node = dag.nodes.get(temp.as_str()).unwrap();
        let ghost r0 = reqs_view(requirements@);
        let ghost c0 = counter as nat;
        let mut k: usize = 0;
        while k < inv_op.required_ancilla.len()
            invariant
                k <= inv_op.required_ancilla@.len(),
                m == dag.nodes@,
                node@ == m[name_index(m, temp@)],
                counter == c0 + k,
                c0 + inv_op@.required.len() <= usize::MAX,
                reqs_view(requirements@) == r0 + Seq::new(k as nat, |j: int| ReqModel {
                    name: inv_op@.required[j] + "_"@ + decimal((c0 + j) as nat),
                    allocated_at: node@.def_stmt,
                    zeroed_at: None,
                    is_quantum: inv_op@.is_adjoint,
                }),
            decreases inv_op.required_ancilla@.len() - k,
        {
            let a1 = concat(inv_op.required_ancilla[k].as_str(), "_");
            let digits = u64_to_decimal(counter as u64);
            let name = concat(a1.as_str(), digits.as_str());
            let req = AncillaRequirement { name, allocated_at: node.def_stmt, zeroed_at: None, is_quantum: inv_op.is_adjoint };
            let ghost before = requirements@;
            requirements.push(req);
            proof {
                assert(inv_op@.required[k as int] == inv_op.required_ancilla@[k as int]@);
                assert(reqs_view(requirements@) =~= reqs_view(before).push(req@));
                assert(r0 + Seq::new((k + 1) as nat, |j: int| ReqModel {
                    name: inv_op@.required[j] + "_"@ + decimal((c0 + j) as nat),
                    allocated_at: node@.def_stmt,
                    zeroed_at: None,
                    is_quantum: inv_op@.is_adjoint,
                }) =~= reqs_view(requirements@));
            }
            counter = counter + 1;
            k = k + 1;
        }
        if node.is_ancilla {
            let req = AncillaRequirement { name: temp.clone(), allocated_at: node.def_stmt, zeroed_at: None, is_quantum: true };
            let ghost before = requirements@;
            requirements.push(req);
            proof {
                assert(reqs_view(requirements@) =~= reqs_view(before).push(req@));
            }
        }
        proof {
            let sv = ancilla_plan(m, ov.subrange(0, i + 1));
            assert(reqs_view(requirements@) =~= sv);
        }
        i = i + 1;
    }
    proof {
        assert(ov.subrange(0, ov.len() as int) =~= ov);
    }
    match verify_ancilla_zeroing(&requirements, dag) {
        Ok(()) => Ok(requirements),
        Err(e) => Err(e),
    }
}

proof fn lemma_required_count_prefix(ops: Seq<(Seq<char>, InvModel)>, i: int)
    requires
        0 <= i <= ops.len(),
    ensures
        required_count(ops.subrange(0, i)) <= required_count(ops),
    decreases ops.len() - i,
{
    if i < ops.len() {
        lemma_required_count_prefix(ops, i + 1);
        assert(ops.subrange(0, i + 1).drop_last() =~= ops.subrange(0, i));
    } else {
        assert(ops.subrange(0, i) =~= ops);
    }
}

/// The domain of a scalar statement: no dimensions, no constraints.
pub open spec fn scalar_domain() -> DomainModel {
    DomainModel { dims: 0, n_iter: 0, n_param: 0, constraints: Seq::empty(), name: None }
}

/// Some operation is for `x`.
pub open spec fn has_op(ops: Seq<(Seq<char>, InvModel)>, x: Seq<char>) -> bool {
    exists|k: int| 0 <= k < ops.len() && (#[trigger] ops[k]).0 == x
}

/// Number of uncompute steps: the temporaries of `order` that have an
/// operation and are not erased.
pub open spec fn inverse_steps(order: Seq<Seq<char>>, ops: Seq<(Seq<char>, InvModel)>, zero: Set<Seq<char>>) -> nat
    decreases order.len(),
{
    if order.len() == 0 {
        0
    } else {
        inverse_steps(order.drop_last(), ops, zero) + if has_op(ops, order.last()) && !zero.contains(order.last()) {
            1nat
        } else {
            0nat
        }
    }
}

/// Number of quantum ancillas.
pub open spec fn quantum_count(reqs: Seq<ReqModel>) -> nat
    decreases reqs.len(),
{
    if reqs.len() == 0 {
        0
    } else {
        quantum_count(reqs.drop_last()) + if reqs.last().is_quantum { 1nat } else { 0nat }
    }
}

/// Domain leaves numbered `start`, `start + 1`, ..., each over the scalar domain.
pub open spec fn scalar_leaves(start: int, k: nat) -> Seq<(usize, DomainModel)> {
    Seq::new(k, |j: int| ((start + j) as usize, scalar_domain()))
}

/// The domain leaves of a forward schedule: one per statement, in order.
pub open spec fn stmt_leaves(stmts: Seq<PirStatement>) -> Seq<(usize, DomainModel)> {
    stmts.map_values(|s: PirStatement| (s.id.0, s.domain@))
}

/// Whether an operation is for this name.
fn has_inverse_op(ops: &Vec<(String, InverseOperation)>, name: &str) -> (r: bool)
    ensures
        r == has_op(ops_view(ops@), name@),
{
    let ghost ov = ops_view(ops@);
    let mut k: usize = 0;
    while k < ops.len()
        invariant
            k <= ops@.len(),
            ov == ops_view(ops@),
            forall|j: int| 0 <= j < k ==> (#[trigger] ov[j]).0 != name@,
        decreases ops@.len() - k,
    {
        if str_eq(ops[k].0.as_str(), name) {
            assert(ov[k as int].0 == name@);
            return true;
        }
        k = k + 1;
    }
    false
}

/// A one-member band over the leaf of statement `id` with domain `d`: its
/// scheduling map is `mm` over `d`, and it is not marked coincident.
pub open spec fn is_step_band(n: ScheduleNode, id: usize, d: DomainModel, mm: MatrixModel) -> bool {
    &&& n matches ScheduleNode::Band { members, coincident, child } && {
        &&& maps_view(members@) == seq![seq![PieceModel { domain: d, matrix: mm }]]
        &&& coincident@ == seq![false]
        &&& *child matches ScheduleNode::Domain { stmt_id, domain } && stmt_id.0 == id && domain@ == d
    }
}

/// The scheduling map of a forward step: one row over the statement's
/// dimensions, `1` on the first dimension where there is one, no translation.
pub open spec fn forward_map(d: DomainModel) -> MatrixModel {
    let z = zero_model(1, d.dims);
    if d.dims > 0 {
        MatrixModel { data: z.data.update(0, 1), ..z }
    } else {
        z
    }
}

/// The steps that a schedule root stands for: none when it is empty, the
/// children of a sequence, or else the root itself.
pub open spec fn root_steps(root: ScheduleNode) -> Seq<ScheduleNode> {
    match root {
        ScheduleNode::Empty => Seq::empty(),
        ScheduleNode::Sequence { children } => children@,
        _ => seq![root],
    }
}

/// `k` steps as one tree: empty for none, the step itself for one, a
/// sequence of them for more.
pub open spec fn steps_shape(root: ScheduleNode, k: nat) -> bool {
    &&& (root is Empty <==> k == 0)
    &&& (root is Sequence <==> k >= 2)
    &&& root_steps(root).len() == k
}

/// The forward tree of the statements: step `i` is a band over statement
/// `i`'s domain whose map is `forward_map` of it.
pub open spec fn forward_tree(root: ScheduleNode, stmts: Seq<PirStatement>) -> bool {
    &&& steps_shape(root, stmts.len())
    &&& forall|i: int| 0 <= i < stmts.len() ==> is_step_band(
        #[trigger] root_steps(root)[i],
        stmts[i].id.0,
        stmts[i].domain@,
        forward_map(stmts[i].domain@),
    )
}

/// The inverse tree of `k` steps numbered from `start`: step `i` is a band
/// over the scalar domain of statement `start + i`, with the zero map.
pub open spec fn inverse_tree(root: ScheduleNode, start: int, k: nat) -> bool {
    &&& steps_shape(root, k)
    &&& forall|i: int| 0 <= i < k ==> is_step_band(
        #[trigger] root_steps(root)[i],
        (start + i) as usize,
        scalar_domain(),
        zero_model(1, 0),
    )
}

/// One uncompute step: a single-member band over the scalar domain, whose
/// leaf is the step's statement.
fn step_band(id: usize) -> (r: ScheduleNode)
    ensures
        domains_of(r) == seq![(id, scalar_domain())],
        r is Band,
        is_step_band(r, id, scalar_domain(), zero_model(1, 0)),
{
    let domain = AffineDomain::universe(0, 0);
    let m = Matrix::new(1, 0);
    let map = AffineMap::total(domain.clone(), m);
    let mut members: Vec<AffineMap> = Vec::new();
    members.push(map);
    let mut coincident: Vec<bool> = Vec::new();
    coincident.push(false);
    proof {
        assert(domain@.constraints =~= Seq::<ConstraintModel>::empty());
        assert(domain@ == scalar_domain());
        assert(maps_view(members@) =~= seq![seq![PieceModel { domain: scalar_domain(), matrix: zero_model(1, 0) }]]);
        assert(coincident@ =~= seq![false]);
    }
    let leaf = ScheduleNode::domain(StmtId(id), domain);
    assert(domains_of(leaf) == seq![(id, scalar_domain())]);
    let b = ScheduleNode::band(members, coincident, leaf);
    assert(domains_of(b) == domains_of(leaf));
    b
}

/// A list of steps as one tree: nothing, the single step, or a sequence.
fn assemble(nodes: Vec<ScheduleNode>) -> (r: ScheduleNode)
    requires
        forall|i: int| 0 <= i < nodes@.len() ==> (#[trigger] nodes@[i]) is Band,
    ensures
        domains_of(r) == domains_of_all(nodes@),
        r is Empty <==> nodes@.len() == 0,
        r is Sequence <==> nodes@.len() >= 2,
        root_steps(r) == nodes@,
{
    if nodes.len() == 0 {
        ScheduleNode::Empty
    } else if nodes.len() == 1 {
        let mut v = nodes;
        let ghost v0 = v@;
        let n = v.pop().unwrap();
        proof {
            assert(v0.drop_last() =~= Seq::<ScheduleNode>::empty());
            assert(domains_of_all(Seq::<ScheduleNode>::empty()) =~= Seq::<(usize, DomainModel)>::empty());
            assert(domains_of_all(v0) =~= domains_of(n));
            assert(v0[0] is Band);
            assert(root_steps(n) =~= v0);
        }
        n
    } else {
        ScheduleNode::sequence(nodes)
    }
}

proof fn lemma_domains_push(nodes: Seq<ScheduleNode>, n: ScheduleNode)
    ensures
        domains_of_all(nodes.push(n)) == domains_of_all(nodes) + domains_of(n),
{
    assert(nodes.push(n).drop_last() =~= nodes);
}

/// The inverse schedule: one step per temporary of the uncompute order that
/// has an operation and is not erased, then one per quantum ancilla to
/// deallocate; the steps are numbered after the lowered statements.
fn build_inverse_schedule(
    dag: &DataflowDAG,
    topo_order: &[String],
    inverse_ops: &Vec<(String, InverseOperation)>,
    ancilla_reqs: &Vec<AncillaRequirement>,
    ctx: &LoweringContext,
) -> (r: ScheduleTree)
    requires
        ctx.stmt_seq().len() + topo_order@.len() + ancilla_reqs@.len() <= usize::MAX,
    ensures
        r.parameters@ == ctx.params(),
        domains_of(r.root) == scalar_leaves(
            ctx.stmt_seq().len() as int,
            inverse_steps(names_of(topo_order@), ops_view(inverse_ops@), dag.zero_qty_temps@)
                + quantum_count(reqs_view(ancilla_reqs@)),
        ),
        r.root is Empty <==> inverse_steps(names_of(topo_order@), ops_view(inverse_ops@), dag.zero_qty_temps@)
            + quantum_count(reqs_view(ancilla_reqs@)) == 0,
        inverse_tree(
            r.root,
            ctx.stmt_seq().len() as int,
            inverse_steps(names_of(topo_order@), ops_view(inverse_ops@), dag.zero_qty_temps@)
                + quantum_count(reqs_view(ancilla_reqs@)),
        ),
{
    let ghost o = names_of(topo_order@);
    let ghost ov = ops_view(inverse_ops@);
    let ghost zero = dag.zero_qty_temps@;
    let ghost rv = reqs_view(ancilla_reqs@);
    let start = ctx.statements().len();
    let mut inverse_nodes: Vec<ScheduleNode> = Vec::new();
    let mut stmt_id_counter: usize = start;
    let mut i: usize = 0;
    assert(o.subrange(0, 0) =~= Seq::<Seq<char>>::empty());
    assert(domains_of_all(inverse_nodes@) =~= scalar_leaves(start as int, 0));
    while i < topo_order.len()
        invariant
            i <= topo_order@.len(),
            start == ctx.stmt_seq().len(),
            start + topo_order@.len() + ancilla_reqs@.len() <= usize::MAX,
            o == names_of(topo_order@),
            ov == ops_view(inverse_ops@),
            zero == dag.zero_qty_temps@,
            inverse_steps(o.subrange(0, i as int), ov, zero) <= i,
            stmt_id_counter == start + inverse_steps(o.subrange(0, i as int), ov, zero),
            inverse_nodes@.len() == inverse_steps(o.subrange(0, i as int), ov, zero),
            domains_of_all(inverse_nodes@) == scalar_leaves(start as int, inverse_steps(o.subrange(0, i as int), ov, zero)),
            forall|j: int| 0 <= j < inverse_nodes@.len() ==> (#[trigger] inverse_nodes@[j]) is Band,
            forall|j: int| 0 <= j < inverse_nodes@.len() ==> is_step_band(
                #[trigger] inverse_nodes@[j],
                (start + j) as usize,
                scalar_domain(),
                zero_model(1, 0),
            ),
        decreases topo_order@.len() - i,
    {
        let temp_name = &topo_order[i];
        proof {
            assert(o.subrange(0, i + 1).drop_last() =~= o.subrange(0, i as int));
            assert(o[i as int] == temp_name@);
        }
        let ghost c0 = inverse_steps(o.subrange(0, i as int), ov, zero);
        if has_inverse_op(inverse_ops, temp_name.as_str()) && !dag.zero_qty_temps.contains(temp_name.as_str()) {
            let b = step_band(stmt_id_counter);
            let ghost before = inverse_nodes@;
            inverse_nodes.push(b);
            proof {
                lemma_domains_push(before, b);
                assert(domains_of_all(inverse_nodes@) =~= scalar_leaves(start as int, c0 + 1));
            }
            stmt_id_counter = stmt_id_counter + 1;
        }
        i = i + 1;
    }
    proof {
        assert(o.subrange(0, o.len() as int) =~= o);
    }
    let ghost steps = inverse_steps(o, ov, zero);
    let mut k: usize = 0;
    assert(rv.subrange(0, 0) =~= Seq::<ReqModel>::empty());
    while k < ancilla_reqs.len()
        invariant
            k <= ancilla_reqs@.len(),
            start == ctx.stmt_seq().len(),
            steps <= topo_order@.len(),
            start + topo_order@.len() + ancilla_reqs@.len() <= usize::MAX,
            rv == reqs_view(ancilla_reqs@),
            quantum_count(rv.subrange(0, k as int)) <= k,
            stmt_id_counter == start + steps + quantum_count(rv.subrange(0, k as int)),
            inverse_nodes@.len() == steps + quantum_count(rv.subrange(0, k as int)),
            domains_of_all(inverse_nodes@) == scalar_leaves(start as int, steps + quantum_count(rv.subrange(0, k as int))),
            forall|j: int| 0 <= j < inverse_nodes@.len() ==> (#[trigger] inverse_nodes@[j]) is Band,
            forall|j: int| 0 <= j < inverse_nodes@.len() ==> is_step_band(
                #[trigger] inverse_nodes@[j],
                (start + j) as usize,
                scalar_domain(),
                zero_model(1, 0),
            ),
        decreases ancilla_reqs@.len() - k,
    {
        proof {
            assert(rv.subrange(0, k + 1).drop_last() =~= rv.subrange(0, k as int));
            assert(rv[k as int] == ancilla_reqs@[k as int]@);
        }
        let ghost c0 = steps + quantum_count(rv.subrange(0, k as int));
        if ancilla_reqs[k].is_quantum {
            let b = step_band(stmt_id_counter);
            let ghost before = inverse_nodes@;
            inverse_nodes.push(b);
            proof {
                lemma_domains_push(before, b);
                assert(domains_of_all(inverse_nodes@) =~= scalar_leaves(start as int, c0 + 1));
            }
            stmt_id_counter = stmt_id_counter + 1;
        }
        k = k + 1;
    }
    proof {
        assert(rv.subrange(0, rv.len() as int) =~= rv);
    }
    let ghost nodes = inverse_nodes@;
    let root = assemble(inverse_nodes);
    assert(root_steps(root) == nodes);
    ScheduleTree::new(root, copy_strings(&ctx.param_names))
}

/// The forward schedule: one single-member band per statement, in order.
fn build_forward_schedule(stmts: &[PirStatement], ctx: &LoweringContext) -> (r: ScheduleTree)
    requires
        forall|i: int| 0 <= i < stmts@.len() ==> (#[trigger] stmts@[i]).domain.n_param == 0,
    ensures
        r.parameters@ == ctx.params(),
        domains_of(r.root) == stmt_leaves(stmts@),
        r.root is Empty <==> stmts@.len() == 0,
        forward_tree(r.root, stmts@),
{
    let mut nodes: Vec<ScheduleNode> = Vec::new();
    let mut i: usize = 0;
    assert(stmt_leaves(stmts@.subrange(0, 0)) =~= Seq::<(usize, DomainModel)>::empty());
    while i < stmts.len()
        invariant
            i <= stmts@.len(),
            forall|j: int| 0 <= j < stmts@.len() ==> (#[trigger] stmts@[j]).domain.n_param == 0,
            nodes@.len() == i,
            domains_of_all(nodes@) == stmt_leaves(stmts@.subrange(0, i as int)),
            forall|j: int| 0 <= j < nodes@.len() ==> (#[trigger] nodes@[j]) is Band,
            forall|j: int| 0 <= j < nodes@.len() ==> is_step_band(
                #[trigger] nodes@[j],
                stmts@[j].id.0,
                stmts@[j].domain@,
                forward_map(stmts@[j].domain@),
            ),
        decreases stmts@.len() - i,
    {
        let stmt = &stmts[i];
        let domain = stmt.domain.clone();
        let mut m = Matrix::new(1, domain.dims + domain.n_param);
        if domain.dims > 0 {
            m.set(0, 0, 1);
        }
        assert(m@ == forward_map(stmt.domain@));
        let map = AffineMap::total(domain.clone(), m);
        let mut members: Vec<AffineMap> = Vec::new();
        members.push(map);
        let mut coincident: Vec<bool> = Vec::new();
        coincident.push(false);
        proof {
            assert(maps_view(members@) =~= seq![seq![PieceModel { domain: stmt.domain@, matrix: forward_map(stmt.domain@) }]]);
            assert(coincident@ =~= seq![false]);
        }
        let leaf = ScheduleNode::domain(stmt.id, domain);
        assert(domains_of(leaf) == seq![(stmt.id.0, stmt.domain@)]);
        let b = ScheduleNode::band(members, coincident, leaf);
        assert(domains_of(b) == domains_of(leaf));
        let ghost before = nodes@;
        nodes.push(b);
        proof {
            lemma_domains_push(before, b);
            assert(stmt_leaves(stmts@.subrange(0, i + 1)) =~= stmt_leaves(stmts@.subrange(0, i as int)).push((stmt.id.0, stmt.domain@)));
        }
        i = i + 1;
    }
    proof {
        assert(stmts@.subrange(0, stmts@.len() as int) =~= stmts@);
    }
    let ghost all = nodes@;
    let root = assemble(nodes);
    assert(root_steps(root) == all);
    ScheduleTree::new(root, copy_strings(&ctx.param_names))
}

/// An uncompute order has no more names than the DAG has nodes.
proof fn lemma_order_len(m: Seq<NodeModel>, o: Seq<Seq<char>>)
    requires
        is_uncompute_order(m, o),
    ensures
        o.len() <= m.len(),
{
    let names = m.map_values(|n: NodeModel| n.temp);
    assert forall|x: Seq<char>| o.to_set().contains(x) implies names.to_set().contains(x) by {
        let a = choose|a: int| 0 <= a < o.len() && o[a] == x;
        assert(is_node_name(m, o[a]));
        let i = choose|i: int| 0 <= i < m.len() && (#[trigger] m[i]).temp == o[a];
        assert(names[i] == x);
    }
    o.unique_seq_to_set();
    names.lemma_cardinality_of_set();
    vstd::set_lib::lemma_len_subset(o.to_set(), names.to_set());
}

/// What a successful plan holds: no more operations than names, each for a
/// name of the order, each asking for at most one ancilla.
proof fn lemma_plan_shape(m: Seq<NodeModel>, stmts: Seq<PirStatement>, o: Seq<Seq<char>>)
    requires
        inverse_plan(m, stmts, o) is Ok,
    ensures
        inverse_plan(m, stmts, o)->Ok_0.len() <= o.len(),
        forall|k: int| 0 <= k < inverse_plan(m, stmts, o)->Ok_0.len()
            ==> exists|a: int| 0 <= a < o.len() && o[a] == (#[trigger] inverse_plan(m, stmts, o)->Ok_0[k]).0,
        forall|k: int| 0 <= k < inverse_plan(m, stmts, o)->Ok_0.len()
            ==> (#[trigger] inverse_plan(m, stmts, o)->Ok_0[k]).1.required.len() <= 1,
    decreases o.len(),
{
    if o.len() > 0 {
        let d = o.drop_last();
        lemma_plan_shape(m, stmts, d);
        let ops0 = inverse_plan(m, stmts, d)->Ok_0;
        let ops = inverse_plan(m, stmts, o)->Ok_0;
        assert forall|k: int| 0 <= k < ops.len() implies exists|a: int| 0 <= a < o.len() && o[a] == (#[trigger] ops[k]).0 by {
            if k < ops0.len() {
                assert(ops[k] == ops0[k]);
                let a = choose|a: int| 0 <= a < d.len() && d[a] == ops0[k].0;
                assert(o[a] == d[a]);
            } else {
                assert(o[o.len() - 1] == ops[k].0);
            }
        }
        assert forall|k: int| 0 <= k < ops.len() implies (#[trigger] ops[k]).1.required.len() <= 1 by {
            if k < ops0.len() {
                assert(ops[k] == ops0[k]);
            }
        }
    }
}

proof fn lemma_required_count_bound(ops: Seq<(Seq<char>, InvModel)>)
    requires
        forall|k: int| 0 <= k < ops.len() ==> (#[trigger] ops[k]).1.required.len() <= 1,
    ensures
        required_count(ops) <= ops.len(),
    decreases ops.len(),
{
    if ops.len() > 0 {
        let d = ops.drop_last();
        assert forall|k: int| 0 <= k < d.len() implies (#[trigger] d[k]).1.required.len() <= 1 by {
            assert(d[k] == ops[k]);
        }
        lemma_required_count_bound(d);
    }
}

proof fn lemma_ancilla_plan_len(m: Seq<NodeModel>, ops: Seq<(Seq<char>, InvModel)>)
    ensures
        ancilla_plan(m, ops).len() <= required_count(ops) + ops.len(),
    decreases ops.len(),
{
    if ops.len() > 0 {
        lemma_ancilla_plan_len(m, ops.drop_last());
    }
}

/// Forward and inverse schedules of a reversible block.
#[derive(Debug)]
pub struct ReversibleSchedulePair {
    pub forward: ScheduleTree,
    pub inverse: ScheduleTree,
    /// Ancillas that must be zeroed at the end.
    pub ancilla_requirements: Vec<AncillaRequirement>,
    /// Zero-quantity (proof-only) temporaries that were erased.
    pub erased_temps: NameSet,
}

/// The DAG of the statements lowered so far.
pub open spec fn block_dag(stmts: Seq<PirStatement>) -> Seq<NodeModel> {
    dag_of(Seq::empty(), stmts)
}

/// What a successful lowering returns, for the uncompute order `o` it chose:
/// the inverse operations of `o`'s plan, whose ancillas all can be zeroed;
/// a forward step per statement; an inverse step per uncomputed temporary
/// and per quantum ancilla, numbered after the statements; and the erased names.
pub open spec fn lowered_with_order(
    stmts: Seq<PirStatement>,
    q: Seq<(Seq<char>, Quantity)>,
    params: Seq<String>,
    o: Seq<Seq<char>>,
    pair: ReversibleSchedulePair,
) -> bool {
    let m = block_dag(stmts);
    &&& is_uncompute_order(m, o)
    &&& inverse_plan(m, stmts, o) is Ok
    &&& zeroing_failure(m, ancilla_plan(m, inverse_plan(m, stmts, o)->Ok_0), 0) is None
    &&& reqs_view(pair.ancilla_requirements@) == ancilla_plan(m, inverse_plan(m, stmts, o)->Ok_0)
    &&& domains_of(pair.forward.root) == stmt_leaves(stmts)
    &&& (pair.forward.root is Empty <==> stmts.len() == 0)
    &&& domains_of(pair.inverse.root) == scalar_leaves(
        stmts.len() as int,
        inverse_steps(o, inverse_plan(m, stmts, o)->Ok_0, zero_names(q))
            + quantum_count(ancilla_plan(m, inverse_plan(m, stmts, o)->Ok_0)),
    )
    &&& forward_tree(pair.forward.root, stmts)
    &&& inverse_tree(
        pair.inverse.root,
        stmts.len() as int,
        inverse_steps(o, inverse_plan(m, stmts, o)->Ok_0, zero_names(q))
            + quantum_count(ancilla_plan(m, inverse_plan(m, stmts, o)->Ok_0)),
    )
    &&& pair.forward.parameters@ == params
    &&& pair.inverse.parameters@ == params
    &&& pair.erased_temps@ == zero_names(q)
}

/// Why a lowering fails, for the uncompute order `o` it chose: a temporary
/// with no defining statement, or an ancilla that cannot be zeroed.
pub open spec fn failed_with_order(stmts: Seq<PirStatement>, o: Seq<Seq<char>>, e: LoweringError) -> bool {
    let m = block_dag(stmts);
    &&& is_uncompute_order(m, o)
    &&& match inverse_plan(m, stmts, o) {
        Err(x) => e matches LoweringError::Unsupported(msg) && msg@ == not_found_message(x),
        Ok(ops) => zeroing_failure(m, ancilla_plan(m, ops), 0) matches Some(t)
            && e matches LoweringError::NonReversibleOp(msg) && msg@ == t,
    }
}

/// The outcome of reversible lowering over the statements of a context:
/// a cycle among the temporaries is refused; a success chose an uncompute
/// order and lowered with it; a failure has no order or failed with the one
/// it chose; and success comes exactly when there is an order and every
/// temporary can be uncomputed.
pub open spec fn reversible_outcome(ctx: LoweringContext, r: Result<ReversibleSchedulePair, LoweringError>) -> bool {
    let stmts = ctx.stmt_seq();
    let m = block_dag(stmts);
    &&& (forall|o: Seq<Seq<char>>| !is_uncompute_order(m, o))
        ==> (r matches Err(LoweringError::NonReversibleOp(msg)) && msg@ == cycle_message())
    &&& (r matches Ok(pair) ==> exists|o: Seq<Seq<char>>| lowered_with_order(stmts, ctx.qty_view(), ctx.params(), o, pair))
    &&& (r matches Err(e) ==> (forall|o: Seq<Seq<char>>| !is_uncompute_order(m, o))
        || exists|o: Seq<Seq<char>>| failed_with_order(stmts, o, e))
    &&& (r is Ok <==> (exists|o: Seq<Seq<char>>| is_uncompute_order(m, o)) && temps_uncomputable(m, stmts))
}

/// Reversible lowering of the statements lowered so far: builds the dataflow
/// DAG of their temporaries, orders it for uncomputation (failing on a
/// cycle), generates each temporary's inverse operation, lists and checks the
/// ancillas, and builds the forward and inverse schedules.
pub fn lower_reversible_statements(ctx: &LoweringContext) -> (r: Result<ReversibleSchedulePair, LoweringError>)
    requires
        forall|i: int| 0 <= i < ctx.stmt_seq().len() ==> (#[trigger] ctx.stmt_seq()[i]).domain.n_param == 0,
        ctx.stmt_seq().len() + 3 * block_dag(ctx.stmt_seq()).len() <= usize::MAX,
    ensures
        (forall|o: Seq<Seq<char>>| !is_uncompute_order(block_dag(ctx.stmt_seq()), o))
            ==> (r matches Err(LoweringError::NonReversibleOp(msg)) && msg@ == cycle_message()),
        r matches Ok(pair) ==> exists|o: Seq<Seq<char>>| lowered_with_order(ctx.stmt_seq(), ctx.qty_view(), ctx.params(), o, pair),
        r matches Err(e) ==> (forall|o: Seq<Seq<char>>| !is_uncompute_order(block_dag(ctx.stmt_seq()), o))
            || exists|o: Seq<Seq<char>>| failed_with_order(ctx.stmt_seq(), o, e),
        r is Ok <==> (exists|o: Seq<Seq<char>>| is_uncompute_order(block_dag(ctx.stmt_seq()), o))
            && temps_uncomputable(block_dag(ctx.stmt_seq()), ctx.stmt_seq()),
        reversible_outcome(*ctx, r),
{
    let forward_stmts = ctx.statements();
    let mut dag = DataflowDAG::new(&ctx.quantities);
    let ghost stmts = ctx.stmt_seq();
    let ghost m = block_dag(stmts);
    match dag.build(forward_stmts.as_slice()) {
        Ok(()) => {},
        Err(e) => {
            return Err(e);
        },
    }
    assert(dag.nodes@ == m);
    let topo_order = match dag.topological_sort() {
        Ok(t) => t,
        Err(e) => {
            return Err(e);
        },
    };
    let ghost o = names_of(topo_order@);
    proof {
        assert(o =~= topo_order@.map_values(|s: String| s@));
        lemma_order_len(m, o);
        lemma_block_dag_no_inverse(stmts);
        lemma_outcome(m, stmts, o);
        assert forall|a: int| 0 <= a < topo_order@.len() implies is_node_name(dag.nodes@, #[trigger] topo_order@[a]@) by {
            assert(is_node_name(m, o[a]));
        }
    }
    let inverse_ops = match generate_inverse_operations(&dag, topo_order.as_slice(), ctx) {
        Ok(v) => v,
        Err(e) => {
            proof {
                assert(failed_with_order(stmts, o, e));
            }
            return Err(e);
        },
    };
    let ghost ops = ops_view(inverse_ops@);
    proof {
        lemma_plan_shape(m, stmts, o);
        lemma_required_count_bound(ops);
        assert forall|a: int| 0 <= a < inverse_ops@.len() implies is_node_name(dag.nodes@, #[trigger] inverse_ops@[a].0@) by {
            assert(ops[a].0 == inverse_ops@[a].0@);
            let b = choose|b: int| 0 <= b < o.len() && o[b] == (#[trigger] ops[a]).0;
            assert(is_node_name(m, o[b]));
        }
    }
    let ancilla_reqs = match allocate_ancilla_and_verify(&dag, &inverse_ops) {
        Ok(v) => v,
        Err(e) => {
            proof {
                assert(failed_with_order(stmts, o, e));
            }
            return Err(e);
        },
    };
    proof {
        lemma_ancilla_plan_len(m, ops);
    }
    let inverse_schedule = build_inverse_schedule(&dag, topo_order.as_slice(), &inverse_ops, &ancilla_reqs, ctx);
    let forward_schedule = build_forward_schedule(forward_stmts.as_slice(), ctx);
    let pair = ReversibleSchedulePair {
        forward: forward_schedule,
        inverse: inverse_schedule,
        ancilla_requirements: ancilla_reqs,
        erased_temps: dag.erased_temps(),
    };
    proof {
        assert(dag.zero_qty_temps@ =~= zero_names(ctx.qty_view()));
        assert(lowered_with_order(stmts, ctx.qty_view(), ctx.params(), o, pair));
    }
    Ok(pair)
}

/// Every temporary that is not zero-quantity has a defining statement and is
/// not an ancilla qubit.
pub open spec fn temps_uncomputable(m: Seq<NodeModel>, stmts: Seq<PirStatement>) -> bool {
    forall|i: int| 0 <= i < m.len() && !(#[trigger] m[i]).is_zero_qty
        ==> def_site(stmts, m[i].temp, 0) is Some && !m[i].is_ancilla
}

/// No node has an inverse operation attached.
pub open spec fn no_inverse_attached(m: Seq<NodeModel>) -> bool {
    forall|i: int| 0 <= i < m.len() ==> !(#[trigger] m[i]).has_inverse
}

proof fn lemma_defs_no_inverse(m: Seq<NodeModel>, evs: Seq<DefEvent>)
    requires
        no_inverse_attached(m),
    ensures
        no_inverse_attached(apply_defs(m, evs)),
    decreases evs.len(),
{
    if evs.len() > 0 {
        lemma_defs_no_inverse(m, evs.drop_last());
        let p = apply_defs(m, evs.drop_last());
        lemma_name_index(p, evs.last().name);
    }
}

proof fn lemma_uses_no_inverse(m: Seq<NodeModel>, evs: Seq<(Seq<char>, usize)>)
    requires
        no_inverse_attached(m),
    ensures
        no_inverse_attached(apply_uses(m, evs)),
    decreases evs.len(),
{
    if evs.len() > 0 {
        lemma_uses_no_inverse(m, evs.drop_last());
        let p = apply_uses(m, evs.drop_last());
        lemma_name_index(p, evs.last().0);
    }
}

/// The DAG of a block carries no inverse operations.
proof fn lemma_block_dag_no_inverse(stmts: Seq<PirStatement>)
    ensures
        no_inverse_attached(block_dag(stmts)),
{
    let m1 = apply_defs(Seq::empty(), stmts_def_events(stmts));
    lemma_defs_no_inverse(Seq::empty(), stmts_def_events(stmts));
    lemma_uses_no_inverse(m1, stmts_use_events(stmts));
}

/// A plan succeeds exactly when every name of the order is zero-quantity or defined.
proof fn lemma_plan_ok(m: Seq<NodeModel>, stmts: Seq<PirStatement>, o: Seq<Seq<char>>)
    ensures
        inverse_plan(m, stmts, o) is Ok <==> forall|a: int| 0 <= a < o.len()
            ==> (#[trigger] m[name_index(m, o[a])]).is_zero_qty || def_site(stmts, o[a], 0) is Some,
    decreases o.len(),
{
    if o.len() > 0 {
        let d = o.drop_last();
        lemma_plan_ok(m, stmts, d);
        if inverse_plan(m, stmts, o) is Ok {
            assert forall|a: int| 0 <= a < o.len() implies (#[trigger] m[name_index(m, o[a])]).is_zero_qty
                || def_site(stmts, o[a], 0) is Some by {
                if a < d.len() {
                    assert(o[a] == d[a]);
                }
            }
        } else {
            if inverse_plan(m, stmts, d) is Ok {
                let a = o.len() - 1;
                assert(!(m[name_index(m, o[a])].is_zero_qty || def_site(stmts, o[a], 0) is Some));
            } else {
                let a = choose|a: int| 0 <= a < d.len()
                    && !((#[trigger] m[name_index(m, d[a])]).is_zero_qty || def_site(stmts, d[a], 0) is Some);
                assert(o[a] == d[a]);
            }
        }
    }
}

/// The operations of a successful plan are those of the names of the order
/// that are not zero-quantity, and an adjoint asks for no ancilla.
proof fn lemma_plan_ops(m: Seq<NodeModel>, stmts: Seq<PirStatement>, o: Seq<Seq<char>>)
    requires
        inverse_plan(m, stmts, o) is Ok,
    ensures
        forall|k: int| 0 <= k < inverse_plan(m, stmts, o)->Ok_0.len() ==> exists|a: int| 0 <= a < o.len()
            && o[a] == (#[trigger] inverse_plan(m, stmts, o)->Ok_0[k]).0 && !m[name_index(m, o[a])].is_zero_qty,
        forall|a: int| 0 <= a < o.len() && !(#[trigger] m[name_index(m, o[a])]).is_zero_qty
            ==> has_op(inverse_plan(m, stmts, o)->Ok_0, o[a]),
        forall|k: int| 0 <= k < inverse_plan(m, stmts, o)->Ok_0.len() && (#[trigger] inverse_plan(m, stmts, o)->Ok_0[k]).1.is_adjoint
            ==> inverse_plan(m, stmts, o)->Ok_0[k].1.required.len() == 0,
    decreases o.len(),
{
    if o.len() > 0 {
        let d = o.drop_last();
        lemma_plan_ops(m, stmts, d);
        let ops0 = inverse_plan(m, stmts, d)->Ok_0;
        let ops = inverse_plan(m, stmts, o)->Ok_0;
        assert forall|k: int| 0 <= k < ops.len() implies exists|a: int| 0 <= a < o.len()
            && o[a] == (#[trigger] ops[k]).0 && !m[name_index(m, o[a])].is_zero_qty by {
            if k < ops0.len() {
                assert(ops[k] == ops0[k]);
                let a = choose|a: int| 0 <= a < d.len() && d[a] == (#[trigger] ops0[k]).0 && !m[name_index(m, d[a])].is_zero_qty;
                assert(o[a] == d[a]);
                assert(0 <= a < o.len() && o[a] == ops[k].0 && !m[name_index(m, o[a])].is_zero_qty);
            } else {
                let a = o.len() - 1;
                assert(!m[name_index(m, o.last())].is_zero_qty);
                assert(ops[k] == (o.last(), inverse_of(def_site(stmts, o.last(), 0)->Some_0)));
                assert(0 <= a < o.len() && o[a] == ops[k].0 && !m[name_index(m, o[a])].is_zero_qty);
            }
        }
        assert forall|a: int| 0 <= a < o.len() && !(#[trigger] m[name_index(m, o[a])]).is_zero_qty implies has_op(ops, o[a]) by {
            if a < d.len() {
                assert(o[a] == d[a]);
                assert(has_op(ops0, d[a]));
                let k = choose|k: int| 0 <= k < ops0.len() && (#[trigger] ops0[k]).0 == d[a];
                assert(ops[k] == ops0[k]);
            } else {
                assert(ops[ops.len() - 1].0 == o[a]);
            }
        }
        assert forall|k: int| 0 <= k < ops.len() && (#[trigger] ops[k]).1.is_adjoint implies ops[k].1.required.len() == 0 by {
            if k < ops0.len() {
                assert(ops[k] == ops0[k]);
            }
        }
    }
}

/// A requirement that cannot be zeroed.
pub open spec fn unzeroable(m: Seq<NodeModel>, q: ReqModel) -> bool {
    q.is_quantum && (name_index(m, q.name) < 0 || !m[name_index(m, q.name)].has_inverse)
}

proof fn lemma_zeroing_none(m: Seq<NodeModel>, reqs: Seq<ReqModel>, k: int)
    requires
        0 <= k <= reqs.len(),
    ensures
        zeroing_failure(m, reqs, k) is None <==> forall|j: int| k <= j < reqs.len() ==> !unzeroable(m, #[trigger] reqs[j]),
    decreases reqs.len() - k,
{
    if k < reqs.len() {
        lemma_zeroing_none(m, reqs, k + 1);
    }
}

/// The ancilla plan holds a quantum requirement exactly when some operation
/// is for an ancilla qubit.
proof fn lemma_quantum_reqs(m: Seq<NodeModel>, ops: Seq<(Seq<char>, InvModel)>)
    requires
        forall|k: int| 0 <= k < ops.len() && (#[trigger] ops[k]).1.is_adjoint ==> ops[k].1.required.len() == 0,
    ensures
        (exists|j: int| 0 <= j < ancilla_plan(m, ops).len() && (#[trigger] ancilla_plan(m, ops)[j]).is_quantum)
            <==> (exists|k: int| 0 <= k < ops.len() && m[name_index(m, (#[trigger] ops[k]).0)].is_ancilla),
        forall|j: int| 0 <= j < ancilla_plan(m, ops).len() && (#[trigger] ancilla_plan(m, ops)[j]).is_quantum
            ==> exists|k: int| 0 <= k < ops.len() && ancilla_plan(m, ops)[j].name == (#[trigger] ops[k]).0,
    decreases ops.len(),
{
    if ops.len() > 0 {
        let d = ops.drop_last();
        assert forall|k: int| 0 <= k < d.len() && (#[trigger] d[k]).1.is_adjoint implies d[k].1.required.len() == 0 by {
            assert(d[k] == ops[k]);
        }
        lemma_quantum_reqs(m, d);
        let p0 = ancilla_plan(m, d);
        let last = ops.last();
        let extra = reqs_for(m, last.0, last.1, required_count(d));
        let p = ancilla_plan(m, ops);
        assert(p == p0 + extra);
        let node = m[name_index(m, last.0)];
        let nreq = last.1.required.len();
        assert forall|j: int| 0 <= j < p.len() && (#[trigger] p[j]).is_quantum implies exists|k: int| 0 <= k < ops.len() && p[j].name == (#[trigger] ops[k]).0 by {
            if j < p0.len() {
                assert(p[j] == p0[j]);
                let k = choose|k: int| 0 <= k < d.len() && p0[j].name == (#[trigger] d[k]).0;
                assert(ops[k] == d[k]);
            } else {
                let t = j - p0.len();
                assert(p[j] == extra[t]);
                if t < nreq {
                    assert(extra[t].is_quantum == last.1.is_adjoint);
                    assert(ops[ops.len() - 1].1.is_adjoint ==> ops[ops.len() - 1].1.required.len() == 0);
                } else {
                    assert(p[j].name == ops[ops.len() - 1].0);
                }
            }
        }
        if exists|j: int| 0 <= j < p.len() && (#[trigger] p[j]).is_quantum {
            let j = choose|j: int| 0 <= j < p.len() && (#[trigger] p[j]).is_quantum;
            if j < p0.len() {
                assert(p[j] == p0[j]);
                assert(exists|j2: int| 0 <= j2 < p0.len() && (#[trigger] p0[j2]).is_quantum);
                let k = choose|k: int| 0 <= k < d.len() && m[name_index(m, (#[trigger] d[k]).0)].is_ancilla;
                assert(ops[k] == d[k]);
            } else {
                let t = j - p0.len();
                assert(p[j] == extra[t]);
                if t < nreq {
                    assert(ops[ops.len() - 1].1.is_adjoint ==> ops[ops.len() - 1].1.required.len() == 0);
                } else {
                    assert(node.is_ancilla);
                    assert(m[name_index(m, ops[ops.len() - 1].0)].is_ancilla);
                }
            }
        }
        if exists|k: int| 0 <= k < ops.len() && m[name_index(m, (#[trigger] ops[k]).0)].is_ancilla {
            let k = choose|k: int| 0 <= k < ops.len() && m[name_index(m, (#[trigger] ops[k]).0)].is_ancilla;
            if k < d.len() {
                assert(ops[k] == d[k]);
                assert(exists|k2: int| 0 <= k2 < d.len() && m[name_index(m, (#[trigger] d[k2]).0)].is_ancilla);
                let j = choose|j: int| 0 <= j < p0.len() && (#[trigger] p0[j]).is_quantum;
                assert(p[j] == p0[j]);
            } else {
                assert(node.is_ancilla);
                let j = (p0.len() + nreq) as int;
                assert(p[j] == extra[nreq as int]);
                assert(p[j].is_quantum);
            }
        }
    }
}

/// For any uncompute order, the plan succeeds and every ancilla can be
/// zeroed exactly when the temporaries are uncomputable.
proof fn lemma_outcome(m: Seq<NodeModel>, stmts: Seq<PirStatement>, o: Seq<Seq<char>>)
    requires
        dag_wf(m),
        no_inverse_attached(m),
        is_uncompute_order(m, o),
    ensures
        (inverse_plan(m, stmts, o) is Ok && zeroing_failure(m, ancilla_plan(m, inverse_plan(m, stmts, o)->Ok_0), 0) is None)
            <==> temps_uncomputable(m, stmts),
{
    lemma_plan_ok(m, stmts, o);
    if temps_uncomputable(m, stmts) {
        assert forall|a: int| 0 <= a < o.len() implies (#[trigger] m[name_index(m, o[a])]).is_zero_qty
            || def_site(stmts, o[a], 0) is Some by {
            assert(is_node_name(m, o[a]));
            let i = choose|i: int| 0 <= i < m.len() && (#[trigger] m[i]).temp == o[a];
            lemma_unique_index(m, i);
        }
        let ops = inverse_plan(m, stmts, o)->Ok_0;
        lemma_plan_ops(m, stmts, o);
        lemma_quantum_reqs(m, ops);
        let reqs = ancilla_plan(m, ops);
        assert forall|k: int| 0 <= k < ops.len() implies !m[name_index(m, (#[trigger] ops[k]).0)].is_ancilla by {
            let a = choose|a: int| 0 <= a < o.len() && o[a] == (#[trigger] ops[k]).0 && !m[name_index(m, o[a])].is_zero_qty;
            assert(is_node_name(m, o[a]));
            let i = choose|i: int| 0 <= i < m.len() && (#[trigger] m[i]).temp == o[a];
            lemma_unique_index(m, i);
        }
        lemma_zeroing_none(m, reqs, 0);
        assert forall|j: int| 0 <= j < reqs.len() implies !unzeroable(m, #[trigger] reqs[j]) by {
            if reqs[j].is_quantum {
                let k = choose|k: int| 0 <= k < ops.len() && m[name_index(m, (#[trigger] ops[k]).0)].is_ancilla;
            }
        }
    } else {
        let i = choose|i: int| 0 <= i < m.len() && !(#[trigger] m[i]).is_zero_qty
            && !(def_site(stmts, m[i].temp, 0) is Some && !m[i].is_ancilla);
        assert(o.contains(m[i].temp));
        let a = choose|a: int| 0 <= a < o.len() && o[a] == m[i].temp;
        lemma_unique_index(m, i);
        if inverse_plan(m, stmts, o) is Ok {
            if def_site(stmts, m[i].temp, 0) is None {
                assert(!(m[name_index(m, o[a])].is_zero_qty || def_site(stmts, o[a], 0) is Some));
            } else {
                let ops = inverse_plan(m, stmts, o)->Ok_0;
                lemma_plan_ops(m, stmts, o);
                lemma_quantum_reqs(m, ops);
                assert(has_op(ops, o[a]));
                let k = choose|k: int| 0 <= k < ops.len() && (#[trigger] ops[k]).0 == o[a];
                assert(m[name_index(m, ops[k].0)].is_ancilla);
                let reqs = ancilla_plan(m, ops);
                let j = choose|j: int| 0 <= j < reqs.len() && (#[trigger] reqs[j]).is_quantum;
                let k2 = choose|k2: int| 0 <= k2 < ops.len() && reqs[j].name == (#[trigger] ops[k2]).0;
                let a2 = choose|a2: int| 0 <= a2 < o.len() && o[a2] == (#[trigger] ops[k2]).0 && !m[name_index(m, o[a2])].is_zero_qty;
                assert(is_node_name(m, o[a2]));
                let i2 = choose|i2: int| 0 <= i2 < m.len() && (#[trigger] m[i2]).temp == o[a2];
                lemma_unique_index(m, i2);
                assert(unzeroable(m, reqs[j]));
                lemma_zeroing_none(m, reqs, 0);
            }
        }
    }
}


/// Lowers a reversible block to its forward and inverse schedules: the
/// block's statements are lowered into the context, then every statement of
/// the context is lowered reversibly.
pub fn lower_reversible_block(block: &ReversibleBlock, ctx: &mut LoweringContext) -> (r: Result<ReversibleSchedulePair, LoweringError>)
    requires
        old(ctx).all_scalar(),
        lower_stmts_spec(old(ctx).state(), block.body.stmts@).0.next <= usize::MAX,
        forall|c: Seq<PirStatement>| #[trigger] shapes(c)
            == lower_stmts_spec(old(ctx).state(), block.body.stmts@).0.stmts
            ==> c.len() + 3 * block_dag(c).len() <= usize::MAX,
    ensures
        final(ctx).state() == lower_stmts_spec(old(ctx).state(), block.body.stmts@).0,
        final(ctx).all_scalar(),
        final(ctx).frame() == old(ctx).frame(),
        lower_stmts_spec(old(ctx).state(), block.body.stmts@).1 matches Err(m)
            ==> (r matches Err(LoweringError::Unsupported(t)) && t@ == m),
        lower_stmts_spec(old(ctx).state(), block.body.stmts@).1 is Ok ==> reversible_outcome(*final(ctx), r),
{
    match ctx.lower_stmts(&block.body.stmts) {
        Ok(()) => {},
        Err(e) => return Err(e),
    }
    proof {
        assert forall|i: int| 0 <= i < ctx.stmt_seq().len() implies (#[trigger] ctx.stmt_seq()[i]).domain.n_param == 0 by {
            assert(scalar_stmt(ctx.stmt_seq()[i]));
        }
    }
    lower_reversible_statements(ctx)
}

/// Lowers a reversible block to its forward and inverse schedules, as
/// `lower_reversible_block` does.
pub fn lower_reversible_block_to_pair(block: &ReversibleBlock, ctx: &mut LoweringContext) -> (r: Result<ReversibleSchedulePair, LoweringError>)
    requires
        old(ctx).all_scalar(),
        lower_stmts_spec(old(ctx).state(), block.body.stmts@).0.next <= usize::MAX,
        forall|c: Seq<PirStatement>| #[trigger] shapes(c)
            == lower_stmts_spec(old(ctx).state(), block.body.stmts@).0.stmts
            ==> c.len() + 3 * block_dag(c).len() <= usize::MAX,
    ensures
        final(ctx).state() == lower_stmts_spec(old(ctx).state(), block.body.stmts@).0,
        final(ctx).all_scalar(),
        final(ctx).frame() == old(ctx).frame(),
        lower_stmts_spec(old(ctx).state(), block.body.stmts@).1 matches Err(m)
            ==> (r matches Err(LoweringError::Unsupported(t)) && t@ == m),
        lower_stmts_spec(old(ctx).state(), block.body.stmts@).1 is Ok ==> reversible_outcome(*final(ctx), r),
{
    lower_reversible_block(block, ctx)
}


/// The integer an invertible arithmetic operator computes from `a` and `b`:
/// `+`, `-`, `*`, `/` (with a non-zero divisor) on integers, and `^` on
/// 64-bit values.
pub open spec fn arith_value(op: BinaryOp, a: int, b: int) -> Option<int> {
    match op {
        BinaryOp::Add => Some(a + b),
        BinaryOp::Sub => Some(a - b),
        BinaryOp::Mul => Some(a * b),
        BinaryOp::Div => if b != 0 { Some(a / b) } else { None },
        BinaryOp::Xor => if i64::MIN <= a <= i64::MAX && i64::MIN <= b <= i64::MAX {
            Some(((a as i64) ^ (b as i64)) as int)
        } else {
            None
        },
        _ => None,
    }
}

/// The inverse operator undoes the operation: after `a op b`, the inverse
/// with the same `b` gives back `a`. This holds for `+`, `-` and `^` on any
/// operands, for `*` with a non-zero `b`, and for `/` where `b` divides `a`.
pub proof fn lemma_inverse_undoes(op: BinaryOp, a: int, b: int)
    requires
        op is Add || op is Sub || op is Mul || op is Div || op is Xor,
        op is Mul || op is Div ==> b != 0,
        op is Div ==> a % b == 0,
        op is Xor ==> i64::MIN <= a <= i64::MAX && i64::MIN <= b <= i64::MAX,
    ensures
        arith_value(op, a, b) is Some,
        arith_value(inverse_binop(op), arith_value(op, a, b)->0, b) == Some(a),
{
    match op {
        BinaryOp::Mul => {
            if b > 0 {
                vstd::arithmetic::div_mod::lemma_div_multiples_vanish(a, b);
                assert(a * b == b * a) by (nonlinear_arith);
            } else {
                assert((a * b) / b == a) by (nonlinear_arith)
                    requires
                        b < 0,
                {
                }
            }
        },
        BinaryOp::Div => {
            vstd::arithmetic::div_mod::lemma_fundamental_div_mod(a, b);
            assert((a / b) * b == a) by (nonlinear_arith)
                requires
                    a == b * (a / b) + a % b,
                    a % b == 0,
            {
            }
        },
        BinaryOp::Xor => {
            let x = a as i64;
            let y = b as i64;
            assert((x ^ y) ^ y == x) by (bit_vector);
        },
        _ => {},
    }
}

/// Each invertible operator is the inverse of its own inverse.
pub proof fn lemma_inverse_involutive(op: BinaryOp)
    requires
        op is Add || op is Sub || op is Mul || op is Div || op is Xor,
    ensures
        inverse_binop(inverse_binop(op)) == op,
{
}

/// The inverse that `generate_arithmetic_inverse` builds undoes the
/// operation it inverts: it applies, to the same operands, the operator
/// that takes the result of `a op b` and `b` back to `a` (`x - 1` is undone
/// by `x + 1`).
pub proof fn lemma_arithmetic_inverse_undoes(op: BinaryOp, left: ExprModel, right: ExprModel, a: int, b: int)
    requires
        op is Add || op is Sub || op is Mul || op is Div || op is Xor,
        op is Mul || op is Div ==> b != 0,
        op is Div ==> a % b == 0,
        op is Xor ==> i64::MIN <= a <= i64::MAX && i64::MIN <= b <= i64::MAX,
    ensures
        arithmetic_inverse(op, left, right).expr matches ExprModel::Binary { op: iop, left: l, right: r }
            && *l == left && *r == right && arith_value(op, a, b) is Some
            && arith_value(iop, arith_value(op, a, b)->0, b) == Some(a),
{
    lemma_inverse_undoes(op, a, b);
}

} // verus!
