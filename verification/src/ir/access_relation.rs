//! Access relations: which memory locations each statement instance reads
//! or writes, and the dependences between accesses that follow from them.

use vstd::prelude::*;
use crate::ir::affine_domain::{
    AffineDomain, DomainModel, contains_fits, detected_empty, domain_contains, lemma_detected_empty_swap,
};
use crate::ir::affine_map::{
    AffineMap, PieceModel, map_apply, map_apply_ok, merged_constraints,
};
use crate::ir::schedule_tree::StmtId;
use crate::text::str_eq;

verus! {

/// Kind of memory access.
#[derive(Debug, Clone, Copy, PartialEq, Eq, Structural)]
pub enum AccessType {
    /// Read-only access.
    Read,
    /// Write-only access.
    Write,
    /// Read then write.
    ReadWrite,
    /// Accumulation into a reduction variable.
    Reduction,
}

/// Access relation: statement instance -> memory location.
#[derive(Debug)]
pub struct AccessRelation {
    /// The accessing statement.
    pub stmt_id: StmtId,
    /// Instances of the statement this access applies to.
    pub stmt_domain: AffineDomain,
    /// Affine map from a statement instance to the location it accesses.
    pub access_map: AffineMap,
    pub access_type: AccessType,
    /// Name of the array or memory region, when known.
    pub array_name: Option<String>,
}

/// Mathematical model of an access relation.
pub struct AccessModel {
    pub stmt_id: usize,
    pub domain: DomainModel,
    pub map: Seq<PieceModel>,
    pub access_type: AccessType,
    pub array_name: Option<Seq<char>>,
}

impl View for AccessRelation {
    type V = AccessModel;

    open spec fn view(&self) -> AccessModel {
        AccessModel {
            stmt_id: self.stmt_id.0,
            domain: self.stmt_domain@,
            map: self.access_map@,
            access_type: self.access_type,
            array_name: match self.array_name {
                Some(s) => Some(s@),
                None => None,
            },
        }
    }
}

/// Reads: `Read` and `ReadWrite`.
pub open spec fn reads_model(t: AccessType) -> bool {
    t == AccessType::Read || t == AccessType::ReadWrite
}

/// Writes: `Write` and `ReadWrite`.
pub open spec fn writes_model(t: AccessType) -> bool {
    t == AccessType::Write || t == AccessType::ReadWrite
}

/// The image of the statement domain can be computed (see `AffineMap::image`).
pub open spec fn image_ok(a: AccessModel) -> bool {
    &&& a.map.len() > 0
    &&& a.map[0].matrix.rows + a.domain.n_param <= usize::MAX
    &&& forall|i: int| 0 <= i < a.map.len() ==> (#[trigger] a.map[i]).domain.dims == a.domain.dims
        && a.map[i].domain.n_iter == a.domain.n_iter && a.map[i].domain.n_param == a.domain.n_param
    &&& forall|i: int| 0 <= i < a.map.len() && !detected_empty((#[trigger] a.map[i]).domain.constraints + a.domain.constraints)
        ==> a.map[0].matrix.rows == a.domain.n_iter && a.domain.dims == a.domain.n_iter + a.domain.n_param
}

/// The memory domain: the image of the statement domain.
pub open spec fn memory_model(a: AccessModel) -> DomainModel {
    DomainModel {
        dims: (a.map[0].matrix.rows + a.domain.n_param) as nat,
        n_iter: a.map[0].matrix.rows,
        n_param: a.domain.n_param,
        constraints: merged_constraints(a.map, a.domain),
        name: None,
    }
}

/// Both accesses name their arrays, and the names differ.
pub open spec fn names_differ(a: AccessModel, b: AccessModel) -> bool {
    a.array_name is Some && b.array_name is Some && a.array_name->0 != b.array_name->0
}

/// What `may_alias` needs: when the names do not settle it, both memory
/// domains can be computed and have the same shape.
pub open spec fn alias_ok(a: AccessModel, b: AccessModel) -> bool {
    !names_differ(a, b) ==> {
        &&& image_ok(a)
        &&& image_ok(b)
        &&& memory_model(a).dims == memory_model(b).dims
        &&& memory_model(a).n_iter == memory_model(b).n_iter
        &&& memory_model(a).n_param == memory_model(b).n_param
    }
}

/// Two accesses may alias unless their arrays differ by name or the
/// intersection of their memory domains is detected empty.
pub open spec fn alias_model(a: AccessModel, b: AccessModel) -> bool {
    !names_differ(a, b) && !detected_empty(memory_model(a).constraints + memory_model(b).constraints)
}

/// Aliasing is symmetric: two accesses may alias exactly when they may
/// alias the other way round.
pub proof fn lemma_may_alias_symmetric(a: AccessModel, b: AccessModel)
    ensures
        alias_model(a, b) == alias_model(b, a),
{
    lemma_detected_empty_swap(memory_model(a).constraints, memory_model(b).constraints);
}

/// Accesses to arrays with different names never alias.
pub proof fn lemma_named_arrays_apart(a: AccessModel, b: AccessModel)
    requires
        a.array_name is Some,
        b.array_name is Some,
        a.array_name->0 != b.array_name->0,
    ensures
        !alias_model(a, b),
{
}

impl AccessRelation {
    pub fn new(stmt_id: StmtId, stmt_domain: AffineDomain, access_map: AffineMap, access_type: AccessType) -> (r: Self)
        requires
            access_map@.len() > 0,
            stmt_domain.dims == access_map@[0].domain.dims,
        ensures
            r@ == (AccessModel {
                stmt_id: stmt_id.0,
                domain: stmt_domain@,
                map: access_map@,
                access_type,
                array_name: None,
            }),
    {
        AccessRelation { stmt_id, stmt_domain, access_map, access_type, array_name: None }
    }

    /// Names the accessed array.
    pub fn with_array_name(self, name: &str) -> (r: Self)
        ensures
            r@ == (AccessModel { array_name: Some(name@), ..self@ }),
    {
        let mut s = self;
        s.array_name = Some(name.to_string());
        s
    }

    /// The location accessed by a statement instance; `None` outside the
    /// statement domain or where no piece of the map applies.
    pub fn apply(&self, stmt_point: &[i64]) -> (r: Option<Vec<i64>>)
        requires
            contains_fits(self@.domain, stmt_point@),
            domain_contains(self@.domain, stmt_point@) ==> map_apply_ok(self@.map, stmt_point@),
        ensures
            !domain_contains(self@.domain, stmt_point@) ==> r is None,
            domain_contains(self@.domain, stmt_point@) ==> {
                &&& r matches Some(y) ==> map_apply(self@.map, stmt_point@) == Some(y@)
                &&& r is None ==> map_apply(self@.map, stmt_point@) is None
            },
    {
        if self.stmt_domain.contains(stmt_point) {
            self.access_map.apply(stmt_point)
        } else {
            None
        }
    }

    /// The memory domain: image of the statement domain under the map.
    pub fn memory_domain(&self) -> (r: AffineDomain)
        requires
            image_ok(self@),
        ensures
            r@ == memory_model(self@),
    {
        self.access_map.image(&self.stmt_domain)
    }

    /// Whether two accesses may touch the same memory.
    pub fn may_alias(&self, other: &AccessRelation) -> (r: bool)
        requires
            alias_ok(self@, other@),
        ensures
            r == alias_model(self@, other@),
    {
        match (&self.array_name, &other.array_name) {
            (Some(a), Some(b)) => {
                if !str_eq(a.as_str(), b.as_str()) {
                    return false;
                }
            },
            _ => {},
        }
        let dom1 = self.memory_domain();
        let dom2 = other.memory_domain();
        let inter = dom1.intersection(&dom2);
        !inter.is_empty()
    }

    /// `Read` or `ReadWrite`.
    pub fn is_read(&self) -> (r: bool)
        ensures
            r == reads_model(self.access_type),
    {
        match self.access_type {
            AccessType::Read | AccessType::ReadWrite => true,
            _ => false,
        }
    }

    /// `Write` or `ReadWrite`.
    pub fn is_write(&self) -> (r: bool)
        ensures
            r == writes_model(self.access_type),
    {
        match self.access_type {
            AccessType::Write | AccessType::ReadWrite => true,
            _ => false,
        }
    }
}

/// The access relations of a module.
#[derive(Debug)]
pub struct AccessRelations {
    pub relations: Vec<AccessRelation>,
}

/// Models of a list of relations.
pub open spec fn relations_view(rs: Seq<AccessRelation>) -> Seq<AccessModel> {
    rs.map_values(|r: AccessRelation| r@)
}

/// Models of a list of borrowed relations.
pub open spec fn refs_view(rs: Seq<&AccessRelation>) -> Seq<AccessModel> {
    rs.map_values(|r: &AccessRelation| r@)
}

/// Models of a list of borrowed pairs.
pub open spec fn pairs_view(ps: Seq<(&AccessRelation, &AccessRelation)>) -> Seq<(AccessModel, AccessModel)> {
    ps.map_values(|p: (&AccessRelation, &AccessRelation)| (p.0@, p.1@))
}

impl View for AccessRelations {
    type V = Seq<AccessModel>;

    open spec fn view(&self) -> Seq<AccessModel> {
        relations_view(self.relations@)
    }
}

/// The accesses of one statement, in order.
pub open spec fn for_stmt_of(s: Seq<AccessModel>, id: usize) -> Seq<AccessModel>
    decreases s.len(),
{
    if s.len() == 0 {
        Seq::empty()
    } else if s.last().stmt_id == id {
        for_stmt_of(s.drop_last(), id).push(s.last())
    } else {
        for_stmt_of(s.drop_last(), id)
    }
}

/// The reads, in order.
pub open spec fn reads_of(s: Seq<AccessModel>) -> Seq<AccessModel>
    decreases s.len(),
{
    if s.len() == 0 {
        Seq::empty()
    } else if reads_model(s.last().access_type) {
        reads_of(s.drop_last()).push(s.last())
    } else {
        reads_of(s.drop_last())
    }
}

/// The writes, in order.
pub open spec fn writes_of(s: Seq<AccessModel>) -> Seq<AccessModel>
    decreases s.len(),
{
    if s.len() == 0 {
        Seq::empty()
    } else if writes_model(s.last().access_type) {
        writes_of(s.drop_last()).push(s.last())
    } else {
        writes_of(s.drop_last())
    }
}

/// Pairs `(a, ys[j])`, `j < k`, where `a`'s statement comes first and the
/// two may alias.
pub open spec fn ordered_row(a: AccessModel, ys: Seq<AccessModel>, k: int) -> Seq<(AccessModel, AccessModel)>
    decreases k,
{
    if k <= 0 {
        Seq::empty()
    } else if a.stmt_id < ys[k - 1].stmt_id && alias_model(a, ys[k - 1]) {
        ordered_row(a, ys, k - 1).push((a, ys[k - 1]))
    } else {
        ordered_row(a, ys, k - 1)
    }
}

/// The rows of `ordered_row` for `xs[0..k]`, concatenated.
pub open spec fn ordered_pairs(xs: Seq<AccessModel>, ys: Seq<AccessModel>, k: int) -> Seq<(AccessModel, AccessModel)>
    decreases k,
{
    if k <= 0 {
        Seq::empty()
    } else {
        ordered_pairs(xs, ys, k - 1) + ordered_row(xs[k - 1], ys, ys.len() as int)
    }
}

/// Every pair of a row pairs `a` with an element of `ys` of a later
/// statement that it may alias.
proof fn lemma_ordered_row_sound(a: AccessModel, ys: Seq<AccessModel>, k: int, q: int)
    requires
        0 <= k <= ys.len(),
        0 <= q < ordered_row(a, ys, k).len(),
    ensures
        ordered_row(a, ys, k)[q].0 == a,
        ys.contains(ordered_row(a, ys, k)[q].1),
        a.stmt_id < ordered_row(a, ys, k)[q].1.stmt_id,
        alias_model(a, ordered_row(a, ys, k)[q].1),
    decreases k,
{
    if k > 0 {
        let prev = ordered_row(a, ys, k - 1);
        if a.stmt_id < ys[k - 1].stmt_id && alias_model(a, ys[k - 1]) && q == prev.len() {
            assert(ys[k - 1] == ys[k - 1]);
        } else {
            lemma_ordered_row_sound(a, ys, k - 1, q);
        }
    }
}

/// Every pair of `ordered_pairs` takes its first element from `xs[0..k]`
/// and its second from `ys`, of a later statement, and the two may alias.
proof fn lemma_ordered_pairs_sound(xs: Seq<AccessModel>, ys: Seq<AccessModel>, k: int, q: int)
    requires
        0 <= k <= xs.len(),
        0 <= q < ordered_pairs(xs, ys, k).len(),
    ensures
        xs.contains(ordered_pairs(xs, ys, k)[q].0),
        ys.contains(ordered_pairs(xs, ys, k)[q].1),
        ordered_pairs(xs, ys, k)[q].0.stmt_id < ordered_pairs(xs, ys, k)[q].1.stmt_id,
        alias_model(ordered_pairs(xs, ys, k)[q].0, ordered_pairs(xs, ys, k)[q].1),
    decreases k,
{
    if k > 0 {
        let prev = ordered_pairs(xs, ys, k - 1);
        let row = ordered_row(xs[k - 1], ys, ys.len() as int);
        if q < prev.len() {
            lemma_ordered_pairs_sound(xs, ys, k - 1, q);
            assert((prev + row)[q] == prev[q]);
        } else {
            lemma_ordered_row_sound(xs[k - 1], ys, ys.len() as int, q - prev.len());
            assert((prev + row)[q] == row[q - prev.len()]);
        }
    }
}

/// The reads of a list are reads of it; the writes are writes.
proof fn lemma_filtered_access(s: Seq<AccessModel>, a: AccessModel)
    ensures
        reads_of(s).contains(a) ==> reads_model(a.access_type) && s.contains(a),
        writes_of(s).contains(a) ==> writes_model(a.access_type) && s.contains(a),
    decreases s.len(),
{
    if s.len() > 0 {
        lemma_filtered_access(s.drop_last(), a);
        if reads_of(s).contains(a) {
            if !reads_of(s.drop_last()).contains(a) {
                let j = choose|j: int| 0 <= j < reads_of(s).len() && reads_of(s)[j] == a;
                assert(s[s.len() - 1] == s.last());
            } else {
                let j = choose|j: int| 0 <= j < s.drop_last().len() && s.drop_last()[j] == a;
                assert(s[j] == a);
            }
        }
        if writes_of(s).contains(a) {
            if !writes_of(s.drop_last()).contains(a) {
                let j = choose|j: int| 0 <= j < writes_of(s).len() && writes_of(s)[j] == a;
                assert(s[s.len() - 1] == s.last());
            } else {
                let j = choose|j: int| 0 <= j < s.drop_last().len() && s.drop_last()[j] == a;
                assert(s[j] == a);
            }
        }
    }
}

/// Each read-after-write candidate pairs a write of the relations with a
/// read of them, of a later statement, that it may alias.
pub proof fn lemma_raw_pairs_sound(s: Seq<AccessModel>, q: int)
    requires
        0 <= q < ordered_pairs(writes_of(s), reads_of(s), writes_of(s).len() as int).len(),
    ensures
        ({
            let p = ordered_pairs(writes_of(s), reads_of(s), writes_of(s).len() as int)[q];
            &&& s.contains(p.0) && writes_model(p.0.access_type)
            &&& s.contains(p.1) && reads_model(p.1.access_type)
            &&& p.0.stmt_id < p.1.stmt_id
            &&& alias_model(p.0, p.1)
        }),
{
    let p = ordered_pairs(writes_of(s), reads_of(s), writes_of(s).len() as int)[q];
    lemma_ordered_pairs_sound(writes_of(s), reads_of(s), writes_of(s).len() as int, q);
    lemma_filtered_access(s, p.0);
    lemma_filtered_access(s, p.1);
}

/// Pairs `(ws[i], ws[j])`, `i < j < k`, that may alias.
pub open spec fn later_row(ws: Seq<AccessModel>, i: int, k: int) -> Seq<(AccessModel, AccessModel)>
    decreases k - i,
{
    if k <= i + 1 {
        Seq::empty()
    } else if alias_model(ws[i], ws[k - 1]) {
        later_row(ws, i, k - 1).push((ws[i], ws[k - 1]))
    } else {
        later_row(ws, i, k - 1)
    }
}

/// The rows of `later_row` for `i < k`, concatenated.
pub open spec fn later_pairs(ws: Seq<AccessModel>, k: int) -> Seq<(AccessModel, AccessModel)>
    decreases k,
{
    if k <= 0 {
        Seq::empty()
    } else {
        later_pairs(ws, k - 1) + later_row(ws, k - 1, ws.len() as int)
    }
}

/// `may_alias` can be asked of every ordered pair from `xs` then `ys`.
pub open spec fn ordered_ok(xs: Seq<AccessModel>, ys: Seq<AccessModel>) -> bool {
    forall|i: int, j: int| 0 <= i < xs.len() && 0 <= j < ys.len() && xs[i].stmt_id < ys[j].stmt_id
        ==> alias_ok(#[trigger] xs[i], #[trigger] ys[j])
}

/// `may_alias` can be asked of every pair of distinct positions in order.
pub open spec fn later_ok(ws: Seq<AccessModel>) -> bool {
    forall|i: int, j: int| 0 <= i < j < ws.len() ==> alias_ok(#[trigger] ws[i], #[trigger] ws[j])
}

proof fn lemma_refs_push(s: Seq<&AccessRelation>, r: &AccessRelation)
    ensures
        refs_view(s.push(r)) == refs_view(s).push(r@),
{
    assert(refs_view(s.push(r)) =~= refs_view(s).push(r@));
}

proof fn lemma_pairs_push(s: Seq<(&AccessRelation, &AccessRelation)>, a: &AccessRelation, b: &AccessRelation)
    ensures
        pairs_view(s.push((a, b))) == pairs_view(s).push((a@, b@)),
{
    assert(pairs_view(s.push((a, b))) =~= pairs_view(s).push((a@, b@)));
}

proof fn lemma_relations_prefix(rs: Seq<AccessRelation>, i: int)
    requires
        0 <= i < rs.len(),
    ensures
        relations_view(rs.subrange(0, i + 1)).drop_last() == relations_view(rs.subrange(0, i)),
        relations_view(rs.subrange(0, i + 1)).last() == rs[i]@,
        relations_view(rs.subrange(0, i + 1)).len() > 0,
{
    assert(relations_view(rs.subrange(0, i + 1)).drop_last() =~= relations_view(rs.subrange(0, i)));
}

impl AccessRelations {
    pub fn new() -> (r: Self)
        ensures
            r@ == Seq::<AccessModel>::empty(),
    {
        let r = AccessRelations { relations: Vec::new() };
        assert(r@ =~= Seq::<AccessModel>::empty());
        r
    }

    pub fn add(&mut self, relation: AccessRelation)
        ensures
            final(self)@ == old(self)@.push(relation@),
    {
        self.relations.push(relation);
        assert(self@ =~= old(self)@.push(relation@));
    }

    /// The accesses of one statement, in order.
    pub fn for_stmt(&self, stmt_id: StmtId) -> (r: Vec<&AccessRelation>)
        ensures
            refs_view(r@) == for_stmt_of(self@, stmt_id.0),
    {
        let mut out: Vec<&AccessRelation> = Vec::new();
        let mut i: usize = 0;
        assert(refs_view(out@) =~= for_stmt_of(relations_view(self.relations@.subrange(0, 0)), stmt_id.0));
        while i < self.relations.len()
            invariant
                i <= self.relations@.len(),
                refs_view(out@) == for_stmt_of(relations_view(self.relations@.subrange(0, i as int)), stmt_id.0),
            decreases self.relations@.len() - i,
        {
            let rel = &self.relations[i];
            proof {
                lemma_relations_prefix(self.relations@, i as int);
            }
            if rel.stmt_id.0 == stmt_id.0 {
                proof {
                    lemma_refs_push(out@, rel);
                }
                out.push(rel);
            }
            i = i + 1;
        }
        assert(self.relations@.subrange(0, self.relations@.len() as int) =~= self.relations@);
        out
    }

    /// The reads, in order.
    pub fn reads(&self) -> (r: Vec<&AccessRelation>)
        ensures
            refs_view(r@) == reads_of(self@),
    {
        let mut out: Vec<&AccessRelation> = Vec::new();
        let mut i: usize = 0;
        assert(refs_view(out@) =~= reads_of(relations_view(self.relations@.subrange(0, 0))));
        while i < self.relations.len()
            invariant
                i <= self.relations@.len(),
                refs_view(out@) == reads_of(relations_view(self.relations@.subrange(0, i as int))),
            decreases self.relations@.len() - i,
        {
            let rel = &self.relations[i];
            proof {
                lemma_relations_prefix(self.relations@, i as int);
            }
            if rel.is_read() {
                proof {
                    lemma_refs_push(out@, rel);
                }
                out.push(rel);
            }
            i = i + 1;
        }
        assert(self.relations@.subrange(0, self.relations@.len() as int) =~= self.relations@);
        out
    }

    /// The writes, in order.
    pub fn writes(&self) -> (r: Vec<&AccessRelation>)
        ensures
            refs_view(r@) == writes_of(self@),
    {
        let mut out: Vec<&AccessRelation> = Vec::new();
        let mut i: usize = 0;
        assert(refs_view(out@) =~= writes_of(relations_view(self.relations@.subrange(0, 0))));
        while i < self.relations.len()
            invariant
                i <= self.relations@.len(),
                refs_view(out@) == writes_of(relations_view(self.relations@.subrange(0, i as int))),
            decreases self.relations@.len() - i,
        {
            let rel = &self.relations[i];
            proof {
                lemma_relations_prefix(self.relations@, i as int);
            }
            if rel.is_write() {
                proof {
                    lemma_refs_push(out@, rel);
                }
                out.push(rel);
            }
            i = i + 1;
        }
        assert(self.relations@.subrange(0, self.relations@.len() as int) =~= self.relations@);
        out
    }

    /// Read-after-write candidates: a write of an earlier statement and a
    /// read of a later one that may alias.
    pub fn raw_dependences(&self) -> (r: Vec<(&AccessRelation, &AccessRelation)>)
        requires
            ordered_ok(writes_of(self@), reads_of(self@)),
        ensures
            pairs_view(r@) == ordered_pairs(writes_of(self@), reads_of(self@), writes_of(self@).len() as int),
    {
        let writes = self.writes();
        let reads = self.reads();
        ordered_dependences(&writes, &reads)
    }

    /// Write-after-read candidates: a read of an earlier statement and a
    /// write of a later one that may alias.
    pub fn war_dependences(&self) -> (r: Vec<(&AccessRelation, &AccessRelation)>)
        requires
            ordered_ok(reads_of(self@), writes_of(self@)),
        ensures
            pairs_view(r@) == ordered_pairs(reads_of(self@), writes_of(self@), reads_of(self@).len() as int),
    {
        let reads = self.reads();
        let writes = self.writes();
        ordered_dependences(&reads, &writes)
    }

    /// Write-after-write candidates: two writes, in list order, that may alias.
    pub fn waw_dependences(&self) -> (r: Vec<(&AccessRelation, &AccessRelation)>)
        requires
            later_ok(writes_of(self@)),
        ensures
            pairs_view(r@) == later_pairs(writes_of(self@), writes_of(self@).len() as int),
    {
        let writes = self.writes();
        let ghost ws = refs_view(writes@);
        let mut deps: Vec<(&AccessRelation, &AccessRelation)> = Vec::new();
        let mut i: usize = 0;
        assert(pairs_view(deps@) =~= later_pairs(ws, 0));
        while i < writes.len()
            invariant
                ws == refs_view(writes@),
                later_ok(ws),
                i <= writes@.len(),
                pairs_view(deps@) == later_pairs(ws, i as int),
            decreases writes@.len() - i,
        {
            let ghost before = pairs_view(deps@);
            let mut j: usize = i + 1;
            assert(later_row(ws, i as int, j as int) =~= Seq::<(AccessModel, AccessModel)>::empty());
            while j < writes.len()
                invariant
                    ws == refs_view(writes@),
                    later_ok(ws),
                    i < writes@.len(),
                    i < j <= writes@.len(),
                    pairs_view(deps@) == before + later_row(ws, i as int, j as int),
                decreases writes@.len() - j,
            {
                assert(ws[i as int] == writes@[i as int]@);
                assert(ws[j as int] == writes@[j as int]@);
                assert(alias_ok(ws[i as int], ws[j as int]));
                if writes[i].may_alias(writes[j]) {
                    proof {
                        lemma_pairs_push(deps@, writes@[i as int], writes@[j as int]);
                    }
                    deps.push((writes[i], writes[j]));
                }
                assert(pairs_view(deps@) =~= before + later_row(ws, i as int, j + 1));
                j = j + 1;
            }
            assert(pairs_view(deps@) =~= later_pairs(ws, i + 1));
            i = i + 1;
        }
        deps
    }
}

/// The ordered, possibly aliasing pairs from `xs` then `ys`.
fn ordered_dependences<'a>(xs: &Vec<&'a AccessRelation>, ys: &Vec<&'a AccessRelation>) -> (r: Vec<(&'a AccessRelation, &'a AccessRelation)>)
    requires
        ordered_ok(refs_view(xs@), refs_view(ys@)),
    ensures
        pairs_view(r@) == ordered_pairs(refs_view(xs@), refs_view(ys@), xs@.len() as int),
{
    let ghost xv = refs_view(xs@);
    let ghost yv = refs_view(ys@);
    let mut deps: Vec<(&AccessRelation, &AccessRelation)> = Vec::new();
    let mut i: usize = 0;
    assert(pairs_view(deps@) =~= ordered_pairs(xv, yv, 0));
    while i < xs.len()
        invariant
            xv == refs_view(xs@),
            yv == refs_view(ys@),
            ordered_ok(xv, yv),
            i <= xs@.len(),
            pairs_view(deps@) == ordered_pairs(xv, yv, i as int),
        decreases xs@.len() - i,
    {
        let ghost before = pairs_view(deps@);
        let mut j: usize = 0;
        assert(ordered_row(xv[i as int], yv, 0) =~= Seq::<(AccessModel, AccessModel)>::empty());
        while j < ys.len()
            invariant
                xv == refs_view(xs@),
                yv == refs_view(ys@),
                ordered_ok(xv, yv),
                i < xs@.len(),
                j <= ys@.len(),
                pairs_view(deps@) == before + ordered_row(xv[i as int], yv, j as int),
            decreases ys@.len() - j,
        {
            let x = xs[i];
            let y = ys[j];
            assert(xv[i as int] == x@);
            assert(yv[j as int] == y@);
            if x.stmt_id.0 < y.stmt_id.0 {
                assert(alias_ok(xv[i as int], yv[j as int]));
                if x.may_alias(y) {
                    proof {
                        lemma_pairs_push(deps@, x, y);
                    }
                    deps.push((x, y));
                }
            }
            assert(pairs_view(deps@) =~= before + ordered_row(xv[i as int], yv, j + 1));
            j = j + 1;
        }
        assert(pairs_view(deps@) =~= ordered_pairs(xv, yv, i + 1));
        i = i + 1;
    }
    deps
}

} // verus!
