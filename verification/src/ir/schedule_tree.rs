//! Schedule trees in the style of ISL: bands (loop nests), filters,
//! sequences, contexts, extensions and domain leaves.

use vstd::prelude::*;
use crate::ir::affine_domain::{AffineDomain, DomainModel, detected_empty};
use crate::ir::affine_map::{AffineMap, PieceModel};

verus! {

/// Unique identifier of a statement in the schedule.
#[derive(Debug, Clone, Copy, PartialEq, Eq, Structural, PartialOrd, Ord, Hash)]
pub struct StmtId(pub usize);

/// Node of a schedule tree.
#[derive(Debug)]
pub enum ScheduleNode {
    /// Multi-dimensional affine loop nest: one scheduling map per level.
    Band {
        /// Scheduling dimensions (one per loop level in the band).
        members: Vec<AffineMap>,
        /// Whether the iterations of each level may run in parallel.
        coincident: Vec<bool>,
        child: Box<ScheduleNode>,
    },
    /// Restriction of the domain to a subset.
    Filter { domain: AffineDomain, child: Box<ScheduleNode> },
    /// Children executed one after the other.
    Sequence { children: Vec<ScheduleNode> },
    /// Constraints on the parameters.
    Context { domain: AffineDomain, child: Box<ScheduleNode> },
    /// Leaf: the instances of one statement.
    Domain { stmt_id: StmtId, domain: AffineDomain },
    /// Expansion (tiling, unrolling) with its sizes.
    Extension { sizes: Vec<usize>, child: Box<ScheduleNode> },
    /// No-op.
    Empty,
}

/// Schedule validation errors.
#[derive(Debug, Clone, Copy, PartialEq, Eq, Structural)]
pub enum ScheduleValidationError {
    EmptyBand,
    CoincidentLengthMismatch,
    BandDimensionMismatch,
    EmptyFilterDomain,
    EmptySequence,
    EmptyContextDomain,
    EmptyDomainNode,
    MaxDepthExceeded,
}

/// Nesting depth beyond which validation gives up.
pub const MAX_SCHEDULE_DEPTH: usize = 100;

/// The scheduling maps of a band, as piece sequences.
pub open spec fn maps_view(ms: Seq<AffineMap>) -> Seq<Seq<PieceModel>> {
    ms.map_values(|m: AffineMap| m@)
}

/// The statement domains of a subtree, left to right.
pub open spec fn domains_of(n: ScheduleNode) -> Seq<(usize, DomainModel)>
    decreases n,
{
    match n {
        ScheduleNode::Band { child, .. } => domains_of(*child),
        ScheduleNode::Filter { child, .. } => domains_of(*child),
        ScheduleNode::Sequence { children } => domains_of_all(children@),
        ScheduleNode::Context { child, .. } => domains_of(*child),
        ScheduleNode::Domain { stmt_id, domain } => seq![(stmt_id.0, domain@)],
        ScheduleNode::Extension { child, .. } => domains_of(*child),
        ScheduleNode::Empty => Seq::empty(),
    }
}

/// The statement domains of a list of subtrees, in order.
pub open spec fn domains_of_all(cs: Seq<ScheduleNode>) -> Seq<(usize, DomainModel)>
    decreases cs,
{
    if cs.len() == 0 {
        Seq::empty()
    } else {
        domains_of_all(cs.drop_last()) + domains_of(cs.last())
    }
}

/// The band members of a subtree, outermost first, left to right.
pub open spec fn bands_of(n: ScheduleNode) -> Seq<Seq<Seq<PieceModel>>>
    decreases n,
{
    match n {
        ScheduleNode::Band { members, child, .. } => seq![maps_view(members@)] + bands_of(*child),
        ScheduleNode::Filter { child, .. } => bands_of(*child),
        ScheduleNode::Sequence { children } => bands_of_all(children@),
        ScheduleNode::Context { child, .. } => bands_of(*child),
        ScheduleNode::Extension { child, .. } => bands_of(*child),
        ScheduleNode::Domain { .. } => Seq::empty(),
        ScheduleNode::Empty => Seq::empty(),
    }
}

/// The band members of a list of subtrees, in order.
pub open spec fn bands_of_all(cs: Seq<ScheduleNode>) -> Seq<Seq<Seq<PieceModel>>>
    decreases cs,
{
    if cs.len() == 0 {
        Seq::empty()
    } else {
        bands_of_all(cs.drop_last()) + bands_of(cs.last())
    }
}

/// Input dimensions of a scheduling map: those of its first piece's domain.
pub open spec fn map_input_dims(m: Seq<PieceModel>) -> nat {
    m[0].domain.dims
}

/// Some member (with a piece) has other input dimensions than the first.
pub open spec fn band_mismatch(ms: Seq<Seq<PieceModel>>) -> bool {
    exists|k: int| 0 <= k < ms.len() && ms[k].len() > 0 && #[trigger] map_input_dims(ms[k]) != map_input_dims(ms[0])
}

/// The dimension check of a band reads the first piece of every member it
/// reaches: the first, and every one before which all matched.
pub open spec fn band_readable(ms: Seq<Seq<PieceModel>>) -> bool {
    &&& ms[0].len() > 0
    &&& forall|k: int| 0 <= k < ms.len() && (forall|j: int| 0 <= j < k ==> map_input_dims(#[trigger] ms[j]) == map_input_dims(ms[0]))
        ==> (#[trigger] ms[k]).len() > 0
}

/// The first error that validation reports for a node at the given depth.
pub open spec fn validate_at(n: ScheduleNode, depth: int) -> Option<ScheduleValidationError>
    decreases n,
{
    if depth > MAX_SCHEDULE_DEPTH {
        Some(ScheduleValidationError::MaxDepthExceeded)
    } else {
        match n {
            ScheduleNode::Band { members, coincident, child } => {
                if members@.len() == 0 {
                    Some(ScheduleValidationError::EmptyBand)
                } else if members@.len() != coincident@.len() {
                    Some(ScheduleValidationError::CoincidentLengthMismatch)
                } else if band_mismatch(maps_view(members@)) {
                    Some(ScheduleValidationError::BandDimensionMismatch)
                } else {
                    validate_at(*child, depth + 1)
                }
            },
            ScheduleNode::Filter { domain, child } => {
                if detected_empty(domain@.constraints) {
                    Some(ScheduleValidationError::EmptyFilterDomain)
                } else {
                    validate_at(*child, depth + 1)
                }
            },
            ScheduleNode::Sequence { children } => {
                if children@.len() == 0 {
                    Some(ScheduleValidationError::EmptySequence)
                } else {
                    validate_all(children@, depth + 1)
                }
            },
            ScheduleNode::Context { domain, child } => {
                if detected_empty(domain@.constraints) {
                    Some(ScheduleValidationError::EmptyContextDomain)
                } else {
                    validate_at(*child, depth + 1)
                }
            },
            ScheduleNode::Domain { domain, .. } => {
                if detected_empty(domain@.constraints) {
                    Some(ScheduleValidationError::EmptyDomainNode)
                } else {
                    None
                }
            },
            ScheduleNode::Extension { child, .. } => validate_at(*child, depth + 1),
            ScheduleNode::Empty => None,
        }
    }
}

/// The first error among a list of children, checked in order.
pub open spec fn validate_all(cs: Seq<ScheduleNode>, depth: int) -> Option<ScheduleValidationError>
    decreases cs,
{
    if cs.len() == 0 {
        None
    } else {
        match validate_all(cs.drop_last(), depth) {
            Some(e) => Some(e),
            None => validate_at(cs.last(), depth),
        }
    }
}

/// Validation reads the first piece of each band member it reaches.
pub open spec fn validate_safe(n: ScheduleNode, depth: int) -> bool
    decreases n,
{
    if depth > MAX_SCHEDULE_DEPTH {
        true
    } else {
        match n {
            ScheduleNode::Band { members, coincident, child } => {
                members@.len() > 0 && members@.len() == coincident@.len() ==> {
                    &&& band_readable(maps_view(members@))
                    &&& !band_mismatch(maps_view(members@)) ==> validate_safe(*child, depth + 1)
                }
            },
            ScheduleNode::Filter { domain, child } => !detected_empty(domain@.constraints) ==> validate_safe(*child, depth + 1),
            ScheduleNode::Sequence { children } => validate_all_safe(children@, depth + 1),
            ScheduleNode::Context { domain, child } => !detected_empty(domain@.constraints) ==> validate_safe(*child, depth + 1),
            ScheduleNode::Extension { child, .. } => validate_safe(*child, depth + 1),
            ScheduleNode::Domain { .. } => true,
            ScheduleNode::Empty => true,
        }
    }
}

/// Validation of a list of children is safe up to its first error.
pub open spec fn validate_all_safe(cs: Seq<ScheduleNode>, depth: int) -> bool
    decreases cs,
{
    if cs.len() == 0 {
        true
    } else {
        validate_all_safe(cs.drop_last(), depth) && (validate_all(cs.drop_last(), depth) is None ==> validate_safe(cs.last(), depth))
    }
}

/// A `(statement, domain)` list as values.
pub open spec fn entries_view(s: Seq<(StmtId, AffineDomain)>) -> Seq<(usize, DomainModel)> {
    s.map_values(|e: (StmtId, AffineDomain)| (e.0.0, e.1@))
}

/// A list of borrowed bands as values.
pub open spec fn bands_view(s: Seq<&Vec<AffineMap>>) -> Seq<Seq<Seq<PieceModel>>> {
    s.map_values(|b: &Vec<AffineMap>| maps_view(b@))
}

proof fn lemma_entries_push(s: Seq<(StmtId, AffineDomain)>, e: (StmtId, AffineDomain))
    ensures
        entries_view(s.push(e)) == entries_view(s).push((e.0.0, e.1@)),
{
    assert(entries_view(s.push(e)) =~= entries_view(s).push((e.0.0, e.1@)));
}

proof fn lemma_bands_push(s: Seq<&Vec<AffineMap>>, b: &Vec<AffineMap>)
    ensures
        bands_view(s.push(b)) == bands_view(s).push(maps_view(b@)),
{
    assert(bands_view(s.push(b)) =~= bands_view(s).push(maps_view(b@)));
}

impl ScheduleNode {
    /// A band node.
    pub fn band(members: Vec<AffineMap>, coincident: Vec<bool>, child: ScheduleNode) -> (r: Self)
        requires
            members@.len() == coincident@.len(),
        ensures
            r == (ScheduleNode::Band { members, coincident, child: Box::new(child) }),
    {
        ScheduleNode::Band { members, coincident, child: Box::new(child) }
    }

    /// A filter node.
    pub fn filter(domain: AffineDomain, child: ScheduleNode) -> (r: Self)
        ensures
            r == (ScheduleNode::Filter { domain, child: Box::new(child) }),
    {
        ScheduleNode::Filter { domain, child: Box::new(child) }
    }

    /// A sequence node.
    pub fn sequence(children: Vec<ScheduleNode>) -> (r: Self)
        ensures
            r == (ScheduleNode::Sequence { children }),
    {
        ScheduleNode::Sequence { children }
    }

    /// A context node.
    pub fn context(domain: AffineDomain, child: ScheduleNode) -> (r: Self)
        ensures
            r == (ScheduleNode::Context { domain, child: Box::new(child) }),
    {
        ScheduleNode::Context { domain, child: Box::new(child) }
    }

    /// A domain leaf.
    pub fn domain(stmt_id: StmtId, domain: AffineDomain) -> (r: Self)
        ensures
            r == (ScheduleNode::Domain { stmt_id, domain }),
    {
        ScheduleNode::Domain { stmt_id, domain }
    }

    /// An extension node.
    pub fn extension(sizes: Vec<usize>, child: ScheduleNode) -> (r: Self)
        ensures
            r == (ScheduleNode::Extension { sizes, child: Box::new(child) }),
    {
        ScheduleNode::Extension { sizes, child: Box::new(child) }
    }

    /// The empty node.
    pub fn empty() -> (r: Self)
        ensures
            r == ScheduleNode::Empty,
    {
        ScheduleNode::Empty
    }

    /// All domain leaves, left to right.
    pub fn collect_domains(&self) -> (r: Vec<(StmtId, AffineDomain)>)
        ensures
            entries_view(r@) == domains_of(*self),
    {
        let mut result: Vec<(StmtId, AffineDomain)> = Vec::new();
        self.collect_domains_rec(&mut result);
        assert(entries_view(Seq::<(StmtId, AffineDomain)>::empty()) =~= Seq::<(usize, DomainModel)>::empty());
        result
    }

    fn collect_domains_rec(&self, result: &mut Vec<(StmtId, AffineDomain)>)
        ensures
            entries_view(final(result)@) == entries_view(old(result)@) + domains_of(*self),
        decreases self,
    {
        match self {
            ScheduleNode::Band { child, .. } => child.collect_domains_rec(result),
            ScheduleNode::Filter { child, .. } => child.collect_domains_rec(result),
            ScheduleNode::Sequence { children } => {
                let ghost start = entries_view(result@);
                let mut i: usize = 0;
                assert(children@.subrange(0, 0) =~= Seq::<ScheduleNode>::empty());
                while i < children.len()
                    invariant
                        i <= children@.len(),
                        *self == (ScheduleNode::Sequence { children: *children }),
                        entries_view(result@) == start + domains_of_all(children@.subrange(0, i as int)),
                    decreases children@.len() - i,
                {
                    let ghost before = entries_view(result@);
                    proof {
                        assert(decreases_to!(*self => (*self)->children));
                        assert(decreases_to!(children => children@));
                        assert(decreases_to!(children@ => children@[i as int]));
                    }
                    children[i].collect_domains_rec(result);
                    proof {
                        let s = children@.subrange(0, i + 1);
                        assert(s.drop_last() =~= children@.subrange(0, i as int));
                        assert(s.last() == children@[i as int]);
                        assert(entries_view(result@) =~= start + domains_of_all(s));
                    }
                    i = i + 1;
                }
                assert(children@.subrange(0, children@.len() as int) =~= children@);
            },
            ScheduleNode::Context { child, .. } => child.collect_domains_rec(result),
            ScheduleNode::Domain { stmt_id, domain } => {
                let d = domain.clone();
                proof {
                    lemma_entries_push(result@, (*stmt_id, d));
                }
                result.push((*stmt_id, d));
                assert(entries_view(result@) =~= entries_view(old(result)@) + domains_of(*self));
            },
            ScheduleNode::Extension { child, .. } => child.collect_domains_rec(result),
            ScheduleNode::Empty => {
                assert(entries_view(result@) =~= entries_view(old(result)@) + domains_of(*self));
            },
        }
    }

    /// The members of every band, outermost first, left to right.
    pub fn collect_bands(&self) -> (r: Vec<&Vec<AffineMap>>)
        ensures
            bands_view(r@) == bands_of(*self),
    {
        let mut result: Vec<&Vec<AffineMap>> = Vec::new();
        self.collect_bands_rec(&mut result);
        assert(bands_view(Seq::<&Vec<AffineMap>>::empty()) =~= Seq::<Seq<Seq<PieceModel>>>::empty());
        result
    }

    fn collect_bands_rec<'a>(&'a self, result: &mut Vec<&'a Vec<AffineMap>>)
        ensures
            bands_view(final(result)@) == bands_view(old(result)@) + bands_of(*self),
        decreases self,
    {
        match self {
            ScheduleNode::Band { members, child, .. } => {
                proof {
                    lemma_bands_push(result@, members);
                }
                result.push(members);
                child.collect_bands_rec(result);
                assert(bands_view(result@) =~= bands_view(old(result)@) + bands_of(*self));
            },
            ScheduleNode::Filter { child, .. } => child.collect_bands_rec(result),
            ScheduleNode::Sequence { children } => {
                let ghost start = bands_view(result@);
                let mut i: usize = 0;
                assert(children@.subrange(0, 0) =~= Seq::<ScheduleNode>::empty());
                while i < children.len()
                    invariant
                        i <= children@.len(),
                        *self == (ScheduleNode::Sequence { children: *children }),
                        bands_view(result@) == start + bands_of_all(children@.subrange(0, i as int)),
                    decreases children@.len() - i,
                {
                    proof {
                        assert(decreases_to!(*self => (*self)->children));
                        assert(decreases_to!(children => children@));
                        assert(decreases_to!(children@ => children@[i as int]));
                    }
                    children[i].collect_bands_rec(result);
                    proof {
                        let s = children@.subrange(0, i + 1);
                        assert(s.drop_last() =~= children@.subrange(0, i as int));
                        assert(s.last() == children@[i as int]);
                        assert(bands_view(result@) =~= start + bands_of_all(s));
                    }
                    i = i + 1;
                }
                assert(children@.subrange(0, children@.len() as int) =~= children@);
            },
            ScheduleNode::Context { child, .. } => child.collect_bands_rec(result),
            ScheduleNode::Extension { child, .. } => child.collect_bands_rec(result),
            ScheduleNode::Domain { .. } => {
                assert(bands_view(result@) =~= bands_view(old(result)@) + bands_of(*self));
            },
            ScheduleNode::Empty => {
                assert(bands_view(result@) =~= bands_view(old(result)@) + bands_of(*self));
            },
        }
    }

    /// Checks that the tree is well formed; the first problem found is
    /// reported.
    pub fn validate(&self) -> (r: Result<(), ScheduleValidationError>)
        requires
            validate_safe(*self, 0),
        ensures
            r matches Err(e) ==> validate_at(*self, 0) == Some(e),
            r is Ok ==> validate_at(*self, 0) is None,
    {
        self.validate_rec(0)
    }

    fn validate_rec(&self, depth: usize) -> (r: Result<(), ScheduleValidationError>)
        requires
            validate_safe(*self, depth as int),
        ensures
            r matches Err(e) ==> validate_at(*self, depth as int) == Some(e),
            r is Ok ==> validate_at(*self, depth as int) is None,
        decreases self,
    {
        if depth > MAX_SCHEDULE_DEPTH {
            return Err(ScheduleValidationError::MaxDepthExceeded);
        }
        match self {
            ScheduleNode::Band { members, coincident, child } => {
                if members.len() == 0 {
                    return Err(ScheduleValidationError::EmptyBand);
                }
                if members.len() != coincident.len() {
                    return Err(ScheduleValidationError::CoincidentLengthMismatch);
                }
                let ghost ms = maps_view(members@);
                assert(ms[0] == members@[0]@);
                assert(members@[0].pieces@.len() > 0);
                let input_dims = members[0].pieces[0].domain.dims;
                assert(input_dims == map_input_dims(ms[0]));
                let mut k: usize = 0;
                while k < members.len()
                    invariant
                        k <= members@.len(),
                        depth <= MAX_SCHEDULE_DEPTH,
                        *self == (ScheduleNode::Band { members: *members, coincident: *coincident, child: *child }),
                        members@.len() == coincident@.len(),
                        ms == maps_view(members@),
                        ms.len() == members@.len(),
                        members@.len() > 0,
                        band_readable(ms),
                        input_dims == map_input_dims(ms[0]),
                        forall|j: int| 0 <= j < k ==> map_input_dims(#[trigger] ms[j]) == map_input_dims(ms[0]),
                    decreases members@.len() - k,
                {
                    assert(ms[k as int] == members@[k as int]@);
                    assert(ms[k as int].len() > 0);
                    if members[k].pieces[0].domain.dims != input_dims {
                        assert(band_mismatch(ms)) by {
                            assert(map_input_dims(ms[k as int]) != map_input_dims(ms[0]));
                        }
                        assert(validate_at(*self, depth as int) == Some(ScheduleValidationError::BandDimensionMismatch));
                        return Err(ScheduleValidationError::BandDimensionMismatch);
                    }
                    k = k + 1;
                }
                assert(!band_mismatch(ms)) by {
                    if band_mismatch(ms) {
                        let k0 = choose|k0: int| 0 <= k0 < ms.len() && ms[k0].len() > 0 && #[trigger] map_input_dims(ms[k0]) != map_input_dims(ms[0]);
                        assert(map_input_dims(ms[k0]) == map_input_dims(ms[0]));
                    }
                }
                child.validate_rec(depth + 1)
            },
            ScheduleNode::Filter { domain, child } => {
                if domain.is_empty() {
                    return Err(ScheduleValidationError::EmptyFilterDomain);
                }
                child.validate_rec(depth + 1)
            },
            ScheduleNode::Sequence { children } => {
                if children.len() == 0 {
                    return Err(ScheduleValidationError::EmptySequence);
                }
                let mut i: usize = 0;
                assert(children@.subrange(0, 0) =~= Seq::<ScheduleNode>::empty());
                while i < children.len()
                    invariant
                        i <= children@.len(),
                        depth <= MAX_SCHEDULE_DEPTH,
                        *self == (ScheduleNode::Sequence { children: *children }),
                        validate_all_safe(children@, depth + 1),
                        validate_all(children@.subrange(0, i as int), depth + 1) is None,
                    decreases children@.len() - i,
                {
                    proof {
                        lemma_validate_all_prefix(children@, depth + 1, i + 1);
                        let s = children@.subrange(0, i + 1);
                        assert(s.drop_last() =~= children@.subrange(0, i as int));
                        assert(s.last() == children@[i as int]);
                    }
                    proof {
                        assert(decreases_to!(children => children@));
                        assert(decreases_to!(children@ => children@[i as int]));
                    }
                    match children[i].validate_rec(depth + 1) {
                        Err(e) => {
                            proof {
                                lemma_validate_all_first_error(children@, depth + 1, i as int);
                                assert(validate_all(children@, depth + 1) == Some(e));
                                assert(validate_at(*self, depth as int) == Some(e));
                            }
                            return Err(e);
                        },
                        Ok(()) => {},
                    }
                    i = i + 1;
                }
                assert(children@.subrange(0, children@.len() as int) =~= children@);
                Ok(())
            },
            ScheduleNode::Context { domain, child } => {
                if domain.is_empty() {
                    return Err(ScheduleValidationError::EmptyContextDomain);
                }
                child.validate_rec(depth + 1)
            },
            ScheduleNode::Domain { domain, .. } => {
                if domain.is_empty() {
                    return Err(ScheduleValidationError::EmptyDomainNode);
                }
                Ok(())
            },
            ScheduleNode::Extension { child, .. } => child.validate_rec(depth + 1),
            ScheduleNode::Empty => Ok(()),
        }
    }
}

/// Safety of a list extends to its prefixes, element by element.
proof fn lemma_validate_all_prefix(cs: Seq<ScheduleNode>, depth: int, k: int)
    requires
        0 <= k <= cs.len(),
        validate_all_safe(cs, depth),
    ensures
        validate_all_safe(cs.subrange(0, k), depth),
    decreases cs.len() - k,
{
    if k < cs.len() {
        lemma_validate_all_prefix(cs, depth, k + 1);
        let s = cs.subrange(0, k + 1);
        assert(s.drop_last() =~= cs.subrange(0, k));
    } else {
        assert(cs.subrange(0, k) =~= cs);
    }
}

/// An error of the child at `i`, after children that passed, is the first
/// error of the whole list.
proof fn lemma_validate_all_first_error(cs: Seq<ScheduleNode>, depth: int, i: int)
    requires
        0 <= i < cs.len(),
        validate_all(cs.subrange(0, i), depth) is None,
        validate_at(cs[i], depth) is Some,
    ensures
        validate_all(cs, depth) == validate_at(cs[i], depth),
    decreases cs.len() - i,
{
    let s = cs.subrange(0, i + 1);
    assert(s.drop_last() =~= cs.subrange(0, i));
    assert(s.last() == cs[i]);
    lemma_validate_all_extend(cs, depth, i + 1);
}

/// Once a prefix has an error, every longer prefix reports the same one.
proof fn lemma_validate_all_extend(cs: Seq<ScheduleNode>, depth: int, k: int)
    requires
        0 <= k <= cs.len(),
        validate_all(cs.subrange(0, k), depth) is Some,
    ensures
        validate_all(cs, depth) == validate_all(cs.subrange(0, k), depth),
    decreases cs.len() - k,
{
    if k < cs.len() {
        let s = cs.subrange(0, k + 1);
        assert(s.drop_last() =~= cs.subrange(0, k));
        lemma_validate_all_extend(cs, depth, k + 1);
    } else {
        assert(cs.subrange(0, k) =~= cs);
    }
}

/// A schedule tree and its symbolic parameters.
#[derive(Debug)]
pub struct ScheduleTree {
    pub root: ScheduleNode,
    /// Parameters (symbolic constants) used in the schedule.
    pub parameters: Vec<String>,
}

impl ScheduleTree {
    pub fn new(root: ScheduleNode, parameters: Vec<String>) -> (r: Self)
        ensures
            r == (ScheduleTree { root, parameters }),
    {
        ScheduleTree { root, parameters }
    }

    /// Validates the root.
    pub fn validate(&self) -> (r: Result<(), ScheduleValidationError>)
        requires
            validate_safe(self.root, 0),
        ensures
            r matches Err(e) ==> validate_at(self.root, 0) == Some(e),
            r is Ok ==> validate_at(self.root, 0) is None,
    {
        self.root.validate()
    }

    /// The domain leaves of the root.
    pub fn collect_domains(&self) -> (r: Vec<(StmtId, AffineDomain)>)
        ensures
            entries_view(r@) == domains_of(self.root),
    {
        self.root.collect_domains()
    }
}

} // verus!
