//! Affine domains: sets of integer points cut out by affine constraints,
//! with iterator dimensions followed by parameter dimensions.

use vstd::prelude::*;
use crate::arith::{dot, dot_fits, dot_prefix, fits_i64, i64_div, trunc_div, zip_len};
use crate::ir::vecs::{copy_i64s, i64s_equal, i64s_negated, negates, zeros};

verus! {

/// Type of affine constraint.
#[derive(Debug, Clone, Copy, PartialEq, Eq, Structural)]
pub enum ConstraintType {
    /// Equality constraint: a·x = b
    Equality,
    /// Inequality constraint: a·x >= b
    Inequality,
}

/// Single affine constraint: `a·x >= b` or `a·x = b`.
#[derive(Debug)]
pub struct AffineConstraint {
    /// Coefficients for each dimension (iterators + parameters).
    pub coefficients: Vec<i64>,
    /// Constant term.
    pub constant: i64,
    /// Constraint type.
    pub ctype: ConstraintType,
}

/// Mathematical model of a constraint.
pub struct ConstraintModel {
    pub coefficients: Seq<i64>,
    pub constant: i64,
    pub ctype: ConstraintType,
}

impl View for AffineConstraint {
    type V = ConstraintModel;

    open spec fn view(&self) -> ConstraintModel {
        ConstraintModel { coefficients: self.coefficients@, constant: self.constant, ctype: self.ctype }
    }
}

/// A point satisfies a constraint (the dot product runs over the shared prefix).
pub open spec fn satisfies(c: ConstraintModel, p: Seq<i64>) -> bool {
    match c.ctype {
        ConstraintType::Inequality => dot(c.coefficients, p) >= c.constant,
        ConstraintType::Equality => dot(c.coefficients, p) == c.constant,
    }
}

/// The dot product of the constraint with `p` can be evaluated without overflow.
pub open spec fn constraint_fits(c: ConstraintModel, p: Seq<i64>) -> bool {
    dot_fits(c.coefficients, p)
}

/// Computes the dot product of two vectors over their shared prefix.
pub fn dot_i64(a: &Vec<i64>, b: &[i64]) -> (r: i64)
    requires
        dot_fits(a@, b@),
    ensures
        r == dot(a@, b@),
{
    let n: usize = if a.len() <= b.len() { a.len() } else { b.len() };
    let mut sum: i64 = 0;
    let mut i: usize = 0;
    while i < n
        invariant
            n == zip_len(a@, b@),
            n <= a@.len(),
            n <= b@.len(),
            i <= n,
            dot_fits(a@, b@),
            sum == dot_prefix(a@, b@, i as int),
        decreases n - i,
    {
        assert(fits_i64(a@[i as int] * b@[i as int]));
        assert(fits_i64(0 + dot_prefix(a@, b@, i + 1)));
        let prod = a[i] * b[i];
        sum = sum + prod;
        i = i + 1;
    }
    sum
}

impl Clone for AffineConstraint {
    fn clone(&self) -> (r: Self)
        ensures
            r@ == self@,
    {
        AffineConstraint { coefficients: copy_i64s(&self.coefficients), constant: self.constant, ctype: self.ctype }
    }
}

impl AffineConstraint {
    /// `sum(coeff[i] * x[i]) >= constant`.
    pub fn inequality(coefficients: Vec<i64>, constant: i64) -> (r: Self)
        ensures
            r@ == (ConstraintModel { coefficients: coefficients@, constant, ctype: ConstraintType::Inequality }),
    {
        AffineConstraint { coefficients, constant, ctype: ConstraintType::Inequality }
    }

    /// `sum(coeff[i] * x[i]) = constant`.
    pub fn equality(coefficients: Vec<i64>, constant: i64) -> (r: Self)
        ensures
            r@ == (ConstraintModel { coefficients: coefficients@, constant, ctype: ConstraintType::Equality }),
    {
        AffineConstraint { coefficients, constant, ctype: ConstraintType::Equality }
    }

    /// Number of dimensions this constraint operates on.
    pub fn dims(&self) -> (r: usize)
        ensures
            r == self.coefficients@.len(),
    {
        self.coefficients.len()
    }

    /// Whether a point satisfies this constraint.
    pub fn contains(&self, point: &[i64]) -> (r: bool)
        requires
            constraint_fits(self@, point@),
        ensures
            r == satisfies(self@, point@),
    {
        let sum = dot_i64(&self.coefficients, point);
        match self.ctype {
            ConstraintType::Inequality => sum >= self.constant,
            ConstraintType::Equality => sum == self.constant,
        }
    }
}

/// Affine domain: the integer points satisfying all its constraints.
#[derive(Debug)]
pub struct AffineDomain {
    /// Total number of dimensions (iterators + parameters).
    pub dims: usize,
    /// Number of iterator dimensions.
    pub n_iter: usize,
    /// Number of parameter dimensions.
    pub n_param: usize,
    /// Affine constraints defining the domain.
    pub constraints: Vec<AffineConstraint>,
    /// Optional name for debugging.
    pub name: Option<String>,
}

/// Mathematical model of a domain.
pub struct DomainModel {
    pub dims: nat,
    pub n_iter: nat,
    pub n_param: nat,
    pub constraints: Seq<ConstraintModel>,
    pub name: Option<Seq<char>>,
}

pub open spec fn name_view(n: Option<String>) -> Option<Seq<char>> {
    match n {
        Some(s) => Some(s@),
        None => None,
    }
}

pub open spec fn constraints_view(cs: Seq<AffineConstraint>) -> Seq<ConstraintModel> {
    cs.map_values(|c: AffineConstraint| c@)
}

impl View for AffineDomain {
    type V = DomainModel;

    open spec fn view(&self) -> DomainModel {
        DomainModel {
            dims: self.dims as nat,
            n_iter: self.n_iter as nat,
            n_param: self.n_param as nat,
            constraints: constraints_view(self.constraints@),
            name: name_view(self.name),
        }
    }
}

/// Membership: the point has the domain's arity and satisfies every constraint.
pub open spec fn domain_contains(d: DomainModel, p: Seq<i64>) -> bool {
    p.len() == d.dims && forall|i: int| 0 <= i < d.constraints.len() ==> #[trigger] satisfies(d.constraints[i], p)
}

/// The constraints of `a`, in order, that `b` also holds: a constraint of
/// both holds at every point of either domain.
pub open spec fn shared_constraints(a: Seq<ConstraintModel>, b: Seq<ConstraintModel>) -> Seq<ConstraintModel>
    decreases a.len(),
{
    if a.len() == 0 {
        Seq::empty()
    } else if b.contains(a.last()) {
        shared_constraints(a.drop_last(), b).push(a.last())
    } else {
        shared_constraints(a.drop_last(), b)
    }
}

/// Each shared constraint is a constraint of both.
pub proof fn lemma_shared_in_both(a: Seq<ConstraintModel>, b: Seq<ConstraintModel>, k: int)
    requires
        0 <= k < shared_constraints(a, b).len(),
    ensures
        exists|j: int| 0 <= j < a.len() && a[j] == shared_constraints(a, b)[k],
        exists|j: int| 0 <= j < b.len() && b[j] == shared_constraints(a, b)[k],
    decreases a.len(),
{
    if a.len() > 0 {
        let s = shared_constraints(a.drop_last(), b);
        if b.contains(a.last()) && k == s.len() {
            assert(a[a.len() - 1] == a.last());
        } else {
            lemma_shared_in_both(a.drop_last(), b, k);
            let j = choose|j: int| 0 <= j < a.drop_last().len() && a.drop_last()[j] == s[k];
            assert(a[j] == a.drop_last()[j]);
        }
    }
}

/// Checking membership never overflows: every constraint that is evaluated
/// (all earlier ones held) has a dot product that fits.
pub open spec fn contains_fits(d: DomainModel, p: Seq<i64>) -> bool {
    p.len() == d.dims ==> forall|i: int|
        0 <= i < d.constraints.len() && (forall|j: int| 0 <= j < i ==> satisfies(d.constraints[j], p))
            ==> #[trigger] constraint_fits(d.constraints[i], p)
}

/// Two constraints that cannot hold together by the direct syntactic test:
/// identical coefficients with clashing constants, or negated coefficients
/// of two inequalities whose bounds cross.
pub open spec fn contradictory(c1: ConstraintModel, c2: ConstraintModel) -> bool {
    if c1.coefficients == c2.coefficients {
        match (c1.ctype, c2.ctype) {
            (ConstraintType::Inequality, ConstraintType::Inequality) => false,
            (ConstraintType::Equality, ConstraintType::Equality) => c1.constant != c2.constant,
            (ConstraintType::Equality, ConstraintType::Inequality) => c1.constant < c2.constant,
            (ConstraintType::Inequality, ConstraintType::Equality) => c2.constant < c1.constant,
        }
    } else if negates(c1.coefficients, c2.coefficients) {
        c1.ctype == ConstraintType::Inequality && c2.ctype == ConstraintType::Inequality && c1.constant
            > -c2.constant
    } else {
        false
    }
}

/// The domain is detected empty: some pair of its constraints contradict.
pub open spec fn detected_empty(cs: Seq<ConstraintModel>) -> bool {
    exists|i: int, j: int| 0 <= i < j < cs.len() && #[trigger] contradictory(cs[i], cs[j]) && i == i && j == j
}

/// Emptiness detection is sound: a domain whose constraints contradict
/// has no point.
pub proof fn lemma_detected_empty_no_point(d: DomainModel, p: Seq<i64>)
    requires
        detected_empty(d.constraints),
    ensures
        !domain_contains(d, p),
{
    if domain_contains(d, p) {
        let (i, j) = choose|i: int, j: int| 0 <= i < j < d.constraints.len() && #[trigger] contradictory(d.constraints[i], d.constraints[j]) && i == i && j == j;
        assert(satisfies(d.constraints[i], p));
        assert(satisfies(d.constraints[j], p));
        lemma_contradictory_unsatisfiable(d.constraints[i], d.constraints[j], p);
    }
}

/// Whether two constraints contradict does not depend on their order.
pub proof fn lemma_contradictory_symmetric(c1: ConstraintModel, c2: ConstraintModel)
    ensures
        contradictory(c1, c2) == contradictory(c2, c1),
{
}

/// Detecting emptiness does not depend on which list of constraints comes
/// first.
pub proof fn lemma_detected_empty_swap(a: Seq<ConstraintModel>, b: Seq<ConstraintModel>)
    ensures
        detected_empty(a + b) == detected_empty(b + a),
{
    assert forall|x: Seq<ConstraintModel>, y: Seq<ConstraintModel>|
        detected_empty(#[trigger] (x + y)) implies detected_empty(y + x) by {
        let (i, j) = choose|i: int, j: int| 0 <= i < j < (x + y).len() && #[trigger] contradictory((x + y)[i], (x + y)[j]) && i == i && j == j;
        let f = |k: int| if k < x.len() { k + y.len() } else { k - x.len() };
        let i2 = f(i);
        let j2 = f(j);
        assert((y + x)[i2] == (x + y)[i]);
        assert((y + x)[j2] == (x + y)[j]);
        lemma_contradictory_symmetric((x + y)[i], (x + y)[j]);
        if i2 < j2 {
            assert(contradictory((y + x)[i2], (y + x)[j2]) && i2 == i2 && j2 == j2);
        } else {
            assert(contradictory((y + x)[j2], (y + x)[i2]) && j2 == j2 && i2 == i2);
        }
    }
}

/// Direct contradictions really are unsatisfiable together.
pub proof fn lemma_contradictory_unsatisfiable(c1: ConstraintModel, c2: ConstraintModel, p: Seq<i64>)
    requires
        contradictory(c1, c2),
    ensures
        !(satisfies(c1, p) && satisfies(c2, p)),
{
    if c1.coefficients != c2.coefficients {
        lemma_dot_negated(c1.coefficients, c2.coefficients, p, zip_len(c1.coefficients, p));
        assert(zip_len(c1.coefficients, p) == zip_len(c2.coefficients, p));
    }
}

proof fn lemma_dot_negated(a: Seq<i64>, b: Seq<i64>, p: Seq<i64>, k: int)
    requires
        negates(a, b),
        0 <= k <= a.len(),
        k <= p.len(),
    ensures
        dot_prefix(a, p, k) == -dot_prefix(b, p, k),
    decreases k,
{
    if k > 0 {
        lemma_dot_negated(a, b, p, k - 1);
        assert(a[k - 1] * p[k - 1] == -(b[k - 1] * p[k - 1])) by (nonlinear_arith)
            requires a[k - 1] == -b[k - 1];
    }
}

/// Whether two constraints are directly contradictory.
fn are_contradictory(c1: &AffineConstraint, c2: &AffineConstraint) -> (r: bool)
    ensures
        r == contradictory(c1@, c2@),
{
    if i64s_equal(&c1.coefficients, &c2.coefficients) {
        match (c1.ctype, c2.ctype) {
            (ConstraintType::Inequality, ConstraintType::Inequality) => false,
            (ConstraintType::Equality, ConstraintType::Equality) => c1.constant != c2.constant,
            (ConstraintType::Equality, ConstraintType::Inequality) => c1.constant < c2.constant,
            (ConstraintType::Inequality, ConstraintType::Equality) => c2.constant < c1.constant,
        }
    } else if i64s_negated(&c1.coefficients, &c2.coefficients) {
        c1.ctype == ConstraintType::Inequality && c2.ctype == ConstraintType::Inequality
            && (c1.constant as i128) > -(c2.constant as i128)
    } else {
        false
    }
}

/// Copies a vector of constraints.
pub fn copy_constraints(cs: &Vec<AffineConstraint>) -> (r: Vec<AffineConstraint>)
    ensures
        constraints_view(r@) == constraints_view(cs@),
{
    let mut r: Vec<AffineConstraint> = Vec::new();
    let mut i: usize = 0;
    while i < cs.len()
        invariant
            i <= cs@.len(),
            constraints_view(r@) == constraints_view(cs@.subrange(0, i as int)),
        decreases cs@.len() - i,
    {
        let c = cs[i].clone();
        proof {
            lemma_views_push(r@, cs@, i as int, c);
        }
        r.push(c);
        i = i + 1;
    }
    assert(cs@.subrange(0, cs@.len() as int) =~= cs@);
    r
}

proof fn lemma_views_push(r: Seq<AffineConstraint>, cs: Seq<AffineConstraint>, i: int, c: AffineConstraint)
    requires
        0 <= i < cs.len(),
        c@ == cs[i]@,
    ensures
        constraints_view(r.push(c)) == constraints_view(r).push(c@),
        constraints_view(cs.subrange(0, i + 1)) == constraints_view(cs.subrange(0, i)).push(c@),
{
    assert(constraints_view(r.push(c)) =~= constraints_view(r).push(c@));
    assert(constraints_view(cs.subrange(0, i + 1)) =~= constraints_view(cs.subrange(0, i)).push(c@));
}

/// A copy of an optional string.
pub fn copy_name(n: &Option<String>) -> (r: Option<String>)
    ensures
        name_view(r) == name_view(*n),
{
    match n {
        Some(s) => Some(s.clone()),
        None => None,
    }
}

/// Whether the list holds a constraint equal to `c`.
fn constraint_in(c: &AffineConstraint, cs: &Vec<AffineConstraint>) -> (r: bool)
    ensures
        r == constraints_view(cs@).contains(c@),
{
    let mut i: usize = 0;
    while i < cs.len()
        invariant
            i <= cs@.len(),
            forall|j: int| 0 <= j < i ==> constraints_view(cs@)[j] != c@,
        decreases cs@.len() - i,
    {
        let d = &cs[i];
        if d.constant == c.constant && d.ctype == c.ctype && i64s_equal(&d.coefficients, &c.coefficients) {
            assert(constraints_view(cs@)[i as int] == c@);
            return true;
        }
        i = i + 1;
    }
    false
}

impl Clone for AffineDomain {
    fn clone(&self) -> (r: Self)
        ensures
            r@ == self@,
    {
        AffineDomain {
            dims: self.dims,
            n_iter: self.n_iter,
            n_param: self.n_param,
            constraints: copy_constraints(&self.constraints),
            name: copy_name(&self.name),
        }
    }
}

/// Indices below `hi` starting at `lo` that are not listed for removal.
pub open spec fn count_kept(rm: Seq<usize>, lo: int, hi: int) -> nat
    decreases hi - lo,
{
    if hi <= lo {
        0
    } else {
        count_kept(rm, lo, hi - 1) + if rm.contains((hi - 1) as usize) { 0nat } else { 1nat }
    }
}

/// A dimension below `dims` survives the projection.
pub open spec fn kept(rm: Seq<usize>, i: int) -> bool {
    !rm.contains(i as usize)
}

/// A constraint survives projection when it has no non-zero coefficient on a
/// removed dimension.
pub open spec fn survives(c: Seq<i64>, rm: Seq<usize>) -> bool {
    forall|i: int| 0 <= i < c.len() ==> c[i] == 0 || kept(rm, i)
}

/// The coefficients of the first `k` positions that are kept, in order.
pub open spec fn kept_coeffs(c: Seq<i64>, rm: Seq<usize>, k: int) -> Seq<i64>
    decreases k,
{
    if k <= 0 {
        Seq::empty()
    } else if kept(rm, k - 1) {
        kept_coeffs(c, rm, k - 1).push(c[k - 1])
    } else {
        kept_coeffs(c, rm, k - 1)
    }
}

/// The coefficients of a surviving constraint over the remaining dimensions:
/// the kept coefficients in order, padded with zeros to `new_dims`.
pub open spec fn remap_coeffs(c: Seq<i64>, rm: Seq<usize>, new_dims: nat) -> Seq<i64> {
    let k = kept_coeffs(c, rm, c.len() as int);
    k + Seq::new((new_dims - k.len()) as nat, |_i: int| 0i64)
}

/// The constraints of the projection of `cs`, in order.
pub open spec fn project_constraints(cs: Seq<ConstraintModel>, rm: Seq<usize>, new_dims: nat) -> Seq<ConstraintModel>
    decreases cs.len(),
{
    if cs.len() == 0 {
        Seq::empty()
    } else {
        let last = cs.last();
        let rest = project_constraints(cs.drop_last(), rm, new_dims);
        if survives(last.coefficients, rm) {
            rest.push(ConstraintModel {
                coefficients: remap_coeffs(last.coefficients, rm, new_dims),
                constant: last.constant,
                ctype: last.ctype,
            })
        } else {
            rest
        }
    }
}

/// Projection does not panic on this constraint: it either fits in `dims`
/// or is discarded for a non-zero coefficient on a removed dimension below `dims`.
pub open spec fn projectable(c: Seq<i64>, rm: Seq<usize>, dims: int) -> bool {
    c.len() <= dims || exists|i: int| 0 <= i < dims && i < c.len() && c[i] != 0 && !kept(rm, i)
}

proof fn lemma_kept_coeffs_len(c: Seq<i64>, rm: Seq<usize>, k: int)
    requires
        0 <= k,
    ensures
        kept_coeffs(c, rm, k).len() == count_kept(rm, 0, k),
    decreases k,
{
    if k > 0 {
        lemma_kept_coeffs_len(c, rm, k - 1);
    }
}

proof fn lemma_count_kept_bounds(rm: Seq<usize>, lo: int, hi: int)
    requires
        lo <= hi,
    ensures
        count_kept(rm, lo, hi) <= hi - lo,
    decreases hi - lo,
{
    if hi > lo {
        lemma_count_kept_bounds(rm, lo, hi - 1);
    }
}

proof fn lemma_count_kept_split(rm: Seq<usize>, lo: int, mid: int, hi: int)
    requires
        lo <= mid <= hi,
    ensures
        count_kept(rm, lo, hi) == count_kept(rm, lo, mid) + count_kept(rm, mid, hi),
    decreases hi - mid,
{
    if hi > mid {
        lemma_count_kept_split(rm, lo, mid, hi - 1);
    }
}

proof fn lemma_count_kept_mono(rm: Seq<usize>, k1: int, k2: int)
    requires
        0 <= k1 <= k2,
    ensures
        count_kept(rm, 0, k1) <= count_kept(rm, 0, k2),
{
    lemma_count_kept_split(rm, 0, k1, k2);
}

proof fn lemma_dot_prefix_agree(a: Seq<i64>, b: Seq<i64>, a2: Seq<i64>, b2: Seq<i64>, k: int)
    requires
        0 <= k,
        k <= a.len() && k <= b.len() && k <= a2.len() && k <= b2.len(),
        forall|i: int| 0 <= i < k ==> a[i] == a2[i] && b[i] == b2[i],
    ensures
        dot_prefix(a, b, k) == dot_prefix(a2, b2, k),
    decreases k,
{
    if k > 0 {
        lemma_dot_prefix_agree(a, b, a2, b2, k - 1);
    }
}

proof fn lemma_dot_prefix_zero_tail(a: Seq<i64>, b: Seq<i64>, m: int, k: int)
    requires
        0 <= m <= k,
        forall|i: int| m <= i < k ==> a[i] == 0,
    ensures
        dot_prefix(a, b, k) == dot_prefix(a, b, m),
    decreases k,
{
    if k > m {
        lemma_dot_prefix_zero_tail(a, b, m, k - 1);
        assert(a[k - 1] * b[k - 1] == 0) by (nonlinear_arith)
            requires a[k - 1] == 0;
    }
}

proof fn lemma_kept_coeffs_index(c: Seq<i64>, rm: Seq<usize>, k: int, k2: int, j: int)
    requires
        0 <= k <= k2,
        0 <= j < kept_coeffs(c, rm, k).len(),
    ensures
        kept_coeffs(c, rm, k2)[j] == kept_coeffs(c, rm, k)[j],
        j < kept_coeffs(c, rm, k2).len(),
    decreases k2 - k,
{
    if k2 > k {
        lemma_kept_coeffs_index(c, rm, k, k2 - 1, j);
    }
}

/// Over the first `k` positions, the kept coefficients against the kept
/// coordinates give the whole dot product, the dropped coefficients being
/// zero.
proof fn lemma_kept_dot(c: Seq<i64>, p: Seq<i64>, rm: Seq<usize>, k: int)
    requires
        0 <= k <= c.len(),
        k <= p.len(),
        survives(c, rm),
    ensures
        dot_prefix(kept_coeffs(c, rm, k), kept_coeffs(p, rm, k), count_kept(rm, 0, k) as int) == dot_prefix(c, p, k),
    decreases k,
{
    if k > 0 {
        lemma_kept_dot(c, p, rm, k - 1);
        lemma_kept_coeffs_len(c, rm, k - 1);
        lemma_kept_coeffs_len(p, rm, k - 1);
        lemma_kept_coeffs_len(c, rm, k);
        lemma_kept_coeffs_len(p, rm, k);
        let n0 = count_kept(rm, 0, k - 1) as int;
        lemma_dot_prefix_agree(kept_coeffs(c, rm, k), kept_coeffs(p, rm, k), kept_coeffs(c, rm, k - 1), kept_coeffs(p, rm, k - 1), n0);
        if kept(rm, k - 1) {
            assert(count_kept(rm, 0, k) == n0 + 1) by {
                assert(rm.contains((k - 1) as usize) == !kept(rm, k - 1));
            }
        } else {
            assert(count_kept(rm, 0, k) == n0) by {
                assert(rm.contains((k - 1) as usize));
            }
            assert(c[k - 1] == 0);
            assert(c[k - 1] * p[k - 1] == 0) by (nonlinear_arith)
                requires c[k - 1] == 0;
        }
    }
}

/// A surviving constraint, re-indexed, holds at the kept coordinates of a
/// point exactly when it held at the point.
proof fn lemma_remap_dot(c: Seq<i64>, p: Seq<i64>, rm: Seq<usize>, dims: int)
    requires
        c.len() <= dims,
        p.len() == dims,
        survives(c, rm),
    ensures
        dot(remap_coeffs(c, rm, count_kept(rm, 0, dims)), kept_coeffs(p, rm, dims)) == dot(c, p),
{
    let nd = count_kept(rm, 0, dims) as int;
    let m = count_kept(rm, 0, c.len() as int) as int;
    lemma_count_kept_mono(rm, c.len() as int, dims);
    lemma_kept_coeffs_len(c, rm, c.len() as int);
    lemma_kept_coeffs_len(p, rm, dims);
    lemma_kept_coeffs_len(p, rm, c.len() as int);
    let kc = kept_coeffs(c, rm, c.len() as int);
    let r = remap_coeffs(c, rm, nd as nat);
    let q = kept_coeffs(p, rm, dims);
    let q0 = kept_coeffs(p, rm, c.len() as int);
    assert(r.len() == nd);
    lemma_dot_prefix_zero_tail(r, q, m, nd);
    assert forall|i: int| 0 <= i < m implies r[i] == kc[i] && q[i] == q0[i] by {
        lemma_kept_coeffs_index(p, rm, c.len() as int, dims, i);
    }
    lemma_dot_prefix_agree(r, q, kc, q0, m);
    lemma_kept_dot(c, p, rm, c.len() as int);
}

/// Every constraint of a projection is a surviving constraint of the
/// original, re-indexed.
proof fn lemma_projected_from(cs: Seq<ConstraintModel>, rm: Seq<usize>, nd: nat, k: int)
    requires
        0 <= k < project_constraints(cs, rm, nd).len(),
    ensures
        exists|j: int| 0 <= j < cs.len() && survives(cs[j].coefficients, rm)
            && project_constraints(cs, rm, nd)[k] == (ConstraintModel {
                coefficients: remap_coeffs(cs[j].coefficients, rm, nd),
                constant: cs[j].constant,
                ctype: cs[j].ctype,
            }),
    decreases cs.len(),
{
    let rest = project_constraints(cs.drop_last(), rm, nd);
    if k < rest.len() {
        lemma_projected_from(cs.drop_last(), rm, nd, k);
        let j = choose|j: int| 0 <= j < cs.drop_last().len() && survives(cs.drop_last()[j].coefficients, rm)
            && rest[k] == (ConstraintModel {
                coefficients: remap_coeffs(cs.drop_last()[j].coefficients, rm, nd),
                constant: cs.drop_last()[j].constant,
                ctype: cs.drop_last()[j].ctype,
            });
        assert(cs[j] == cs.drop_last()[j]);
    } else {
        assert(cs[cs.len() - 1] == cs.last());
    }
}

/// Projection keeps membership: the kept coordinates of a point of the
/// domain are a point of its projection.
pub proof fn lemma_project_keeps_points(d: DomainModel, rm: Seq<usize>, p: Seq<i64>)
    requires
        domain_contains(d, p),
        forall|i: int| 0 <= i < d.constraints.len() ==> #[trigger] projectable(d.constraints[i].coefficients, rm, d.dims as int),
    ensures
        domain_contains(
            DomainModel {
                dims: count_kept(rm, 0, d.dims as int),
                n_iter: d.n_iter,
                n_param: d.n_param,
                constraints: project_constraints(d.constraints, rm, count_kept(rm, 0, d.dims as int)),
                name: None,
            },
            kept_coeffs(p, rm, d.dims as int),
        ),
{
    let nd = count_kept(rm, 0, d.dims as int);
    let pc = project_constraints(d.constraints, rm, nd);
    lemma_kept_coeffs_len(p, rm, d.dims as int);
    assert forall|k: int| 0 <= k < pc.len() implies #[trigger] satisfies(pc[k], kept_coeffs(p, rm, d.dims as int)) by {
        lemma_projected_from(d.constraints, rm, nd, k);
        let j = choose|j: int| 0 <= j < d.constraints.len() && survives(d.constraints[j].coefficients, rm)
            && pc[k] == (ConstraintModel {
                coefficients: remap_coeffs(d.constraints[j].coefficients, rm, nd),
                constant: d.constraints[j].constant,
                ctype: d.constraints[j].ctype,
            });
        assert(satisfies(d.constraints[j], p));
        let cj = d.constraints[j].coefficients;
        assert(projectable(cj, rm, d.dims as int));
        if cj.len() > d.dims {
            let i = choose|i: int| 0 <= i < d.dims && i < cj.len() && cj[i] != 0 && !kept(rm, i);
            assert(cj[i] == 0 || kept(rm, i));
        }
        lemma_remap_dot(cj, p, rm, d.dims as int);
    }
}

/// `true` when `x` occurs in `v`.
fn usizes_contain(v: &[usize], x: usize) -> (r: bool)
    ensures
        r == v@.contains(x),
{
    let mut i: usize = 0;
    while i < v.len()
        invariant
            i <= v@.len(),
            forall|j: int| 0 <= j < i ==> v@[j] != x,
        decreases v@.len() - i,
    {
        if v[i] == x {
            assert(v@[i as int] == x);
            return true;
        }
        i = i + 1;
    }
    false
}

/// Number of dimensions in `[lo, hi)` that are not removed.
fn count_kept_exec(rm: &[usize], lo: usize, hi: usize) -> (r: usize)
    requires
        lo <= hi,
    ensures
        r == count_kept(rm@, lo as int, hi as int),
{
    let mut k: usize = lo;
    let mut n: usize = 0;
    while k < hi
        invariant
            lo <= k <= hi,
            n == count_kept(rm@, lo as int, k as int),
            n <= k - lo,
        decreases hi - k,
    {
        if !usizes_contain(rm, k) {
            n = n + 1;
        }
        k = k + 1;
    }
    n
}

/// Whether a coefficient vector survives projection (short-circuits on the
/// first non-zero coefficient of a removed dimension).
fn survives_exec(c: &Vec<i64>, rm: &[usize]) -> (r: bool)
    ensures
        r == survives(c@, rm@),
{
    let mut i: usize = 0;
    while i < c.len()
        invariant
            i <= c@.len(),
            forall|j: int| 0 <= j < i ==> c@[j] == 0 || kept(rm@, j),
        decreases c@.len() - i,
    {
        if c[i] != 0 && usizes_contain(rm, i) {
            return false;
        }
        i = i + 1;
    }
    true
}

/// The remapped coefficients of a surviving constraint.
fn remap_exec(c: &Vec<i64>, rm: &[usize], new_dims: usize) -> (r: Vec<i64>)
    requires
        count_kept(rm@, 0, c@.len() as int) <= new_dims,
    ensures
        r@ == remap_coeffs(c@, rm@, new_dims as nat),
{
    let mut r: Vec<i64> = Vec::new();
    let mut i: usize = 0;
    while i < c.len()
        invariant
            i <= c@.len(),
            r@ == kept_coeffs(c@, rm@, i as int),
            count_kept(rm@, 0, c@.len() as int) <= new_dims,
        decreases c@.len() - i,
    {
        if !usizes_contain(rm, i) {
            r.push(c[i]);
        }
        i = i + 1;
    }
    proof {
        lemma_kept_coeffs_len(c@, rm@, c@.len() as int);
    }
    let ghost k = r@;
    while r.len() < new_dims
        invariant
            k.len() <= r@.len() <= new_dims,
            r@ == k + Seq::new((r@.len() - k.len()) as nat, |_i: int| 0i64),
        decreases new_dims - r@.len(),
    {
        r.push(0);
        assert(r@ =~= k + Seq::new((r@.len() - k.len()) as nat, |_i: int| 0i64));
    }
    r
}

impl AffineDomain {
    /// The unconstrained domain with the given dimensions.
    pub fn universe(n_iter: usize, n_param: usize) -> (r: Self)
        requires
            n_iter + n_param <= usize::MAX,
        ensures
            r@.dims == n_iter + n_param,
            r@.n_iter == n_iter,
            r@.n_param == n_param,
            r@.constraints.len() == 0,
            r@.name is None,
    {
        AffineDomain { dims: n_iter + n_param, n_iter, n_param, constraints: Vec::new(), name: None }
    }

    /// A domain from explicit constraints, each over all `n_iter + n_param` dimensions.
    pub fn new(n_iter: usize, n_param: usize, constraints: Vec<AffineConstraint>) -> (r: Self)
        requires
            n_iter + n_param <= usize::MAX,
            forall|i: int| 0 <= i < constraints@.len() ==> #[trigger] constraints@[i].coefficients@.len() == n_iter + n_param,
        ensures
            r@.dims == n_iter + n_param,
            r@.n_iter == n_iter,
            r@.n_param == n_param,
            r@.constraints == constraints_view(constraints@),
            r@.name is None,
    {
        AffineDomain { dims: n_iter + n_param, n_iter, n_param, constraints, name: None }
    }

    /// The same domain under a name.
    pub fn with_name(self, name: String) -> (r: Self)
        ensures
            r@ == (DomainModel { name: Some(name@), ..self@ }),
    {
        let mut d = self;
        d.name = Some(name);
        d
    }

    /// Adds a constraint over all of the domain's dimensions.
    pub fn add_constraint(&mut self, constraint: AffineConstraint)
        requires
            constraint.coefficients@.len() == old(self).dims,
        ensures
            final(self)@ == (DomainModel { constraints: old(self)@.constraints.push(constraint@), ..old(self)@ }),
    {
        self.constraints.push(constraint);
        proof {
            assert(constraints_view(self.constraints@) =~= constraints_view(old(self).constraints@).push(constraint@));
        }
    }

    /// Intersection: the constraints of both domains, unnamed.
    pub fn intersection(&self, other: &AffineDomain) -> (r: Self)
        requires
            self.dims == other.dims,
            self.n_iter == other.n_iter,
            self.n_param == other.n_param,
        ensures
            r@ == (DomainModel {
                dims: self@.dims,
                n_iter: self@.n_iter,
                n_param: self@.n_param,
                constraints: self@.constraints + other@.constraints,
                name: None,
            }),
            forall|p: Seq<i64>|
                #[trigger] domain_contains(r@, p) <==> domain_contains(self@, p) && domain_contains(other@, p),
    {
        let mut constraints = copy_constraints(&self.constraints);
        let mut i: usize = 0;
        let ghost start = constraints_view(constraints@);
        while i < other.constraints.len()
            invariant
                i <= other.constraints@.len(),
                start == constraints_view(self.constraints@),
                constraints_view(constraints@) == start + constraints_view(other.constraints@.subrange(0, i as int)),
            decreases other.constraints@.len() - i,
        {
            let c = other.constraints[i].clone();
            proof {
                lemma_views_push(Seq::empty(), other.constraints@, i as int, c);
                assert(constraints_view(other.constraints@.subrange(0, i + 1)) =~= constraints_view(other.constraints@.subrange(0, i as int)).push(c@));
                assert(constraints_view(constraints@.push(c)) =~= constraints_view(constraints@).push(c@));
            }
            constraints.push(c);
            i = i + 1;
        }
        assert(other.constraints@.subrange(0, other.constraints@.len() as int) =~= other.constraints@);
        let r = AffineDomain { dims: self.dims, n_iter: self.n_iter, n_param: self.n_param, constraints, name: None };
        proof {
            let a = self@.constraints;
            let b = other@.constraints;
            assert forall|p: Seq<i64>|
                #[trigger] domain_contains(r@, p) <==> domain_contains(self@, p) && domain_contains(other@, p) by {
                if domain_contains(r@, p) {
                    assert forall|i: int| 0 <= i < a.len() implies #[trigger] satisfies(a[i], p) by {
                        assert(r@.constraints[i] == a[i]);
                    }
                    assert forall|i: int| 0 <= i < b.len() implies #[trigger] satisfies(b[i], p) by {
                        assert(r@.constraints[a.len() + i] == b[i]);
                    }
                }
                if domain_contains(self@, p) && domain_contains(other@, p) {
                    assert forall|i: int| 0 <= i < r@.constraints.len() implies #[trigger] satisfies(r@.constraints[i], p) by {
                        if i < a.len() {
                            assert(r@.constraints[i] == a[i]);
                        } else {
                            assert(r@.constraints[i] == b[i - a.len()]);
                        }
                    }
                }
            }
        }
        r
    }

    /// Union, over-approximated: the constraints that appear in both
    /// domains, so that every point of either domain is in the result. This
    /// is coarser than the convex hull (for `0 <= x <= 5` and `3 <= x <= 10`,
    /// which share no constraint, it is the whole space).
    pub fn union(&self, other: &AffineDomain) -> (r: Self)
        requires
            self.dims == other.dims,
            self.n_iter == other.n_iter,
            self.n_param == other.n_param,
        ensures
            r@ == (DomainModel {
                dims: self@.dims,
                n_iter: self@.n_iter,
                n_param: self@.n_param,
                constraints: shared_constraints(self@.constraints, other@.constraints),
                name: None,
            }),
            forall|p: Seq<i64>|
                domain_contains(self@, p) || domain_contains(other@, p) ==> #[trigger] domain_contains(r@, p),
    {
        let mut constraints: Vec<AffineConstraint> = Vec::new();
        let mut i: usize = 0;
        while i < self.constraints.len()
            invariant
                i <= self.constraints@.len(),
                constraints_view(constraints@) == shared_constraints(
                    constraints_view(self.constraints@.subrange(0, i as int)),
                    other@.constraints,
                ),
            decreases self.constraints@.len() - i,
        {
            let c = &self.constraints[i];
            proof {
                lemma_views_push(Seq::empty(), self.constraints@, i as int, *c);
                assert(constraints_view(self.constraints@.subrange(0, i + 1)) =~= constraints_view(
                    self.constraints@.subrange(0, i as int),
                ).push(c@));
                let x = constraints_view(self.constraints@.subrange(0, i as int));
                assert(x.push(c@).drop_last() =~= x);
                assert(x.push(c@).last() == c@);
                assert(other@.constraints == constraints_view(other.constraints@));
            }
            if constraint_in(c, &other.constraints) {
                let d = c.clone();
                proof {
                    assert(constraints_view(constraints@.push(d)) =~= constraints_view(constraints@).push(d@));
                }
                constraints.push(d);
            }
            i = i + 1;
        }
        assert(self.constraints@.subrange(0, self.constraints@.len() as int) =~= self.constraints@);
        let r = AffineDomain { dims: self.dims, n_iter: self.n_iter, n_param: self.n_param, constraints, name: None };
        proof {
            assert forall|p: Seq<i64>|
                domain_contains(self@, p) || domain_contains(other@, p) implies #[trigger] domain_contains(r@, p) by {
                assert forall|k: int| 0 <= k < r@.constraints.len() implies #[trigger] satisfies(r@.constraints[k], p) by {
                    lemma_shared_in_both(self@.constraints, other@.constraints, k);
                    if domain_contains(self@, p) {
                        let j = choose|j: int| 0 <= j < self@.constraints.len() && self@.constraints[j] == r@.constraints[k];
                        assert(satisfies(self@.constraints[j], p));
                    } else {
                        let j = choose|j: int| 0 <= j < other@.constraints.len() && other@.constraints[j] == r@.constraints[k];
                        assert(satisfies(other@.constraints[j], p));
                    }
                }
            }
        }
        r
    }

    /// Projects out the listed dimensions: a constraint with a non-zero
    /// coefficient on a removed dimension is dropped, the others are re-indexed.
    pub fn project(&self, dims_to_remove: &[usize]) -> (r: Self)
        requires
            self.n_iter <= self.dims,
            forall|i: int| 0 <= i < self.constraints@.len() ==> #[trigger] projectable(
                self.constraints@[i].coefficients@,
                dims_to_remove@,
                self.dims as int,
            ),
        ensures
            r@.n_iter == count_kept(dims_to_remove@, 0, self.n_iter as int),
            r@.n_param == count_kept(dims_to_remove@, self.n_iter as int, self.dims as int),
            r@.dims == r@.n_iter + r@.n_param,
            r@.constraints == project_constraints(self@.constraints, dims_to_remove@, r@.dims),
            r@.dims == count_kept(dims_to_remove@, 0, self.dims as int),
            forall|p: Seq<i64>| #[trigger] domain_contains(self@, p) ==> domain_contains(
                r@,
                kept_coeffs(p, dims_to_remove@, self.dims as int),
            ),
            r@.name is None,
    {
        let new_n_iter = count_kept_exec(dims_to_remove, 0, self.n_iter);
        let new_n_param = count_kept_exec(dims_to_remove, self.n_iter, self.dims);
        proof {
            lemma_count_kept_split(dims_to_remove@, 0, self.n_iter as int, self.dims as int);
            lemma_count_kept_bounds(dims_to_remove@, 0, self.dims as int);
        }
        let new_dims = new_n_iter + new_n_param;
        let mut constraints: Vec<AffineConstraint> = Vec::new();
        let mut i: usize = 0;
        while i < self.constraints.len()
            invariant
                i <= self.constraints@.len(),
                new_dims == count_kept(dims_to_remove@, 0, self.dims as int),
                forall|j: int| 0 <= j < self.constraints@.len() ==> #[trigger] projectable(
                    self.constraints@[j].coefficients@,
                    dims_to_remove@,
                    self.dims as int,
                ),
                constraints_view(constraints@) == project_constraints(
                    constraints_view(self.constraints@.subrange(0, i as int)),
                    dims_to_remove@,
                    new_dims as nat,
                ),
            decreases self.constraints@.len() - i,
        {
            let c = &self.constraints[i];
            let ghost pre = constraints_view(self.constraints@.subrange(0, i as int));
            assert(constraints_view(self.constraints@.subrange(0, i + 1)).drop_last() =~= pre);
            if survives_exec(&c.coefficients, dims_to_remove) {
                proof {
                    assert(projectable(c.coefficients@, dims_to_remove@, self.dims as int));
                    assert(c.coefficients@.len() <= self.dims);
                    lemma_count_kept_mono(dims_to_remove@, c.coefficients@.len() as int, self.dims as int);
                }
                let coeffs = remap_exec(&c.coefficients, dims_to_remove, new_dims);
                let nc = AffineConstraint { coefficients: coeffs, constant: c.constant, ctype: c.ctype };
                proof {
                    assert(constraints_view(constraints@.push(nc)) =~= constraints_view(constraints@).push(nc@));
                }
                constraints.push(nc);
            }
            i = i + 1;
        }
        assert(self.constraints@.subrange(0, self.constraints@.len() as int) =~= self.constraints@);
        let r = AffineDomain { dims: new_dims, n_iter: new_n_iter, n_param: new_n_param, constraints, name: None };
        proof {
            {
                assert forall|p: Seq<i64>| #[trigger] domain_contains(self@, p) implies domain_contains(
                    r@,
                    kept_coeffs(p, dims_to_remove@, self.dims as int),
                ) by {
                    lemma_project_keeps_points(self@, dims_to_remove@, p);
                    let q = kept_coeffs(p, dims_to_remove@, self.dims as int);
                    let lm = DomainModel {
                        dims: count_kept(dims_to_remove@, 0, self.dims as int),
                        n_iter: self@.n_iter,
                        n_param: self@.n_param,
                        constraints: project_constraints(self@.constraints, dims_to_remove@, count_kept(dims_to_remove@, 0, self.dims as int)),
                        name: None,
                    };
                    assert(domain_contains(lm, q));
                    assert(r@.dims == lm.dims);
                    assert(r@.constraints == lm.constraints);
                    assert forall|i: int| 0 <= i < r@.constraints.len() implies #[trigger] satisfies(r@.constraints[i], q) by {
                        assert(satisfies(lm.constraints[i], q));
                    }
                }
            }
        }
        r
    }

    /// Sound but incomplete emptiness test: some pair of constraints is
    /// directly contradictory.
    pub fn is_empty(&self) -> (r: bool)
        ensures
            r == detected_empty(self@.constraints),
    {
        let n = self.constraints.len();
        let mut i: usize = 0;
        while i < n
            invariant
                n == self.constraints@.len(),
                i <= n,
                forall|a: int, b: int| 0 <= a < i && a < b < n ==> !contradictory(self@.constraints[a], self@.constraints[b]),
            decreases n - i,
        {
            let mut j: usize = i + 1;
            while j < n
                invariant
                    n == self.constraints@.len(),
                    i < n,
                    i + 1 <= j <= n,
                    forall|b: int| i < b < j ==> !contradictory(self@.constraints[i as int], self@.constraints[b]),
                decreases n - j,
            {
                if are_contradictory(&self.constraints[i], &self.constraints[j]) {
                    assert(contradictory(self@.constraints[i as int], self@.constraints[j as int]));
                    return true;
                }
                j = j + 1;
            }
            i = i + 1;
        }
        false
    }

    /// Whether a point lies in the domain.
    pub fn contains(&self, point: &[i64]) -> (r: bool)
        requires
            contains_fits(self@, point@),
        ensures
            r == domain_contains(self@, point@),
    {
        if point.len() != self.dims {
            return false;
        }
        let mut i: usize = 0;
        while i < self.constraints.len()
            invariant
                point@.len() == self.dims,
                contains_fits(self@, point@),
                i <= self.constraints@.len(),
                forall|j: int| 0 <= j < i ==> #[trigger] satisfies(self@.constraints[j], point@),
            decreases self.constraints@.len() - i,
        {
            assert(constraint_fits(self@.constraints[i as int], point@));
            if !self.constraints[i].contains(point) {
                return false;
            }
            i = i + 1;
        }
        true
    }

    /// Constant lower and upper bounds of an iterator, read off the last
    /// single-variable inequalities `c*x >= k`: with `c > 0` the lower bound
    /// `x >= k / c`, with `c < 0` the upper bound `x <= k / c` (the division
    /// by a negative coefficient turns the inequality), when both exist.
    pub fn iterator_bounds(&self, iter_dim: usize) -> (r: Option<(AffineExpr, AffineExpr)>)
        requires
            iter_dim < self.n_iter ==> forall|i: int| 0 <= i < self.constraints@.len() ==> bound_readable(
                #[trigger] self@.constraints[i],
                iter_dim as int,
            ),
        ensures
            r matches Some((lo, hi)) ==> iter_dim < self.n_iter && bounds_of(self@.constraints, iter_dim as int)
                == Some((lo.constant, hi.constant)) && lo.coefficients@.len() == 0 && hi.coefficients@.len() == 0,
            r is None ==> iter_dim >= self.n_iter || bounds_of(self@.constraints, iter_dim as int) is None,
    {
        if iter_dim >= self.n_iter {
            return None;
        }
        let mut lower: Option<i64> = None;
        let mut upper: Option<i64> = None;
        let mut i: usize = 0;
        while i < self.constraints.len()
            invariant
                i <= self.constraints@.len(),
                forall|k: int| 0 <= k < self.constraints@.len() ==> bound_readable(
                    #[trigger] self@.constraints[k],
                    iter_dim as int,
                ),
                lower == last_lower(self@.constraints.subrange(0, i as int), iter_dim as int),
                upper == last_upper(self@.constraints.subrange(0, i as int), iter_dim as int),
            decreases self.constraints@.len() - i,
        {
            let c = &self.constraints[i];
            let ghost cm = self@.constraints[i as int];
            assert(self@.constraints.subrange(0, i + 1).drop_last() =~= self@.constraints.subrange(0, i as int));
            assert(self@.constraints.subrange(0, i + 1).last() == cm);
            assert(bound_readable(cm, iter_dim as int));
            let coeff = c.coefficients[iter_dim];
            if coeff != 0 && only_on(&c.coefficients, iter_dim) {
                if coeff > 0 && c.ctype == ConstraintType::Inequality {
                    lower = Some(i64_div(c.constant, coeff));
                } else if coeff < 0 && c.ctype == ConstraintType::Inequality {
                    upper = Some(i64_div(c.constant, coeff));
                }
            }
            i = i + 1;
        }
        assert(self@.constraints.subrange(0, self@.constraints.len() as int) =~= self@.constraints);
        match (lower, upper) {
            (Some(l), Some(u)) => Some((AffineExpr::constant(l), AffineExpr::constant(u))),
            _ => None,
        }
    }
}

/// The constraint mentions only dimension `d`.
pub open spec fn only_dim(c: Seq<i64>, d: int) -> bool {
    forall|i: int| 0 <= i < c.len() && i != d ==> c[i] == 0
}

/// Reading a bound from this constraint cannot fail: it has a coefficient at
/// `d`, and dividing its constant by that coefficient cannot overflow.
pub open spec fn bound_readable(c: ConstraintModel, d: int) -> bool {
    d < c.coefficients.len() && !(c.constant == i64::MIN && c.coefficients[d] == -1)
}

/// The lower bound after scanning the constraints in order (the last one wins).
pub open spec fn last_lower(cs: Seq<ConstraintModel>, d: int) -> Option<i64>
    decreases cs.len(),
{
    if cs.len() == 0 {
        None
    } else {
        let c = cs.last();
        let k = c.coefficients[d];
        if k > 0 && only_dim(c.coefficients, d) && c.ctype == ConstraintType::Inequality {
            Some(trunc_div(c.constant as int, k as int) as i64)
        } else {
            last_lower(cs.drop_last(), d)
        }
    }
}

/// The upper bound after scanning the constraints in order (the last one wins).
pub open spec fn last_upper(cs: Seq<ConstraintModel>, d: int) -> Option<i64>
    decreases cs.len(),
{
    if cs.len() == 0 {
        None
    } else {
        let c = cs.last();
        let k = c.coefficients[d];
        if k < 0 && only_dim(c.coefficients, d) && c.ctype == ConstraintType::Inequality {
            Some(trunc_div(c.constant as int, k as int) as i64)
        } else {
            last_upper(cs.drop_last(), d)
        }
    }
}

/// Both bounds of iterator `d`, when both were found.
pub open spec fn bounds_of(cs: Seq<ConstraintModel>, d: int) -> Option<(i64, i64)> {
    match (last_lower(cs, d), last_upper(cs, d)) {
        (Some(l), Some(u)) => Some((l, u)),
        _ => None,
    }
}

/// Whether every coefficient other than the one at `d` is zero.
fn only_on(c: &Vec<i64>, d: usize) -> (r: bool)
    ensures
        r == only_dim(c@, d as int),
{
    let mut i: usize = 0;
    while i < c.len()
        invariant
            i <= c@.len(),
            forall|j: int| 0 <= j < i && j != d ==> c@[j] == 0,
        decreases c@.len() - i,
    {
        if i != d && c[i] != 0 {
            return false;
        }
        i = i + 1;
    }
    true
}

/// Affine expression: `sum(a_i * x_i) + c`.
#[derive(Debug)]
pub struct AffineExpr {
    pub coefficients: Vec<i64>,
    pub constant: i64,
}

impl Clone for AffineExpr {
    fn clone(&self) -> (r: Self)
        ensures
            r.coefficients@ == self.coefficients@,
            r.constant == self.constant,
    {
        AffineExpr { coefficients: copy_i64s(&self.coefficients), constant: self.constant }
    }
}

impl AffineExpr {
    pub fn constant(c: i64) -> (r: Self)
        ensures
            r.coefficients@.len() == 0,
            r.constant == c,
    {
        AffineExpr { coefficients: Vec::new(), constant: c }
    }

    /// `coeff * x_dim`.
    pub fn var(dim: usize, coeff: i64) -> (r: Self)
        requires
            dim < usize::MAX,
        ensures
            r.coefficients@ == Seq::new((dim + 1) as nat, |_i: int| 0i64).update(dim as int, coeff),
            r.constant == 0,
    {
        let mut coefficients = zeros(dim + 1);
        coefficients.set(dim, coeff);
        AffineExpr { coefficients, constant: 0 }
    }

    /// Value of the expression at a point (over the shared prefix).
    pub fn evaluate(&self, point: &[i64]) -> (r: i64)
        requires
            dot_fits(self.coefficients@, point@),
            fits_i64(dot(self.coefficients@, point@) + self.constant),
        ensures
            r == dot(self.coefficients@, point@) + self.constant,
    {
        dot_i64(&self.coefficients, point) + self.constant
    }
}

} // verus!
