//! Well-formedness checks for PIR modules, domains, maps, schedules and
//! access relations.

use vstd::prelude::*;
use crate::ast::Quantity;
use crate::ir::access_relation::{
    AccessModel, AccessRelation, AccessRelations, alias_model, alias_ok, relations_view, writes_model,
};
use crate::ir::affine_domain::{AffineDomain, DomainModel, detected_empty};
use crate::ir::affine_map::AffineMap;
use crate::ir::pir_types::{
    PirModule, PirStatement, ValidationError, ValidationIssue, contains_var, counts_fit, issues_view,
    linear_errors, schedule_errors, total_count, unscheduled_errors, zero_errors, zero_errors_for,
    expr_contains_var,
};
use crate::ir::schedule_tree::{
    ScheduleNode, ScheduleTree, StmtId, domains_of, entries_view, validate_safe,
};
use crate::text::{concat, decimal, u64_to_decimal};

verus! {

/// How a statement is named in messages: `S` and its number.
pub open spec fn stmt_text(id: usize) -> Seq<char> {
    "S"@ + decimal(id as nat)
}

/// `S` and the statement's number.
pub fn stmt_label(id: StmtId) -> (r: String)
    ensures
        r@ == stmt_text(id.0),
{
    let digits = u64_to_decimal(id.0 as u64);
    concat("S", digits.as_str())
}

/// `before`, the statement's label, `after`.
fn stmt_message(before: &str, id: StmtId, after: &str) -> (r: String)
    ensures
        r@ == before@ + stmt_text(id.0) + after@,
{
    let label = stmt_label(id);
    let head = concat(before, label.as_str());
    concat(head.as_str(), after)
}

/// `before`, a number, `after`.
fn number_message(before: &str, n: usize, after: &str) -> (r: String)
    ensures
        r@ == before@ + decimal(n as nat) + after@,
{
    let digits = u64_to_decimal(n as u64);
    let head = concat(before, digits.as_str());
    concat(head.as_str(), after)
}

/// Index of the first statement at or after `from` with the given id.
pub open spec fn first_with_id(stmts: Seq<PirStatement>, id: usize, from: int) -> Option<int>
    decreases stmts.len() - from,
{
    if from < 0 || from >= stmts.len() {
        None
    } else if stmts[from].id.0 == id {
        Some(from)
    } else {
        first_with_id(stmts, id, from + 1)
    }
}

/// Some statement has the given id.
pub open spec fn has_stmt(stmts: Seq<PirStatement>, id: usize) -> bool {
    first_with_id(stmts, id, 0) is Some
}

/// Statements whose id already occurred among the first `k`.
pub open spec fn duplicate_errors(stmts: Seq<PirStatement>, k: int) -> Seq<ValidationIssue>
    decreases k,
{
    if k <= 0 {
        Seq::empty()
    } else if has_stmt(stmts.subrange(0, k - 1), stmts[k - 1].id.0) {
        duplicate_errors(stmts, k - 1).push(ValidationIssue::DuplicateStatementId(stmts[k - 1].id.0))
    } else {
        duplicate_errors(stmts, k - 1)
    }
}

/// The shape of two domains differs.
pub open spec fn shape_differs(a: DomainModel, b: DomainModel) -> bool {
    a.dims != b.dims || a.n_iter != b.n_iter || a.n_param != b.n_param
}

/// Accesses (among the first `k`) of a missing statement, or whose domain
/// has another shape than the first statement with their id.
pub open spec fn access_errors(stmts: Seq<PirStatement>, accs: Seq<AccessModel>, k: int) -> Seq<ValidationIssue>
    decreases k,
{
    if k <= 0 {
        Seq::empty()
    } else {
        let a = accs[k - 1];
        let rest = access_errors(stmts, accs, k - 1);
        if !has_stmt(stmts, a.stmt_id) {
            rest.push(ValidationIssue::AccessDomainMismatch(a.stmt_id))
        } else if shape_differs(a.domain, stmts[first_with_id(stmts, a.stmt_id, 0)->0].domain@) {
            rest.push(ValidationIssue::AccessDomainMismatch(a.stmt_id))
        } else {
            rest
        }
    }
}

/// Statements (among the first `k`) whose domain is detected empty.
pub open spec fn empty_domain_errors(stmts: Seq<PirStatement>, k: int) -> Seq<ValidationIssue>
    decreases k,
{
    if k <= 0 {
        Seq::empty()
    } else if detected_empty(stmts[k - 1].domain@.constraints) {
        empty_domain_errors(stmts, k - 1).push(ValidationIssue::ScheduleError(
            "Statement "@ + stmt_text(stmts[k - 1].id.0) + " has empty domain"@,
        ))
    } else {
        empty_domain_errors(stmts, k - 1)
    }
}

/// Accesses (among the first `k`) whose map has no piece.
pub open spec fn empty_map_errors(accs: Seq<AccessModel>, k: int) -> Seq<ValidationIssue>
    decreases k,
{
    if k <= 0 {
        Seq::empty()
    } else if accs[k - 1].map.len() == 0 {
        empty_map_errors(accs, k - 1).push(ValidationIssue::ScheduleError(
            "Access for statement "@ + stmt_text(accs[k - 1].stmt_id) + " has empty map"@,
        ))
    } else {
        empty_map_errors(accs, k - 1)
    }
}

/// The problems of one scheduled domain: no statement, empty domain.
pub open spec fn coverage_error(stmts: Seq<PirStatement>, e: (usize, DomainModel)) -> Seq<ValidationIssue> {
    let missing: Seq<ValidationIssue> = if !has_stmt(stmts, e.0) {
        seq![ValidationIssue::ScheduleError("Scheduled domain for "@ + stmt_text(e.0) + " has no corresponding statement"@)]
    } else {
        Seq::empty()
    };
    let empty: Seq<ValidationIssue> = if detected_empty(e.1.constraints) {
        seq![ValidationIssue::ScheduleError("Scheduled domain for "@ + stmt_text(e.0) + " is empty"@)]
    } else {
        Seq::empty()
    };
    missing + empty
}

/// Problems of the first `k` scheduled domains.
pub open spec fn coverage_errors(stmts: Seq<PirStatement>, ds: Seq<(usize, DomainModel)>, k: int) -> Seq<ValidationIssue>
    decreases k,
{
    if k <= 0 {
        Seq::empty()
    } else {
        coverage_errors(stmts, ds, k - 1) + coverage_error(stmts, ds[k - 1])
    }
}

/// Every error `validate_pir` reports, in order.
pub open spec fn pir_errors(m: PirModule) -> Seq<ValidationIssue> {
    let stmts = m.statements@;
    let ds = domains_of(m.schedule.root);
    let accs = m.accesses@;
    schedule_errors(m)
        + unscheduled_errors(stmts, ds, stmts.len() as int)
        + duplicate_errors(stmts, stmts.len() as int)
        + access_errors(stmts, accs, accs.len() as int)
        + zero_errors(m.quantities@, stmts, m.quantities@.len() as int)
        + linear_errors(m.quantities@, stmts, m.quantities@.len() as int)
        + empty_domain_errors(stmts, stmts.len() as int)
        + empty_map_errors(accs, accs.len() as int)
        + coverage_errors(stmts, ds, ds.len() as int)
}

proof fn lemma_issues_push(s: Seq<ValidationError>, e: ValidationError)
    ensures
        issues_view(s.push(e)) == issues_view(s).push(e@),
{
    assert(issues_view(s.push(e)) =~= issues_view(s).push(e@));
}

/// The first of the first `upto` statements with the given id.
fn find_stmt(stmts: &Vec<PirStatement>, id: StmtId, upto: usize) -> (r: Option<usize>)
    requires
        upto <= stmts@.len(),
    ensures
        r matches Some(j) ==> j < upto && first_with_id(stmts@.subrange(0, upto as int), id.0, 0) == Some(j as int),
        r is None ==> first_with_id(stmts@.subrange(0, upto as int), id.0, 0) is None,
{
    let ghost pre = stmts@.subrange(0, upto as int);
    let mut j: usize = 0;
    while j < upto
        invariant
            upto <= stmts@.len(),
            pre == stmts@.subrange(0, upto as int),
            j <= upto,
            first_with_id(pre, id.0, 0) == first_with_id(pre, id.0, j as int),
        decreases upto - j,
    {
        assert(pre[j as int] == stmts@[j as int]);
        if stmts[j].id.0 == id.0 {
            return Some(j);
        }
        j = j + 1;
    }
    None
}

/// Appends an error for each statement without a domain leaf.
fn push_unscheduled(stmts: &Vec<PirStatement>, scheduled: &Vec<(StmtId, AffineDomain)>, errors: &mut Vec<ValidationError>)
    ensures
        issues_view(final(errors)@) == issues_view(old(errors)@)
            + unscheduled_errors(stmts@, entries_view(scheduled@), stmts@.len() as int),
{
    let ghost ds = entries_view(scheduled@);
    let ghost start = issues_view(errors@);
    let mut i: usize = 0;
    while i < stmts.len()
        invariant
            i <= stmts@.len(),
            ds == entries_view(scheduled@),
            issues_view(errors@) == start + unscheduled_errors(stmts@, ds, i as int),
        decreases stmts@.len() - i,
    {
        let id = stmts[i].id;
        let mut found = false;
        let mut k: usize = 0;
        while k < scheduled.len()
            invariant
                k <= scheduled@.len(),
                ds == entries_view(scheduled@),
                found == exists|t: int| 0 <= t < k && (#[trigger] ds[t]).0 == id.0,
            decreases scheduled@.len() - k,
        {
            assert(ds[k as int].0 == scheduled@[k as int].0.0);
            if scheduled[k].0.0 == id.0 {
                found = true;
            }
            k = k + 1;
        }
        if !found {
            proof {
                lemma_issues_push(errors@, ValidationError::UnscheduledStatement(id));
            }
            errors.push(ValidationError::UnscheduledStatement(id));
        }
        i = i + 1;
    }
}

/// Appends an error for each statement whose id occurred before.
fn push_duplicates(stmts: &Vec<PirStatement>, errors: &mut Vec<ValidationError>)
    ensures
        issues_view(final(errors)@) == issues_view(old(errors)@) + duplicate_errors(stmts@, stmts@.len() as int),
{
    let ghost start = issues_view(errors@);
    let mut i: usize = 0;
    while i < stmts.len()
        invariant
            i <= stmts@.len(),
            issues_view(errors@) == start + duplicate_errors(stmts@, i as int),
        decreases stmts@.len() - i,
    {
        let id = stmts[i].id;
        let seen = find_stmt(stmts, id, i);
        if seen.is_some() {
            proof {
                lemma_issues_push(errors@, ValidationError::DuplicateStatementId(id));
            }
            errors.push(ValidationError::DuplicateStatementId(id));
        }
        i = i + 1;
    }
}

/// Appends an error for each access of a missing statement or with a
/// domain shaped otherwise than its statement's.
fn push_access_mismatches(stmts: &Vec<PirStatement>, rels: &Vec<AccessRelation>, errors: &mut Vec<ValidationError>)
    ensures
        issues_view(final(errors)@) == issues_view(old(errors)@)
            + access_errors(stmts@, relations_view(rels@), rels@.len() as int),
{
    let ghost accs = relations_view(rels@);
    let ghost start = issues_view(errors@);
    let mut a: usize = 0;
    while a < rels.len()
        invariant
            a <= rels@.len(),
            accs == relations_view(rels@),
            issues_view(errors@) == start + access_errors(stmts@, accs, a as int),
        decreases rels@.len() - a,
    {
        let access = &rels[a];
        assert(accs[a as int] == access@);
        assert(stmts@.subrange(0, stmts@.len() as int) =~= stmts@);
        let first = find_stmt(stmts, access.stmt_id, stmts.len());
        match first {
            None => {
                proof {
                    lemma_issues_push(errors@, ValidationError::AccessDomainMismatch(access.stmt_id));
                }
                errors.push(ValidationError::AccessDomainMismatch(access.stmt_id));
            },
            Some(j) => {
                let sd = &stmts[j].domain;
                if access.stmt_domain.dims != sd.dims || access.stmt_domain.n_iter != sd.n_iter
                    || access.stmt_domain.n_param != sd.n_param {
                    proof {
                        lemma_issues_push(errors@, ValidationError::AccessDomainMismatch(access.stmt_id));
                    }
                    errors.push(ValidationError::AccessDomainMismatch(access.stmt_id));
                }
            },
        }
        a = a + 1;
    }
}

/// Appends an error for each erased variable occurring in a body.
fn push_zero_quantity(module: &PirModule, errors: &mut Vec<ValidationError>)
    ensures
        issues_view(final(errors)@) == issues_view(old(errors)@)
            + zero_errors(module.quantities@, module.statements@, module.quantities@.len() as int),
{
    let stmts = &module.statements;
    let ghost start = issues_view(errors@);
    let n_q = module.quantities.len();
    let mut q: usize = 0;
    while q < n_q
        invariant
            n_q == module.quantities@.len(),
            q <= n_q,
            issues_view(errors@) == start + zero_errors(module.quantities@, stmts@, q as int),
        decreases n_q - q,
    {
        let (var, qty) = module.quantities.entry(q);
        if let Quantity::Zero = qty {
            let ghost before = issues_view(errors@);
            let mut j: usize = 0;
            while j < stmts.len()
                invariant
                    q < n_q,
                    n_q == module.quantities@.len(),
                    var@ == module.quantities@[q as int].0,
                    j <= stmts@.len(),
                    issues_view(errors@) == before + zero_errors_for(var@, stmts@, j as int),
                decreases stmts@.len() - j,
            {
                let stmt = &stmts[j];
                if expr_contains_var(&stmt.body, var.as_str()) {
                    let v = var.clone();
                    proof {
                        lemma_issues_push(errors@, ValidationError::ZeroQuantityInRuntime(v, stmt.id));
                    }
                    errors.push(ValidationError::ZeroQuantityInRuntime(v, stmt.id));
                }
                j = j + 1;
            }
        }
        q = q + 1;
    }
}

/// Appends an error for each linear variable not used exactly once.
fn push_linear(module: &PirModule, errors: &mut Vec<ValidationError>)
    requires
        counts_fit(*module),
    ensures
        issues_view(final(errors)@) == issues_view(old(errors)@)
            + linear_errors(module.quantities@, module.statements@, module.quantities@.len() as int),
{
    let ghost start = issues_view(errors@);
    let n_q = module.quantities.len();
    let mut q: usize = 0;
    while q < n_q
        invariant
            n_q == module.quantities@.len(),
            q <= n_q,
            counts_fit(*module),
            issues_view(errors@) == start + linear_errors(module.quantities@, module.statements@, q as int),
        decreases n_q - q,
    {
        let (var, qty) = module.quantities.entry(q);
        if let Quantity::One = qty {
            assert(module.quantities@[q as int].1 == Quantity::One);
            let count = module.count_var_occurrences(var.as_str());
            if count == 0 {
                let v = var.clone();
                proof {
                    lemma_issues_push(errors@, ValidationError::LinearVarNotUsed(v));
                }
                errors.push(ValidationError::LinearVarNotUsed(v));
            } else if count > 1 {
                let v = var.clone();
                proof {
                    lemma_issues_push(errors@, ValidationError::LinearVarUsedMultipleTimes(v, count));
                }
                errors.push(ValidationError::LinearVarUsedMultipleTimes(v, count));
            }
            assert(issues_view(errors@) =~= start + linear_errors(module.quantities@, module.statements@, q + 1));
        }
        q = q + 1;
    }
}

/// Appends an error for each statement with an empty domain.
fn push_empty_domains(stmts: &Vec<PirStatement>, errors: &mut Vec<ValidationError>)
    ensures
        issues_view(final(errors)@) == issues_view(old(errors)@) + empty_domain_errors(stmts@, stmts@.len() as int),
{
    let ghost start = issues_view(errors@);
    let mut i: usize = 0;
    while i < stmts.len()
        invariant
            i <= stmts@.len(),
            issues_view(errors@) == start + empty_domain_errors(stmts@, i as int),
        decreases stmts@.len() - i,
    {
        let stmt = &stmts[i];
        if stmt.domain.is_empty() {
            let msg = stmt_message("Statement ", stmt.id, " has empty domain");
            proof {
                lemma_issues_push(errors@, ValidationError::ScheduleError(msg));
            }
            errors.push(ValidationError::ScheduleError(msg));
        }
        i = i + 1;
    }
}

/// Appends an error for each access whose map has no piece.
fn push_empty_maps(rels: &Vec<AccessRelation>, errors: &mut Vec<ValidationError>)
    ensures
        issues_view(final(errors)@) == issues_view(old(errors)@) + empty_map_errors(relations_view(rels@), rels@.len() as int),
{
    let ghost accs = relations_view(rels@);
    let ghost start = issues_view(errors@);
    let mut a: usize = 0;
    while a < rels.len()
        invariant
            a <= rels@.len(),
            accs == relations_view(rels@),
            issues_view(errors@) == start + empty_map_errors(accs, a as int),
        decreases rels@.len() - a,
    {
        let access = &rels[a];
        assert(accs[a as int] == access@);
        if access.access_map.pieces.len() == 0 {
            let msg = stmt_message("Access for statement ", access.stmt_id, " has empty map");
            proof {
                lemma_issues_push(errors@, ValidationError::ScheduleError(msg));
            }
            errors.push(ValidationError::ScheduleError(msg));
        }
        a = a + 1;
    }
}

/// Appends the problems of every scheduled domain.
fn push_coverage(stmts: &Vec<PirStatement>, scheduled: &Vec<(StmtId, AffineDomain)>, errors: &mut Vec<ValidationError>)
    ensures
        issues_view(final(errors)@) == issues_view(old(errors)@)
            + coverage_errors(stmts@, entries_view(scheduled@), scheduled@.len() as int),
{
    let ghost ds = entries_view(scheduled@);
    let ghost start = issues_view(errors@);
    let mut k: usize = 0;
    while k < scheduled.len()
        invariant
            k <= scheduled@.len(),
            ds == entries_view(scheduled@),
            issues_view(errors@) == start + coverage_errors(stmts@, ds, k as int),
        decreases scheduled@.len() - k,
    {
        let entry = &scheduled[k];
        assert(ds[k as int] == (entry.0.0, entry.1@));
        let ghost before = issues_view(errors@);
        assert(stmts@.subrange(0, stmts@.len() as int) =~= stmts@);
        let has = find_stmt(stmts, entry.0, stmts.len());
        if has.is_none() {
            let msg = stmt_message("Scheduled domain for ", entry.0, " has no corresponding statement");
            proof {
                lemma_issues_push(errors@, ValidationError::ScheduleError(msg));
            }
            errors.push(ValidationError::ScheduleError(msg));
        }
        if entry.1.is_empty() {
            let msg = stmt_message("Scheduled domain for ", entry.0, " is empty");
            proof {
                lemma_issues_push(errors@, ValidationError::ScheduleError(msg));
            }
            errors.push(ValidationError::ScheduleError(msg));
        }
        assert(issues_view(errors@) =~= before + coverage_error(stmts@, ds[k as int]));
        k = k + 1;
    }
}

/// Checks a PIR module: the schedule, scheduling of every statement,
/// duplicate ids, accesses against statements, erased and linear
/// quantities, empty domains, empty access maps and schedule coverage.
/// All errors are reported, in that order.
pub fn validate_pir(module: &PirModule) -> (r: Result<(), Vec<ValidationError>>)
    requires
        validate_safe(module.schedule.root, 0),
        counts_fit(*module),
    ensures
        r is Ok <==> pir_errors(*module).len() == 0,
        r matches Err(es) ==> issues_view(es@) == pir_errors(*module),
{
    let mut errors: Vec<ValidationError> = Vec::new();
    match module.schedule.validate() {
        Err(e) => {
            let msg = e.message();
            proof {
                lemma_issues_push(errors@, ValidationError::ScheduleError(msg));
            }
            errors.push(ValidationError::ScheduleError(msg));
        },
        Ok(()) => {},
    }
    assert(issues_view(errors@) =~= schedule_errors(*module));
    let scheduled_domains = module.schedule.collect_domains();
    push_unscheduled(&module.statements, &scheduled_domains, &mut errors);
    push_duplicates(&module.statements, &mut errors);
    push_access_mismatches(&module.statements, &module.accesses.relations, &mut errors);
    push_zero_quantity(module, &mut errors);
    push_linear(module, &mut errors);
    push_empty_domains(&module.statements, &mut errors);
    push_empty_maps(&module.accesses.relations, &mut errors);
    push_coverage(&module.statements, &scheduled_domains, &mut errors);
    assert(issues_view(errors@) =~= pir_errors(*module));
    if errors.len() == 0 {
        Ok(())
    } else {
        Err(errors)
    }
}

/// Index of the first constraint at or after `from` without one
/// coefficient per dimension.
pub open spec fn first_bad_constraint(cs: Seq<crate::ir::affine_domain::ConstraintModel>, dims: nat, from: int) -> Option<int>
    decreases cs.len() - from,
{
    if from < 0 || from >= cs.len() {
        None
    } else if cs[from].coefficients.len() != dims {
        Some(from)
    } else {
        first_bad_constraint(cs, dims, from + 1)
    }
}

/// The first structural problem of a domain, if any.
pub open spec fn domain_problem(d: DomainModel) -> Option<Seq<char>> {
    if d.dims != d.n_iter + d.n_param {
        Some("Domain dims != n_iter + n_param"@)
    } else {
        match first_bad_constraint(d.constraints, d.dims, 0) {
            Some(k) => Some("Constraint dimension mismatch: "@ + decimal(d.constraints[k].coefficients.len()) + " vs "@ + decimal(d.dims)),
            None => None,
        }
    }
}

/// Checks that the dimensions add up and every constraint has one
/// coefficient per dimension.
pub fn validate_domain(domain: &AffineDomain) -> (r: Result<(), String>)
    requires
        domain.n_iter + domain.n_param <= usize::MAX,
    ensures
        r is Ok <==> domain_problem(domain@) is None,
        r matches Err(msg) ==> domain_problem(domain@) == Some(msg@),
{
    if domain.dims != domain.n_iter + domain.n_param {
        return Err("Domain dims != n_iter + n_param".to_string());
    }
    let ghost cs = domain@.constraints;
    let mut k: usize = 0;
    while k < domain.constraints.len()
        invariant
            k <= domain.constraints@.len(),
            cs == domain@.constraints,
            domain.dims == domain.n_iter + domain.n_param,
            first_bad_constraint(cs, domain@.dims, 0) == first_bad_constraint(cs, domain@.dims, k as int),
        decreases domain.constraints@.len() - k,
    {
        assert(cs[k as int] == domain.constraints@[k as int]@);
        let len = domain.constraints[k].coefficients.len();
        if len != domain.dims {
            assert(first_bad_constraint(cs, domain@.dims, k as int) == Some(k as int));
            assert((domain.dims as u64) as nat == domain@.dims);
            let head = number_message("Constraint dimension mismatch: ", len, " vs ");
            let tail = u64_to_decimal(domain.dims as u64);
            assert(head@ == "Constraint dimension mismatch: "@ + decimal(cs[k as int].coefficients.len()) + " vs "@);
            assert(tail@ == decimal(domain@.dims));
            let msg = concat(head.as_str(), tail.as_str());
            assert(domain_problem(domain@) == Some(msg@));
            return Err(msg);
        }
        k = k + 1;
    }
    Ok(())
}

/// The first structural problem of a map against the expected input
/// dimensions, if any.
pub open spec fn map_problem(ps: Seq<crate::ir::affine_map::PieceModel>, expected: nat) -> Option<Seq<char>> {
    if ps.len() == 0 {
        Some("Affine map has no pieces"@)
    } else {
        map_problem_from(ps, expected, 0)
    }
}

/// The first problem among the pieces from index `k` on.
pub open spec fn map_problem_from(ps: Seq<crate::ir::affine_map::PieceModel>, expected: nat, k: int) -> Option<Seq<char>>
    decreases ps.len() - k,
{
    if k >= ps.len() || k < 0 {
        None
    } else if ps[k].domain.dims != expected {
        Some("Piece domain dims "@ + decimal(ps[k].domain.dims) + " != expected "@ + decimal(expected))
    } else if ps[k].matrix.cols != expected {
        Some("Matrix cols "@ + decimal(ps[k].matrix.cols) + " != expected "@ + decimal(expected))
    } else if ps[k].matrix.rows == 0 {
        Some("Matrix has zero rows"@)
    } else {
        map_problem_from(ps, expected, k + 1)
    }
}

/// Checks that a map has pieces, each on the expected input dimensions
/// with a non-empty matrix of matching width.
pub fn validate_map(map: &AffineMap, expected_input_dims: usize) -> (r: Result<(), String>)
    ensures
        r is Ok <==> map_problem(map@, expected_input_dims as nat) is None,
        r matches Err(msg) ==> map_problem(map@, expected_input_dims as nat) == Some(msg@),
{
    if map.pieces.len() == 0 {
        return Err("Affine map has no pieces".to_string());
    }
    let mut k: usize = 0;
    while k < map.pieces.len()
        invariant
            k <= map.pieces@.len(),
            map.pieces@.len() > 0,
            map_problem(map@, expected_input_dims as nat) == map_problem_from(map@, expected_input_dims as nat, k as int),
        decreases map.pieces@.len() - k,
    {
        let piece = &map.pieces[k];
        assert(map@[k as int] == piece@);
        if piece.domain.dims != expected_input_dims {
            let head = number_message("Piece domain dims ", piece.domain.dims, " != expected ");
            let tail = u64_to_decimal(expected_input_dims as u64);
            return Err(concat(head.as_str(), tail.as_str()));
        }
        if piece.matrix.cols != expected_input_dims {
            let head = number_message("Matrix cols ", piece.matrix.cols, " != expected ");
            let tail = u64_to_decimal(expected_input_dims as u64);
            return Err(concat(head.as_str(), tail.as_str()));
        }
        if piece.matrix.rows == 0 {
            return Err("Matrix has zero rows".to_string());
        }
        k = k + 1;
    }
    Ok(())
}

/// Summary of a detailed schedule check.
#[derive(Debug)]
pub struct ScheduleValidationReport {
    pub band_count: usize,
    pub domain_count: usize,
    pub max_depth: usize,
    pub parameter_count: usize,
    pub warnings: Vec<String>,
}

/// A report as values.
pub struct ReportModel {
    pub band_count: nat,
    pub domain_count: nat,
    pub max_depth: nat,
    pub parameter_count: nat,
    pub warnings: Seq<Seq<char>>,
}

/// A list of strings as values.
pub open spec fn strings_view(s: Seq<String>) -> Seq<Seq<char>> {
    s.map_values(|x: String| x@)
}

proof fn lemma_strings_push(s: Seq<String>, x: String)
    ensures
        strings_view(s.push(x)) == strings_view(s).push(x@),
{
    assert(strings_view(s.push(x)) =~= strings_view(s).push(x@));
}

impl View for ScheduleValidationReport {
    type V = ReportModel;

    open spec fn view(&self) -> ReportModel {
        ReportModel {
            band_count: self.band_count as nat,
            domain_count: self.domain_count as nat,
            max_depth: self.max_depth as nat,
            parameter_count: self.parameter_count as nat,
            warnings: strings_view(self.warnings@),
        }
    }
}

/// `at depth N` warning text.
pub open spec fn depth_warning(before: Seq<char>, depth: nat, after: Seq<char>) -> Seq<char> {
    before + decimal(depth) + after
}

/// `r` with `w` appended to its warnings when `cond` holds.
pub open spec fn warn_if(r: ReportModel, cond: bool, w: Seq<char>) -> ReportModel {
    if cond {
        ReportModel { warnings: r.warnings.push(w), ..r }
    } else {
        r
    }
}

/// The report after visiting `n` at `depth`, starting from `r`.
pub open spec fn walk(n: ScheduleNode, depth: nat, r: ReportModel) -> ReportModel
    decreases n,
{
    let r1 = ReportModel { max_depth: if r.max_depth >= depth { r.max_depth } else { depth }, ..r };
    match n {
        ScheduleNode::Band { members, coincident, child } => {
            let r2 = ReportModel { band_count: r1.band_count + 1, ..r1 };
            let r3 = warn_if(r2, members@.len() == 0, depth_warning("Band at depth "@, depth, " has no members"@));
            let r4 = warn_if(r3, members@.len() != coincident@.len(), depth_warning("Band at depth "@, depth, ": coincident length mismatch"@));
            walk(*child, depth + 1, r4)
        },
        ScheduleNode::Filter { domain, child } => {
            let r2 = warn_if(r1, detected_empty(domain@.constraints), depth_warning("Filter at depth "@, depth, " has empty domain"@));
            walk(*child, depth + 1, r2)
        },
        ScheduleNode::Sequence { children } => {
            let r2 = warn_if(r1, children@.len() == 0, depth_warning("Sequence at depth "@, depth, " has no children"@));
            walk_all(children@, depth + 1, r2)
        },
        ScheduleNode::Context { domain, child } => {
            let r2 = warn_if(r1, detected_empty(domain@.constraints), depth_warning("Context at depth "@, depth, " has empty domain"@));
            walk(*child, depth + 1, r2)
        },
        ScheduleNode::Domain { domain, .. } => {
            let r2 = ReportModel { domain_count: r1.domain_count + 1, ..r1 };
            warn_if(r2, detected_empty(domain@.constraints), depth_warning("Domain node at depth "@, depth, " is empty"@))
        },
        ScheduleNode::Extension { child, .. } => walk(*child, depth + 1, r1),
        ScheduleNode::Empty => warn_if(r1, true, depth_warning("Empty node at depth "@, depth, ""@)),
    }
}

/// The report after visiting the children in order.
pub open spec fn walk_all(cs: Seq<ScheduleNode>, depth: nat, r: ReportModel) -> ReportModel
    decreases cs,
{
    if cs.len() == 0 {
        r
    } else {
        walk_all(cs.drop_first(), depth, walk(cs[0], depth, r))
    }
}

/// The counters of a report fit in `usize`.
pub open spec fn report_fits(r: ReportModel) -> bool {
    r.band_count <= usize::MAX && r.domain_count <= usize::MAX && r.max_depth <= usize::MAX
}

/// Counters only grow along a walk, and the depth reached is at least the
/// starting depth.
proof fn lemma_walk_grows(n: ScheduleNode, depth: nat, r: ReportModel)
    ensures
        walk(n, depth, r).band_count >= r.band_count,
        walk(n, depth, r).domain_count >= r.domain_count,
        walk(n, depth, r).max_depth >= r.max_depth,
        walk(n, depth, r).max_depth >= depth,
        n is Band ==> walk(n, depth, r).band_count >= r.band_count + 1,
        n is Domain ==> walk(n, depth, r).domain_count >= r.domain_count + 1,
    decreases n,
{
    let r1 = ReportModel { max_depth: if r.max_depth >= depth { r.max_depth } else { depth }, ..r };
    match n {
        ScheduleNode::Band { members, coincident, child } => {
            let r2 = ReportModel { band_count: r1.band_count + 1, ..r1 };
            let r3 = warn_if(r2, members@.len() == 0, depth_warning("Band at depth "@, depth, " has no members"@));
            let r4 = warn_if(r3, members@.len() != coincident@.len(), depth_warning("Band at depth "@, depth, ": coincident length mismatch"@));
            lemma_walk_grows(*child, depth + 1, r4);
        },
        ScheduleNode::Filter { domain, child } => {
            let r2 = warn_if(r1, detected_empty(domain@.constraints), depth_warning("Filter at depth "@, depth, " has empty domain"@));
            lemma_walk_grows(*child, depth + 1, r2);
        },
        ScheduleNode::Sequence { children } => {
            let r2 = warn_if(r1, children@.len() == 0, depth_warning("Sequence at depth "@, depth, " has no children"@));
            lemma_walk_all_grows(children@, depth + 1, r2);
        },
        ScheduleNode::Context { domain, child } => {
            let r2 = warn_if(r1, detected_empty(domain@.constraints), depth_warning("Context at depth "@, depth, " has empty domain"@));
            lemma_walk_grows(*child, depth + 1, r2);
        },
        ScheduleNode::Extension { child, .. } => {
            lemma_walk_grows(*child, depth + 1, r1);
        },
        _ => {},
    }
}

proof fn lemma_walk_all_grows(cs: Seq<ScheduleNode>, depth: nat, r: ReportModel)
    ensures
        walk_all(cs, depth, r).band_count >= r.band_count,
        walk_all(cs, depth, r).domain_count >= r.domain_count,
        walk_all(cs, depth, r).max_depth >= r.max_depth,
        cs.len() > 0 ==> walk_all(cs, depth, r).max_depth >= depth,
    decreases cs,
{
    if cs.len() > 0 {
        lemma_walk_grows(cs[0], depth, r);
        lemma_walk_all_grows(cs.drop_first(), depth, walk(cs[0], depth, r));
        assert(walk_all(cs, depth, r) == walk_all(cs.drop_first(), depth, walk(cs[0], depth, r)));
    }
}

/// Pushes `w` onto the warnings when `cond` holds.
fn warn(report: &mut ScheduleValidationReport, cond: bool, w: String)
    ensures
        final(report)@ == warn_if(old(report)@, cond, w@),
{
    if cond {
        report.warnings.push(w);
        assert(final(report)@.warnings =~= old(report)@.warnings.push(w@));
    }
}

fn check_node(node: &ScheduleNode, depth: usize, report: &mut ScheduleValidationReport)
    requires
        report_fits(walk(*node, depth as nat, old(report)@)),
    ensures
        final(report)@ == walk(*node, depth as nat, old(report)@),
        final(report).parameter_count == old(report).parameter_count,
    decreases node,
{
    proof {
        lemma_walk_grows(*node, depth as nat, report@);
    }
    if report.max_depth < depth {
        report.max_depth = depth;
    }
    match node {
        ScheduleNode::Band { members, coincident, child } => {
            report.band_count = report.band_count + 1;
            warn(report, members.len() == 0, number_message("Band at depth ", depth, " has no members"));
            warn(report, members.len() != coincident.len(), number_message("Band at depth ", depth, ": coincident length mismatch"));
            proof {
                lemma_walk_grows(**child, (depth + 1) as nat, report@);
            }
            check_node(child, depth + 1, report);
        },
        ScheduleNode::Filter { domain, child } => {
            warn(report, domain.is_empty(), number_message("Filter at depth ", depth, " has empty domain"));
            proof {
                lemma_walk_grows(**child, (depth + 1) as nat, report@);
            }
            check_node(child, depth + 1, report);
        },
        ScheduleNode::Sequence { children } => {
            warn(report, children.len() == 0, number_message("Sequence at depth ", depth, " has no children"));
            let ghost target = walk(*node, depth as nat, old(report)@);
            let mut i: usize = 0;
            assert(children@.subrange(0, children@.len() as int) =~= children@);
            while i < children.len()
                invariant
                    i <= children@.len(),
                    *node == (ScheduleNode::Sequence { children: *children }),
                    report.parameter_count == old(report).parameter_count,
                    report_fits(target),
                    target == walk_all(children@.subrange(i as int, children@.len() as int), (depth + 1) as nat, report@),
                decreases children@.len() - i,
            {
                let ghost rest = children@.subrange(i as int, children@.len() as int);
                proof {
                    assert(decreases_to!(*node => (*node)->children));
                    assert(decreases_to!(children => children@));
                    assert(decreases_to!(children@ => children@[i as int]));
                    assert(rest[0] == children@[i as int]);
                    assert(rest.drop_first() =~= children@.subrange(i + 1, children@.len() as int));
                    lemma_walk_all_grows(rest.drop_first(), (depth + 1) as nat, walk(children@[i as int], (depth + 1) as nat, report@));
                    lemma_walk_all_grows(rest, (depth + 1) as nat, report@);
                }
                check_node(&children[i], depth + 1, report);
                i = i + 1;
            }
        },
        ScheduleNode::Context { domain, child } => {
            warn(report, domain.is_empty(), number_message("Context at depth ", depth, " has empty domain"));
            proof {
                lemma_walk_grows(**child, (depth + 1) as nat, report@);
            }
            check_node(child, depth + 1, report);
        },
        ScheduleNode::Domain { domain, .. } => {
            report.domain_count = report.domain_count + 1;
            warn(report, domain.is_empty(), number_message("Domain node at depth ", depth, " is empty"));
        },
        ScheduleNode::Extension { child, .. } => {
            proof {
                lemma_walk_grows(**child, (depth + 1) as nat, report@);
            }
            check_node(child, depth + 1, report);
        },
        ScheduleNode::Empty => {
            warn(report, true, number_message("Empty node at depth ", depth, ""));
        },
    }
}

/// The report of an empty walk over a tree with `p` parameters.
pub open spec fn initial_report(p: nat) -> ReportModel {
    ReportModel { band_count: 0, domain_count: 0, max_depth: 0, parameter_count: p, warnings: Seq::empty() }
}

/// Counts bands and domain leaves, records the deepest level and collects
/// a warning for every suspicious node.
pub fn validate_schedule_detailed(tree: &ScheduleTree) -> (r: Result<ScheduleValidationReport, Vec<String>>)
    requires
        report_fits(walk(tree.root, 0, initial_report(tree.parameters@.len() as nat))),
    ensures
        r matches Ok(rep) && rep@ == walk(tree.root, 0, initial_report(tree.parameters@.len() as nat)),
{
    let mut report = ScheduleValidationReport {
        band_count: 0,
        domain_count: 0,
        max_depth: 0,
        parameter_count: tree.parameters.len(),
        warnings: Vec::new(),
    };
    assert(strings_view(report.warnings@) =~= Seq::<Seq<char>>::empty());
    assert(report@ =~= initial_report(tree.parameters@.len() as nat));
    check_node(&tree.root, 0, &mut report);
    Ok(report)
}

/// Accesses (among the first `k`) whose map has no piece.
pub open spec fn no_piece_errors(accs: Seq<AccessModel>, k: int) -> Seq<Seq<char>>
    decreases k,
{
    if k <= 0 {
        Seq::empty()
    } else if accs[k - 1].map.len() == 0 {
        no_piece_errors(accs, k - 1).push("Access "@ + stmt_text(accs[k - 1].stmt_id) + " has no map pieces"@)
    } else {
        no_piece_errors(accs, k - 1)
    }
}

/// Two writes of the same statement.
pub open spec fn same_stmt_writes(a: AccessModel, b: AccessModel) -> bool {
    a.stmt_id == b.stmt_id && writes_model(a.access_type) && writes_model(b.access_type)
}

/// Pairs `(i, j)`, `i < j < k`, of aliasing writes of one statement.
pub open spec fn self_waw_row(accs: Seq<AccessModel>, i: int, k: int) -> Seq<Seq<char>>
    decreases k - i,
{
    if k <= i + 1 {
        Seq::empty()
    } else if same_stmt_writes(accs[i], accs[k - 1]) && alias_model(accs[i], accs[k - 1]) {
        self_waw_row(accs, i, k - 1).push("Potential WAW dependence within statement "@ + stmt_text(accs[i].stmt_id))
    } else {
        self_waw_row(accs, i, k - 1)
    }
}

/// The rows of `self_waw_row` for `i < k`.
pub open spec fn self_waw_errors(accs: Seq<AccessModel>, k: int) -> Seq<Seq<char>>
    decreases k,
{
    if k <= 0 {
        Seq::empty()
    } else {
        self_waw_errors(accs, k - 1) + self_waw_row(accs, k - 1, accs.len() as int)
    }
}

/// Everything `validate_accesses_for_dependence` reports.
pub open spec fn dependence_errors(accs: Seq<AccessModel>) -> Seq<Seq<char>> {
    no_piece_errors(accs, accs.len() as int) + self_waw_errors(accs, accs.len() as int)
}

/// Checks that every access has a map and that no two writes of one
/// statement may alias.
pub fn validate_accesses_for_dependence(accesses: &AccessRelations) -> (r: Result<(), Vec<String>>)
    requires
        forall|i: int, j: int| 0 <= i < j < accesses@.len() && same_stmt_writes(#[trigger] accesses@[i], #[trigger] accesses@[j])
            ==> alias_ok(accesses@[i], accesses@[j]),
    ensures
        r is Ok <==> dependence_errors(accesses@).len() == 0,
        r matches Err(es) ==> strings_view(es@) == dependence_errors(accesses@),
{
    let rels = &accesses.relations;
    let ghost accs = accesses@;
    let mut errors: Vec<String> = Vec::new();
    let mut a: usize = 0;
    assert(strings_view(errors@) =~= no_piece_errors(accs, 0));
    while a < rels.len()
        invariant
            a <= rels@.len(),
            accs == relations_view(rels@),
            strings_view(errors@) == no_piece_errors(accs, a as int),
        decreases rels@.len() - a,
    {
        let access = &rels[a];
        assert(accs[a as int] == access@);
        if access.access_map.pieces.len() == 0 {
            let msg = stmt_message("Access ", access.stmt_id, " has no map pieces");
            proof {
                lemma_strings_push(errors@, msg);
            }
            errors.push(msg);
        }
        assert(strings_view(errors@) =~= no_piece_errors(accs, a + 1));
        a = a + 1;
    }
    let ghost part1 = strings_view(errors@);
    let mut i: usize = 0;
    assert(self_waw_errors(accs, 0) =~= Seq::<Seq<char>>::empty());
    while i < rels.len()
        invariant
            i <= rels@.len(),
            accs == relations_view(rels@),
            accs == accesses@,
            forall|x: int, y: int| 0 <= x < y < accs.len() && same_stmt_writes(#[trigger] accs[x], #[trigger] accs[y])
                ==> alias_ok(accs[x], accs[y]),
            strings_view(errors@) == part1 + self_waw_errors(accs, i as int),
        decreases rels@.len() - i,
    {
        let ghost before = strings_view(errors@);
        let mut j: usize = i + 1;
        assert(self_waw_row(accs, i as int, j as int) =~= Seq::<Seq<char>>::empty());
        while j < rels.len()
            invariant
                i < rels@.len(),
                i < j <= rels@.len(),
                accs == relations_view(rels@),
                forall|x: int, y: int| 0 <= x < y < accs.len() && same_stmt_writes(#[trigger] accs[x], #[trigger] accs[y])
                    ==> alias_ok(accs[x], accs[y]),
                strings_view(errors@) == before + self_waw_row(accs, i as int, j as int),
            decreases rels@.len() - j,
        {
            let x = &rels[i];
            let y = &rels[j];
            assert(accs[i as int] == x@);
            assert(accs[j as int] == y@);
            let ghost row = self_waw_row(accs, i as int, j as int);
            assert(self_waw_row(accs, i as int, j + 1) == if same_stmt_writes(accs[i as int], accs[j as int]) && alias_model(accs[i as int], accs[j as int]) {
                row.push("Potential WAW dependence within statement "@ + stmt_text(accs[i as int].stmt_id))
            } else {
                row
            });
            if x.stmt_id.0 == y.stmt_id.0 && x.is_write() && y.is_write() {
                assert(same_stmt_writes(accs[i as int], accs[j as int]));
                if x.may_alias(y) {
                    let label = stmt_label(x.stmt_id);
                    let msg = concat("Potential WAW dependence within statement ", label.as_str());
                    assert(msg@ == "Potential WAW dependence within statement "@ + stmt_text(accs[i as int].stmt_id));
                    proof {
                        lemma_strings_push(errors@, msg);
                    }
                    errors.push(msg);
                }
            }
            assert(strings_view(errors@) =~= before + self_waw_row(accs, i as int, j + 1));
            j = j + 1;
        }
        assert(strings_view(errors@) =~= part1 + self_waw_errors(accs, i + 1));
        i = i + 1;
    }
    if errors.len() == 0 {
        Ok(())
    } else {
        Err(errors)
    }
}


/// The text of a validation error, as its `Display` shows it.
pub open spec fn issue_text(i: ValidationIssue) -> Seq<char> {
    match i {
        ValidationIssue::ScheduleError(e) => "Schedule error: "@ + e,
        ValidationIssue::UnscheduledStatement(id) => "Statement "@ + stmt_text(id) + " not in schedule"@,
        ValidationIssue::ZeroQuantityInRuntime(v, id) =>
            "[0] variable '"@ + v + "' appears in runtime statement "@ + stmt_text(id),
        ValidationIssue::LinearVarNotUsed(v) => "[1] variable '"@ + v + "' not used"@,
        ValidationIssue::LinearVarUsedMultipleTimes(v, n) => "[1] variable '"@ + v + "' used "@ + decimal(n) + " times"@,
        ValidationIssue::AccessDomainMismatch(id) => "Access domain mismatch for statement "@ + stmt_text(id),
        ValidationIssue::DuplicateStatementId(id) => "Duplicate statement ID: "@ + stmt_text(id),
    }
}

impl ValidationError {
    /// The error's text, as its `Display` shows it.
    pub fn message(&self) -> (r: String)
        ensures
            r@ == issue_text(self@),
    {
        let r = match self {
            ValidationError::ScheduleError(e) => concat("Schedule error: ", e.as_str()),
            ValidationError::UnscheduledStatement(id) => stmt_message("Statement ", *id, " not in schedule"),
            ValidationError::ZeroQuantityInRuntime(v, id) => {
                let a = concat("[0] variable '", v.as_str());
                let b = concat(a.as_str(), "' appears in runtime statement ");
                stmt_message(b.as_str(), *id, "")
            },
            ValidationError::LinearVarNotUsed(v) => {
                let a = concat("[1] variable '", v.as_str());
                concat(a.as_str(), "' not used")
            },
            ValidationError::LinearVarUsedMultipleTimes(v, n) => {
                let a = concat("[1] variable '", v.as_str());
                let b = concat(a.as_str(), "' used ");
                number_message(b.as_str(), *n, " times")
            },
            ValidationError::AccessDomainMismatch(id) => stmt_message("Access domain mismatch for statement ", *id, ""),
            ValidationError::DuplicateStatementId(id) => stmt_message("Duplicate statement ID: ", *id, ""),
        };
        proof {
            reveal_strlit("");
        }
        assert(r@ =~= issue_text(self@));
        r
    }
}

} // verus!
