use naso_compiler::ast::{Mutability, Quantity};
use naso_compiler::ir::access_relation::{AccessRelation, AccessRelations, AccessType};
use naso_compiler::ir::affine_domain::{AffineConstraint, AffineDomain};
use naso_compiler::ir::affine_map::{AffineMap, Matrix};
use naso_compiler::ir::pir_types::{BinaryOp, PirExpr, PirModule, PirStatement, QuantityMap, ValidationError};
use naso_compiler::ir::schedule_tree::{ScheduleNode, ScheduleTree, StmtId};
use naso_compiler::ir::validate::{validate_domain, validate_pir, validate_schedule_detailed};

fn bounded_domain() -> AffineDomain {
    AffineDomain::new(1, 1, vec![
        AffineConstraint::inequality(vec![1, 0], 0),
        AffineConstraint::inequality(vec![-1, 1], 1),
    ])
}

#[test]
fn test_access_relation() {
    let stmt_domain = bounded_domain();
    let mut m = Matrix::new(1, 2);
    m.set(0, 0, 1);
    let access_map = AffineMap::total(stmt_domain.clone(), m);
    let access = AccessRelation::new(StmtId(0), stmt_domain, access_map, AccessType::ReadWrite)
        .with_array_name("A");
    assert_eq!(access.apply(&[5, 10]), Some(vec![5]));
    assert_eq!(access.apply(&[10, 10]), None);
}

#[test]
fn test_alias_detection() {
    let domain = bounded_domain();
    let mut m = Matrix::new(1, 2);
    m.set(0, 0, 1);
    let map = AffineMap::total(domain.clone(), m);

    let read = AccessRelation::new(StmtId(0), domain.clone(), map.clone(), AccessType::Read).with_array_name("A");
    let write = AccessRelation::new(StmtId(1), domain.clone(), map.clone(), AccessType::Write).with_array_name("A");
    assert!(read.may_alias(&write));

    let write_b = AccessRelation::new(StmtId(1), domain, map, AccessType::Write).with_array_name("B");
    assert!(!read.may_alias(&write_b));
}

#[test]
fn test_dependence_analysis() {
    let domain = AffineDomain::universe(1, 0);
    let mut m = Matrix::new(1, 1);
    m.set(0, 0, 1);
    let map = AffineMap::total(domain.clone(), m);

    let mut relations = AccessRelations::new();
    relations.add(AccessRelation::new(StmtId(0), domain.clone(), map.clone(), AccessType::Write).with_array_name("A"));
    relations.add(AccessRelation::new(StmtId(1), domain.clone(), map.clone(), AccessType::Read).with_array_name("A"));
    relations.add(AccessRelation::new(StmtId(2), domain.clone(), map.clone(), AccessType::Write).with_array_name("A"));

    let raw = relations.raw_dependences();
    assert_eq!(raw.len(), 1);
    let waw = relations.waw_dependences();
    assert_eq!(waw.len(), 1);
}

#[test]
fn test_access_relation_dependence() {
    let domain = bounded_domain();
    let mut m = Matrix::new(1, 2);
    m.set(0, 0, 1);
    let map = AffineMap::total(domain.clone(), m);

    let mut relations = AccessRelations::new();
    relations.add(AccessRelation::new(StmtId(0), domain.clone(), map.clone(), AccessType::Write).with_array_name("A"));
    relations.add(AccessRelation::new(StmtId(1), domain.clone(), map.clone(), AccessType::Read).with_array_name("A"));
    relations.add(AccessRelation::new(StmtId(2), domain.clone(), map.clone(), AccessType::Write).with_array_name("A"));

    assert_eq!(relations.raw_dependences().len(), 1);
    assert_eq!(relations.waw_dependences().len(), 1);
    assert_eq!(relations.war_dependences().len(), 1);
}

#[test]
fn test_simple_schedule() {
    let domain = bounded_domain();
    let mut m = Matrix::new(1, 2);
    m.set(0, 0, 1);
    let schedule_map = AffineMap::total(domain.clone(), m);
    let tree = ScheduleNode::band(vec![schedule_map], vec![false], ScheduleNode::domain(StmtId(0), domain));
    let sched = ScheduleTree::new(tree, vec!["N".to_string()]);
    assert!(sched.validate().is_ok());
    let domains = sched.collect_domains();
    assert_eq!(domains.len(), 1);
    assert_eq!(domains[0].0, StmtId(0));
}

#[test]
fn test_nested_schedule() {
    let domain = AffineDomain::new(2, 2, vec![
        AffineConstraint::inequality(vec![1, 0, 0, 0], 0),
        AffineConstraint::inequality(vec![-1, 0, 1, 0], 1),
        AffineConstraint::inequality(vec![0, 1, 0, 0], 0),
        AffineConstraint::inequality(vec![0, -1, 0, 1], 1),
    ]);
    let mut m1 = Matrix::new(1, 4);
    m1.set(0, 0, 1);
    let schedule_i = AffineMap::total(domain.clone(), m1);
    let mut m2 = Matrix::new(1, 4);
    m2.set(0, 1, 1);
    let schedule_j = AffineMap::total(domain.clone(), m2);

    let inner_band = ScheduleNode::band(vec![schedule_j], vec![true], ScheduleNode::domain(StmtId(0), domain.clone()));
    let outer_band = ScheduleNode::band(vec![schedule_i], vec![false], inner_band);
    let sched = ScheduleTree::new(outer_band, vec!["N".to_string(), "M".to_string()]);
    assert!(sched.validate().is_ok());
}

#[test]
fn test_sequence_schedule() {
    let domain1 = AffineDomain::new(1, 0, vec![
        AffineConstraint::inequality(vec![1], 0),
        AffineConstraint::inequality(vec![-1], -5),
    ]);
    let domain2 = AffineDomain::new(1, 0, vec![
        AffineConstraint::inequality(vec![1], 0),
        AffineConstraint::inequality(vec![-1], -3),
    ]);
    let m = Matrix::identity(1);
    let map1 = AffineMap::total(domain1.clone(), m.clone());
    let map2 = AffineMap::total(domain2.clone(), m);
    let seq = ScheduleNode::sequence(vec![
        ScheduleNode::band(vec![map1], vec![false], ScheduleNode::domain(StmtId(0), domain1)),
        ScheduleNode::band(vec![map2], vec![false], ScheduleNode::domain(StmtId(1), domain2)),
    ]);
    let sched = ScheduleTree::new(seq, vec![]);
    assert!(sched.validate().is_ok());
}

#[test]
fn test_validation_errors() {
    let empty_band = ScheduleNode::band(vec![], vec![], ScheduleNode::empty());
    let tree = ScheduleTree::new(empty_band, vec![]);
    assert!(tree.validate().is_err());

    let empty_seq = ScheduleNode::sequence(vec![]);
    let tree = ScheduleTree::new(empty_seq, vec![]);
    assert!(tree.validate().is_err());
}

#[test]
fn test_schedule_tree_construction() {
    let domain = AffineDomain::new(3, 0, vec![
        AffineConstraint::inequality(vec![1, 0, 0], 0),
        AffineConstraint::inequality(vec![-1, 0, 0], -10),
        AffineConstraint::inequality(vec![0, 1, 0], 0),
        AffineConstraint::inequality(vec![0, -1, 0], -10),
        AffineConstraint::inequality(vec![0, 0, 1], 0),
        AffineConstraint::inequality(vec![0, 0, -1], -10),
    ]);
    let mut m1 = Matrix::new(1, 3);
    m1.set(0, 0, 1);
    let schedule_i = AffineMap::total(domain.clone(), m1);
    let mut m2 = Matrix::new(1, 3);
    m2.set(0, 1, 1);
    let schedule_j = AffineMap::total(domain.clone(), m2);
    let mut m3 = Matrix::new(1, 3);
    m3.set(0, 2, 1);
    let schedule_k = AffineMap::total(domain.clone(), m3);

    let inner = ScheduleNode::band(vec![schedule_k], vec![true], ScheduleNode::domain(StmtId(0), domain.clone()));
    let middle = ScheduleNode::band(vec![schedule_j], vec![true], inner);
    let outer = ScheduleNode::band(vec![schedule_i], vec![false], middle);

    let tree = ScheduleTree::new(outer, vec![]);
    assert!(tree.validate().is_ok());

    let report = validate_schedule_detailed(&tree).unwrap();
    assert_eq!(report.band_count, 3);
    assert_eq!(report.domain_count, 1);
    assert_eq!(report.max_depth, 3);
}

fn single_statement_module(body: PirExpr, var_qty: Quantity) -> PirModule {
    let domain = AffineDomain::universe(1, 0);
    let mut m = Matrix::new(1, 1);
    m.set(0, 0, 1);
    let map = AffineMap::total(domain.clone(), m);
    let stmt = PirStatement {
        id: StmtId(0),
        domain: domain.clone(),
        body,
        quantity: Quantity::Many,
        mutability: Mutability::Immutable,
        span: None,
    };
    let schedule = ScheduleTree::new(
        ScheduleNode::band(vec![map.clone()], vec![false], ScheduleNode::domain(StmtId(0), domain.clone())),
        vec![],
    );
    let mut accesses = AccessRelations::new();
    accesses.add(AccessRelation::new(StmtId(0), domain.clone(), map, AccessType::Write));
    let mut quantities = QuantityMap::new();
    quantities.insert("x".to_string(), var_qty);
    PirModule::new(vec![stmt], schedule, accesses, quantities, vec![])
}

#[test]
fn test_pir_module_creation() {
    let module = single_statement_module(PirExpr::IntLit(42), Quantity::Many);
    assert_eq!(module.statements.len(), 1);
    assert!(module.validate().is_ok());
}

#[test]
fn test_zero_quantity_validation() {
    let module = single_statement_module(PirExpr::Var("x".to_string()), Quantity::Zero);
    let result = module.validate();
    assert!(result.is_err());
    let errors = result.unwrap_err();
    assert!(errors.iter().any(|e| matches!(e, ValidationError::ZeroQuantityInRuntime(_, _))));
}

#[test]
fn test_linear_var_validation() {
    let module = single_statement_module(
        PirExpr::Binary {
            op: BinaryOp::Add,
            left: Box::new(PirExpr::Var("x".to_string())),
            right: Box::new(PirExpr::Var("x".to_string())),
        },
        Quantity::One,
    );
    let result = module.validate();
    assert!(result.is_err());
    let errors = result.unwrap_err();
    assert!(errors.iter().any(|e| matches!(e, ValidationError::LinearVarUsedMultipleTimes(_, 2))));
}

#[test]
fn test_validate_pir_success() {
    let module = single_statement_module(PirExpr::IntLit(42), Quantity::Many);
    assert!(validate_pir(&module).is_ok());
}

#[test]
fn test_validate_zero_quantity_error() {
    let module = single_statement_module(PirExpr::Var("x".to_string()), Quantity::Zero);
    let result = validate_pir(&module);
    assert!(result.is_err());
    let errors = result.unwrap_err();
    assert!(errors.iter().any(|e| matches!(e, ValidationError::ZeroQuantityInRuntime(_, _))));
}

#[test]
fn test_validate_domain() {
    let domain = AffineDomain::universe(2, 1);
    assert!(validate_domain(&domain).is_ok());

    let bad_domain = AffineDomain { dims: 3, n_iter: 2, n_param: 2, constraints: vec![], name: None };
    assert!(validate_domain(&bad_domain).is_err());
}

#[test]
fn test_validate_schedule_detailed() {
    let domain = AffineDomain::universe(2, 0);
    let mut m = Matrix::new(1, 2);
    m.set(0, 0, 1);
    let map = AffineMap::total(domain.clone(), m);
    let tree = ScheduleTree::new(
        ScheduleNode::band(
            vec![map.clone()],
            vec![false],
            ScheduleNode::band(vec![map.clone()], vec![true], ScheduleNode::domain(StmtId(0), domain)),
        ),
        vec![],
    );
    let report = validate_schedule_detailed(&tree).unwrap();
    assert_eq!(report.band_count, 2);
    assert_eq!(report.domain_count, 1);
    assert_eq!(report.max_depth, 2);
}

#[test]
fn test_quantity_validation_comprehensive() {
    let domain = AffineDomain::universe(1, 0);
    let mut m = Matrix::new(1, 1);
    m.set(0, 0, 1);
    let map = AffineMap::total(domain.clone(), m);

    let stmt_zero = PirStatement {
        id: StmtId(0),
        domain: domain.clone(),
        body: PirExpr::Var("z".to_string()),
        quantity: Quantity::Many,
        mutability: Mutability::Immutable,
        span: None,
    };
    let stmt_one = PirStatement {
        id: StmtId(1),
        domain: domain.clone(),
        body: PirExpr::Var("o".to_string()),
        quantity: Quantity::Many,
        mutability: Mutability::Immutable,
        span: None,
    };
    let stmt_many = PirStatement {
        id: StmtId(2),
        domain: domain.clone(),
        body: PirExpr::Binary {
            op: BinaryOp::Add,
            left: Box::new(PirExpr::Var("m".to_string())),
            right: Box::new(PirExpr::Var("m".to_string())),
        },
        quantity: Quantity::Many,
        mutability: Mutability::Immutable,
        span: None,
    };

    let schedule = ScheduleTree::new(
        ScheduleNode::sequence(vec![
            ScheduleNode::band(vec![map.clone()], vec![false], ScheduleNode::domain(StmtId(0), domain.clone())),
            ScheduleNode::band(vec![map.clone()], vec![false], ScheduleNode::domain(StmtId(1), domain.clone())),
            ScheduleNode::band(vec![map.clone()], vec![false], ScheduleNode::domain(StmtId(2), domain.clone())),
        ]),
        vec![],
    );

    let mut accesses = AccessRelations::new();
    accesses.add(AccessRelation::new(StmtId(0), domain.clone(), map.clone(), AccessType::Write));
    accesses.add(AccessRelation::new(StmtId(1), domain.clone(), map.clone(), AccessType::Write));
    accesses.add(AccessRelation::new(StmtId(2), domain, map, AccessType::Write));

    let mut quantities = QuantityMap::new();
    quantities.insert("z".to_string(), Quantity::Zero);
    quantities.insert("o".to_string(), Quantity::One);
    quantities.insert("m".to_string(), Quantity::Many);

    let module = PirModule::new(vec![stmt_zero, stmt_one, stmt_many], schedule, accesses, quantities, vec![]);

    let result = validate_pir(&module);
    assert!(result.is_err());
    let errors = result.unwrap_err();
    assert!(errors.iter().any(|e| matches!(e, ValidationError::ZeroQuantityInRuntime(_, _))));
    assert!(!errors.iter().any(|e| matches!(e, ValidationError::LinearVarNotUsed(_))));
    assert!(!errors.iter().any(|e| matches!(e, ValidationError::LinearVarUsedMultipleTimes(_, _))));
}

#[test]
fn validation_error_texts() {
    assert_eq!(ValidationError::UnscheduledStatement(StmtId(3)).message(), "Statement S3 not in schedule");
    assert_eq!(
        ValidationError::ZeroQuantityInRuntime("p".to_string(), StmtId(1)).message(),
        "[0] variable 'p' appears in runtime statement S1"
    );
    assert_eq!(ValidationError::LinearVarNotUsed("q".to_string()).message(), "[1] variable 'q' not used");
    assert_eq!(
        ValidationError::LinearVarUsedMultipleTimes("q".to_string(), 2).message(),
        "[1] variable 'q' used 2 times"
    );
    assert_eq!(ValidationError::DuplicateStatementId(StmtId(0)).message(), "Duplicate statement ID: S0");
    assert_eq!(ValidationError::ScheduleError("x".to_string()).message(), "Schedule error: x");
}
