use naso_compiler::ast::{Mutability, Quantity};
use naso_compiler::ir::access_relation::{AccessRelation, AccessRelations, AccessType};
use naso_compiler::ir::affine_domain::AffineDomain;
use naso_compiler::ir::affine_map::{AffineMap, Matrix};
use naso_compiler::ir::pir_types::{BinaryOp, PirExpr, PirModule, PirStatement, QuantityMap, UnaryOp};
use naso_compiler::ir::pretty_print::{
    format_accesses, format_domain, format_golden_fixture, format_map, format_matrix, format_pir_expr,
    format_schedule, i64_to_decimal, map_to_string, pir_to_string,
};
use naso_compiler::ir::schedule_tree::{ScheduleNode, ScheduleTree, StmtId};

#[test]
fn test_pir_to_string() {
    let domain = AffineDomain::universe(1, 0);
    let mut m = Matrix::new(1, 1);
    m.set(0, 0, 1);
    let map = AffineMap::total(domain.clone(), m);

    let stmt = PirStatement {
        id: StmtId(0),
        domain: domain.clone(),
        body: PirExpr::IntLit(42),
        quantity: Quantity::Many,
        mutability: Mutability::Immutable,
        span: None,
    };

    let schedule = ScheduleTree::new(
        ScheduleNode::band(vec![map.clone()], vec![false], ScheduleNode::domain(StmtId(0), domain.clone())),
        vec![],
    );

    let mut accesses = AccessRelations::new();
    accesses.add(AccessRelation::new(StmtId(0), domain.clone(), map, AccessType::Write));

    let mut quantities = QuantityMap::new();
    quantities.insert("x".to_string(), Quantity::Many);

    let module = PirModule::new(vec![stmt], schedule, accesses, quantities, vec![]);

    let s = pir_to_string(&module);
    assert!(s.contains("PIR Module"));
    assert!(s.contains("S0"));
}

#[test]
fn test_format_golden_fixture() {
    let domain = AffineDomain::universe(1, 1);
    let mut m = Matrix::new(1, 2);
    m.set(0, 0, 1);
    let map = AffineMap::total(domain.clone(), m);

    let stmt = PirStatement {
        id: StmtId(0),
        domain: domain.clone().with_name("S_domain".to_string()),
        body: PirExpr::IntLit(42),
        quantity: Quantity::Many,
        mutability: Mutability::Immutable,
        span: None,
    };

    let schedule = ScheduleTree::new(
        ScheduleNode::band(vec![map.clone()], vec![false], ScheduleNode::domain(StmtId(0), domain.clone())),
        vec!["N".to_string()],
    );

    let mut accesses = AccessRelations::new();
    accesses.add(AccessRelation::new(StmtId(0), domain, map, AccessType::Write).with_array_name("A"));

    let mut quantities = QuantityMap::new();
    quantities.insert("n".to_string(), Quantity::Zero);

    let module = PirModule::new(vec![stmt], schedule, accesses, quantities, vec!["N".to_string()]);

    let fixture = format_golden_fixture(&module);
    assert!(fixture.contains("[parameters]"));
    assert!(fixture.contains("N"));
    assert!(fixture.contains("[quantities]"));
    assert!(fixture.contains("n = Zero"));
    assert!(fixture.contains("[statements]"));
    assert!(fixture.contains("S0"));
    assert!(fixture.contains("[schedule]"));
    assert!(fixture.contains("[accesses]"));
    assert!(fixture.contains("A"));
}

#[test]
fn golden_fixture_statement_block_is_exact() {
    let domain = AffineDomain::universe(1, 1).with_name("S_domain".to_string());
    let stmt = PirStatement {
        id: StmtId(3),
        domain,
        body: PirExpr::IntLit(7),
        quantity: Quantity::One,
        mutability: Mutability::InOut,
        span: None,
    };
    let schedule = ScheduleTree::new(ScheduleNode::empty(), vec![]);
    let module = PirModule::new(vec![stmt], schedule, AccessRelations::new(), QuantityMap::new(), vec![]);
    let fixture = format_golden_fixture(&module);
    let expected = "# Naso PIR Golden Fixture\n# Generated by Naso Compiler\n\n[parameters]\n\n[quantities]\n\n[statements]\n  S3 {\n    quantity = One\n    mutability = InOut\n    domain = { S_domain iterators=1, params=1, constraints=0 }\n    body = 7\n  }\n\n[schedule]\nParameters: []\nEmpty\n\n[accesses]\n\n";
    assert_eq!(fixture, expected);
}

#[test]
fn decimal_text_of_signed_values() {
    assert_eq!(i64_to_decimal(0), "0");
    assert_eq!(i64_to_decimal(-45), "-45");
    assert_eq!(i64_to_decimal(i64::MIN), "-9223372036854775808");
    assert_eq!(i64_to_decimal(i64::MAX), "9223372036854775807");
}

#[test]
fn domain_format_lists_only_nonzero_counts() {
    assert_eq!(format_domain(&AffineDomain::universe(0, 0)), "{  constraints=0 }");
    assert_eq!(
        format_domain(&AffineDomain::universe(2, 0).with_name("D".to_string())),
        "{ D iterators=2, constraints=0 }"
    );
}

#[test]
fn matrix_format_shows_rows_and_nonzero_translation() {
    let mut m = Matrix::new(2, 2);
    m.set(0, 0, 1);
    m.set(1, 1, -2);
    assert_eq!(format_matrix(&m), "[[1, 0]; [0, -2]]");
    m.set_const(1, 5);
    assert_eq!(format_matrix(&m), "[[1, 0]; [0, -2]] + [0, 5]");
}

#[test]
fn map_format_counts_pieces_and_lists_them() {
    let domain = AffineDomain::universe(1, 0).with_name("D".to_string());
    let map = AffineMap::total(domain, Matrix::identity(1));
    assert_eq!(format_map(&map), "AffineMap(1 pieces)");
    assert_eq!(map_to_string(&map), "AffineMap(1 pieces)\n  Piece 0: domain=Some(\"D\"), matrix=[[1]]");
}

#[test]
fn access_line_and_accesses_format() {
    let domain = AffineDomain::universe(1, 0);
    let map = AffineMap::total(domain.clone(), Matrix::identity(1));
    let rel = AccessRelation::new(StmtId(2), domain, map, AccessType::Read);
    assert_eq!(AccessType::ReadWrite.to_string(), "ReadWrite");
    assert_eq!(rel.to_string(), "Read mem: S2 -> AffineMap(1 pieces)\n  Piece 0: domain=None, matrix=[[1]] ()");
    let mut rs = AccessRelations::new();
    rs.add(rel.with_array_name("B"));
    assert_eq!(
        format_accesses(&rs),
        "  Read B: S2 -> AffineMap(1 pieces)\n  Piece 0: domain=None, matrix=[[1]] ()\n"
    );
}

#[test]
fn expression_format_is_fully_parenthesised() {
    let e = PirExpr::Binary {
        op: BinaryOp::Add,
        left: Box::new(PirExpr::Var("x".to_string())),
        right: Box::new(PirExpr::Unary { op: UnaryOp::Neg, expr: Box::new(PirExpr::IntLit(3)) }),
    };
    assert_eq!(format_pir_expr(&e), "(x + -3)");
    let call = PirExpr::Call { name: "f".to_string(), args: vec![PirExpr::BoolLit(true), PirExpr::IntLit(1)] };
    assert_eq!(format_pir_expr(&call), "f(true, 1)");
    let idx = PirExpr::Index { base: Box::new(PirExpr::Var("a".to_string())), indices: vec![PirExpr::IntLit(0)] };
    assert_eq!(format_pir_expr(&idx), "a[0]");
}

#[test]
fn schedule_format_indents_children() {
    let domain = AffineDomain::universe(1, 0).with_name("D".to_string());
    let tree = ScheduleTree::new(
        ScheduleNode::sequence(vec![ScheduleNode::domain(StmtId(0), domain.clone()), ScheduleNode::empty()]),
        vec!["N".to_string()],
    );
    assert_eq!(format_schedule(&tree), "Parameters: [\"N\"]\nSequence:\n  Domain S0: D\n  Empty\n");
}
