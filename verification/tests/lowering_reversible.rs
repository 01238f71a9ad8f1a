use naso_compiler::ast::{Mutability, Quantity};
use naso_compiler::ir::affine_domain::AffineDomain;
use naso_compiler::ir::pir_types::{BinaryOp, PirExpr, PirStatement, QuantityMap, UnaryOp};
use naso_compiler::ir::schedule_tree::{ScheduleNode, StmtId};
use naso_compiler::lowering::reversible_lowering::{
    generate_affine_inverse, generate_arithmetic_inverse, generate_assignment_inverse,
    generate_measurement_uncompute, generate_quantum_adjoint, generate_rng_uncompute,
    lower_reversible_statements, DataflowDAG,
};
use naso_compiler::lowering::{LoweringContext, LoweringError};

fn let_stmt(id: usize, name: &str, qty: Quantity, value: PirExpr) -> PirStatement {
    PirStatement {
        id: StmtId(id),
        domain: AffineDomain::universe(0, 0),
        body: PirExpr::Let {
            name: name.to_string(),
            qty,
            mutability: Mutability::Immutable,
            value: Box::new(value),
            body: Box::new(PirExpr::IntLit(0)),
        },
        quantity: qty,
        mutability: Mutability::Immutable,
        span: None,
    }
}

fn add_one(var: &str) -> PirExpr {
    PirExpr::Binary {
        op: BinaryOp::Add,
        left: Box::new(PirExpr::Var(var.to_string())),
        right: Box::new(PirExpr::IntLit(1)),
    }
}

#[test]
fn test_quantum_adjoint_generation() {
    let inv = generate_quantum_adjoint("H", &[], StmtId(0)).unwrap();
    assert_eq!(inv.expr, PirExpr::Call { name: "H".to_string(), args: vec![] });
    assert!(inv.is_adjoint);

    let inv = generate_quantum_adjoint("S", &[], StmtId(0)).unwrap();
    assert_eq!(inv.expr, PirExpr::Call { name: "S†".to_string(), args: vec![] });

    let angle_expr = PirExpr::Var("theta".to_string());
    let args = vec![PirExpr::Call { name: "RX".to_string(), args: vec![angle_expr.clone()] }];
    let inv = generate_quantum_adjoint("RX", &args, StmtId(0)).unwrap();
    if let PirExpr::Call { name, args } = inv.expr {
        assert_eq!(name, "RX†");
        assert_eq!(args.len(), 1);
        if let PirExpr::Unary { op: UnaryOp::Neg, expr } = &args[0] {
            if let PirExpr::Var(v) = expr.as_ref() {
                assert_eq!(v, "theta");
            }
        } else {
            panic!("Expected negated angle");
        }
    } else {
        panic!("Expected call");
    }
}

#[test]
fn test_arithmetic_inverse() {
    let left = PirExpr::Var("a".to_string());
    let right = PirExpr::Var("b".to_string());

    let inv = generate_arithmetic_inverse(BinaryOp::Add, &left, &right, StmtId(0)).unwrap();
    if let PirExpr::Binary { op, .. } = inv.expr {
        assert_eq!(op, BinaryOp::Sub);
    } else {
        panic!("Expected binary op");
    }

    let inv = generate_arithmetic_inverse(BinaryOp::Mul, &left, &right, StmtId(0)).unwrap();
    if let PirExpr::Binary { op, .. } = inv.expr {
        assert_eq!(op, BinaryOp::Div);
    } else {
        panic!("Expected binary op");
    }

    let inv = generate_arithmetic_inverse(BinaryOp::Xor, &left, &right, StmtId(0)).unwrap();
    if let PirExpr::Binary { op, .. } = inv.expr {
        assert_eq!(op, BinaryOp::Xor);
    } else {
        panic!("Expected binary op");
    }
}

#[test]
fn test_dataflow_dag_build() {
    let mut quantities = QuantityMap::new();
    quantities.insert("x".to_string(), Quantity::Many);
    quantities.insert("y".to_string(), Quantity::Many);
    quantities.insert("proof".to_string(), Quantity::Zero);

    let mut dag = DataflowDAG::new(&quantities);
    let stmt1 = let_stmt(0, "x", Quantity::Many, PirExpr::IntLit(1));
    let stmt2 = let_stmt(
        1,
        "y",
        Quantity::Many,
        PirExpr::Binary {
            op: BinaryOp::Add,
            left: Box::new(PirExpr::Var("x".to_string())),
            right: Box::new(PirExpr::IntLit(2)),
        },
    );
    dag.build(&[stmt1, stmt2]).unwrap();

    assert!(dag.nodes.contains_key("x"));
    assert!(dag.nodes.contains_key("y"));
    assert!(dag.zero_qty_temps.contains("proof"));
    assert!(!dag.zero_qty_temps.contains("x"));

    let y_node = dag.nodes.get("y").unwrap();
    assert!(y_node.dependencies.contains(&"x".to_string()));
}

#[test]
fn test_topological_sort() {
    let mut quantities = QuantityMap::new();
    quantities.insert("a".to_string(), Quantity::Many);
    quantities.insert("b".to_string(), Quantity::Many);
    quantities.insert("c".to_string(), Quantity::Many);

    let mut dag = DataflowDAG::new(&quantities);
    let stmt_a = let_stmt(0, "a", Quantity::Many, PirExpr::IntLit(1));
    let stmt_b = let_stmt(1, "b", Quantity::Many, add_one("a"));
    let stmt_c = let_stmt(2, "c", Quantity::Many, add_one("b"));
    dag.build(&[stmt_a, stmt_b, stmt_c]).unwrap();
    let topo = dag.topological_sort().unwrap();

    assert_eq!(topo[0], "c");
    assert_eq!(topo[1], "b");
    assert_eq!(topo[2], "a");
}

#[test]
fn test_cycle_detection() {
    let mut quantities = QuantityMap::new();
    quantities.insert("x".to_string(), Quantity::Many);
    quantities.insert("y".to_string(), Quantity::Many);

    let mut dag = DataflowDAG::new(&quantities);
    let stmt_x = let_stmt(0, "x", Quantity::Many, add_one("y"));
    let stmt_y = let_stmt(1, "y", Quantity::Many, add_one("x"));
    dag.build(&[stmt_x, stmt_y]).unwrap();
    let result = dag.topological_sort();

    assert!(result.is_err());
    if let Err(LoweringError::NonReversibleOp(msg)) = result {
        assert!(msg.contains("Cycle"));
    } else {
        panic!("Expected cycle detection error");
    }
}

#[test]
fn test_zero_quantity_erasure() {
    let mut quantities = QuantityMap::new();
    quantities.insert("runtime_var".to_string(), Quantity::Many);
    quantities.insert("proof_var".to_string(), Quantity::Zero);

    let mut dag = DataflowDAG::new(&quantities);
    let stmt = let_stmt(0, "proof_var", Quantity::Zero, PirExpr::IntLit(42));
    dag.build(&[stmt]).unwrap();

    assert!(dag.erased_temps().contains("proof_var"));
    assert!(!dag.erased_temps().contains("runtime_var"));

    let topo = dag.topological_sort().unwrap();
    assert_eq!(topo.len(), 1);
}

#[test]
fn test_ancilla_allocation() {
    let mut quantities = QuantityMap::new();
    quantities.insert("q".to_string(), Quantity::Many);

    let mut dag = DataflowDAG::new(&quantities);
    let stmt = PirStatement {
        id: StmtId(0),
        domain: AffineDomain::universe(0, 0),
        body: PirExpr::Call { name: "qalloc".to_string(), args: vec![PirExpr::Var("q".to_string())] },
        quantity: Quantity::Many,
        mutability: Mutability::Immutable,
        span: None,
    };
    dag.build(&[stmt]).unwrap();

    let node = dag.nodes.get("q").unwrap();
    assert!(node.is_ancilla);
}

#[test]
fn test_measurement_uncompute_requires_ancilla() {
    let inv = generate_measurement_uncompute("measure", &[], StmtId(0)).unwrap();
    assert!(!inv.is_adjoint);
    assert!(!inv.required_ancilla.is_empty());
    assert_eq!(inv.required_ancilla[0], "measurement_ancilla");
}

#[test]
fn test_rng_uncompute_requires_ancilla() {
    let inv = generate_rng_uncompute("rng", &[], StmtId(0)).unwrap();
    assert!(!inv.is_adjoint);
    assert!(!inv.required_ancilla.is_empty());
    assert_eq!(inv.required_ancilla[0], "rng_ancilla");
}

#[test]
fn measurement_uncompute_keeps_the_qubit() {
    let q = PirExpr::Var("q0".to_string());
    let inv = generate_measurement_uncompute("measure", &[q.clone()], StmtId(3)).unwrap();
    assert_eq!(inv.expr, PirExpr::Call { name: "unmeasure".to_string(), args: vec![q] });
    let inv = generate_measurement_uncompute("measure", &[], StmtId(3)).unwrap();
    assert_eq!(inv.expr, PirExpr::Call { name: "unmeasure".to_string(), args: vec![PirExpr::IntLit(0)] });
}

#[test]
fn assignment_and_affine_inverses_wrap_their_expression() {
    let v = PirExpr::Var("y".to_string());
    let inv = generate_assignment_inverse(&v, StmtId(0)).unwrap();
    assert_eq!(inv.expr, PirExpr::Call { name: "discard".to_string(), args: vec![v.clone()] });
    assert!(inv.required_ancilla.is_empty());
    let inv = generate_affine_inverse(&v, StmtId(0)).unwrap();
    assert_eq!(inv.expr, PirExpr::Call { name: "affine_inverse".to_string(), args: vec![v] });
}

#[test]
fn arithmetic_inverse_defaults_to_addition() {
    let l = PirExpr::IntLit(4);
    let r = PirExpr::IntLit(5);
    let inv = generate_arithmetic_inverse(BinaryOp::Div, &l, &r, StmtId(0)).unwrap();
    assert_eq!(inv.expr, PirExpr::Binary { op: BinaryOp::Mul, left: Box::new(l.clone()), right: Box::new(r.clone()) });
    let inv = generate_arithmetic_inverse(BinaryOp::Lt, &l, &r, StmtId(0)).unwrap();
    assert_eq!(inv.expr, PirExpr::Binary { op: BinaryOp::Add, left: Box::new(l), right: Box::new(r) });
}

#[test]
fn unknown_gate_has_unknown_adjoint() {
    let inv = generate_quantum_adjoint("qgate", &[], StmtId(0)).unwrap();
    assert_eq!(inv.expr, PirExpr::Call { name: "UNKNOWN".to_string(), args: vec![] });
    let inv = generate_quantum_adjoint("T", &[], StmtId(0)).unwrap();
    assert_eq!(inv.expr, PirExpr::Call { name: "T†".to_string(), args: vec![] });
}

#[test]
fn diamond_dependencies_order_users_first() {
    let quantities = QuantityMap::new();
    let mut dag = DataflowDAG::new(&quantities);
    let a = let_stmt(0, "a", Quantity::Many, PirExpr::IntLit(1));
    let b = let_stmt(1, "b", Quantity::Many, add_one("a"));
    let c = let_stmt(2, "c", Quantity::Many, add_one("a"));
    let d = let_stmt(
        3,
        "d",
        Quantity::Many,
        PirExpr::Binary {
            op: BinaryOp::Add,
            left: Box::new(PirExpr::Var("b".to_string())),
            right: Box::new(PirExpr::Var("c".to_string())),
        },
    );
    dag.build(&[a, b, c, d]).unwrap();
    let topo = dag.topological_sort().unwrap();
    let pos = |n: &str| topo.iter().position(|x| x == n).unwrap();
    assert_eq!(topo.len(), 4);
    assert!(pos("d") < pos("b"));
    assert!(pos("d") < pos("c"));
    assert!(pos("b") < pos("a"));
    assert!(pos("c") < pos("a"));
}

#[test]
fn self_use_is_not_a_dependency() {
    let quantities = QuantityMap::new();
    let mut dag = DataflowDAG::new(&quantities);
    let x = let_stmt(0, "x", Quantity::Many, add_one("x"));
    dag.build(&[x]).unwrap();
    let node = dag.nodes.get("x").unwrap();
    assert!(node.dependencies.is_empty());
    assert_eq!(node.uses, vec![StmtId(0)]);
    assert_eq!(dag.topological_sort().unwrap(), vec!["x".to_string()]);
}

#[test]
fn reversible_lowering_of_an_empty_context() {
    let ctx = LoweringContext::new();
    let pair = lower_reversible_statements(&ctx).unwrap();
    assert!(matches!(pair.forward.root, ScheduleNode::Empty));
    assert!(matches!(pair.inverse.root, ScheduleNode::Empty));
    assert!(pair.ancilla_requirements.is_empty());
}

#[test]
fn reversible_lowering_uncomputes_each_temporary() {
    let mut ctx = LoweringContext::new();
    ctx.push_statement(let_stmt(0, "a", Quantity::Many, PirExpr::IntLit(1)));
    ctx.push_statement(let_stmt(1, "b", Quantity::Many, add_one("a")));
    let pair = lower_reversible_statements(&ctx).unwrap();
    let fwd: Vec<usize> = pair.forward.collect_domains().iter().map(|(id, _)| id.0).collect();
    assert_eq!(fwd, vec![0, 1]);
    let inv: Vec<usize> = pair.inverse.collect_domains().iter().map(|(id, _)| id.0).collect();
    assert_eq!(inv, vec![2, 3]);
}

#[test]
fn reversible_lowering_erases_zero_quantity_temporaries() {
    let mut ctx = LoweringContext::new();
    ctx.push_statement(let_stmt(0, "p", Quantity::Zero, PirExpr::IntLit(1)));
    let pair = lower_reversible_statements(&ctx).unwrap();
    assert!(matches!(pair.inverse.root, ScheduleNode::Empty));
}

#[test]
fn reversible_lowering_reports_cycles() {
    let mut ctx = LoweringContext::new();
    ctx.push_statement(let_stmt(0, "x", Quantity::Many, add_one("y")));
    ctx.push_statement(let_stmt(1, "y", Quantity::Many, add_one("x")));
    match lower_reversible_statements(&ctx) {
        Err(LoweringError::NonReversibleOp(msg)) => {
            assert_eq!(msg, "Cycle detected in dataflow DAG - cannot uncomputation")
        }
        other => panic!("expected a cycle, got {:?}", other.map(|_| ())),
    }
}

#[test]
fn reversible_lowering_refuses_unzeroable_ancillas() {
    let mut ctx = LoweringContext::new();
    ctx.push_statement(PirStatement {
        id: StmtId(0),
        domain: AffineDomain::universe(0, 0),
        body: PirExpr::Call { name: "qalloc".to_string(), args: vec![PirExpr::Var("q".to_string())] },
        quantity: Quantity::Many,
        mutability: Mutability::Immutable,
        span: None,
    });
    match lower_reversible_statements(&ctx) {
        Err(LoweringError::NonReversibleOp(msg)) => {
            assert_eq!(msg, "No inverse operation for quantum ancilla q")
        }
        other => panic!("expected a zeroing failure, got {:?}", other.map(|_| ())),
    }
}

#[test]
fn lowering_error_messages() {
    let e = LoweringError::Unsupported("Temp t not found".to_string());
    assert_eq!(e.message(), "Unsupported construct: Temp t not found");
    let e = LoweringError::NonAffineBounds("i*j".to_string());
    assert_eq!(e.message(), "Non-affine loop bounds: i*j");
    let e = LoweringError::ValidationError("bad".to_string());
    assert_eq!(e.message(), "IR validation failed: bad");
}

#[test]
fn reversible_lowering_needs_top_level_definitions() {
    let mut ctx = LoweringContext::new();
    ctx.push_statement(PirStatement {
        id: StmtId(0),
        domain: AffineDomain::universe(0, 0),
        body: PirExpr::Unary {
            op: UnaryOp::Neg,
            expr: Box::new(PirExpr::Let {
                name: "t".to_string(),
                qty: Quantity::Many,
                mutability: Mutability::Immutable,
                value: Box::new(PirExpr::IntLit(3)),
                body: Box::new(PirExpr::IntLit(0)),
            }),
        },
        quantity: Quantity::Many,
        mutability: Mutability::Immutable,
        span: None,
    });
    match lower_reversible_statements(&ctx) {
        Err(LoweringError::Unsupported(msg)) => assert_eq!(msg, "Temp t not found"),
        other => panic!("expected a missing definition, got {:?}", other.map(|_| ())),
    }
}
