use naso_compiler::ast::{Mutability, Quantity};
use naso_compiler::codegen::qir::{QIRModule, QIROperation};
use naso_compiler::codegen::qir::classifier::{
    ancilla_requirements, classify_statement, is_natively_reversible, qir_intrinsic_name, ReversibleClass,
};
use naso_compiler::codegen::qir::primitives::{get_intrinsic, QirIntrinsicParamType, QirIntrinsicRetType};
use naso_compiler::codegen::qir::profile::{QirProfile, QirProfileKind, QirTargetCapabilities};
use naso_compiler::ir::affine_domain::AffineDomain;
use naso_compiler::ir::pir_types::{PirExpr, PirStatement};
use naso_compiler::ir::schedule_tree::StmtId;

fn call_stmt(name: &str, quantity: Quantity) -> PirStatement {
    PirStatement {
        id: StmtId(0),
        domain: AffineDomain::universe(1, 0),
        body: PirExpr::Call { name: name.to_string(), args: vec![] },
        quantity,
        mutability: Mutability::Immutable,
        span: None,
    }
}

#[test]
fn test_classify_h_gate() {
    let stmt = call_stmt("h", Quantity::One);
    assert_eq!(classify_statement(&stmt), ReversibleClass::NativeUnitary);
}

#[test]
fn test_classify_measurement() {
    let stmt = call_stmt("mz", Quantity::One);
    assert_eq!(classify_statement(&stmt), ReversibleClass::Measurement);
}

#[test]
fn test_classify_nonreversible_rng() {
    let stmt = call_stmt("rng", Quantity::Many);
    assert_eq!(classify_statement(&stmt), ReversibleClass::NonReversible);
}

#[test]
fn test_is_natively_reversible_h() {
    let stmt = call_stmt("h", Quantity::One);
    assert!(is_natively_reversible(&stmt));
}

#[test]
fn test_is_natively_reversible_measurement() {
    let stmt = call_stmt("mz", Quantity::One);
    assert!(!is_natively_reversible(&stmt));
}

#[test]
fn test_qir_intrinsic_name() {
    assert_eq!(qir_intrinsic_name(ReversibleClass::NativeUnitary, "h"), "qir.h");
    assert_eq!(qir_intrinsic_name(ReversibleClass::NativeUnitary, "cx"), "qir.cx");
    assert_eq!(qir_intrinsic_name(ReversibleClass::Permutation, "swap"), "qir.swap");
}

#[test]
fn test_ancilla_requirements_h() {
    let stmt = call_stmt("h", Quantity::One);
    let (ancilla, needs_release) = ancilla_requirements(&stmt);
    assert_eq!(ancilla, 0);
    assert!(!needs_release);
}

#[test]
fn test_ancilla_requirements_measurement() {
    let stmt = call_stmt("mz", Quantity::One);
    let (ancilla, needs_release) = ancilla_requirements(&stmt);
    assert_eq!(ancilla, 1);
    assert!(needs_release);
}

#[test]
fn test_classify_and_ancilla_h() {
    let stmt = call_stmt("h", Quantity::One);
    assert_eq!(classify_statement(&stmt), ReversibleClass::NativeUnitary);
    let (num_ancilla, needs_release) = ancilla_requirements(&stmt);
    assert_eq!(num_ancilla, 0);
    assert!(!needs_release);
}

#[test]
fn test_classify_and_ancilla_mz() {
    let stmt = call_stmt("mz", Quantity::One);
    assert_eq!(classify_statement(&stmt), ReversibleClass::Measurement);
    let (num_ancilla, needs_release) = ancilla_requirements(&stmt);
    assert_eq!(num_ancilla, 1);
    assert!(needs_release);
}

#[test]
fn test_is_natively_reversible() {
    let h_stmt = call_stmt("h", Quantity::One);
    assert!(is_natively_reversible(&h_stmt));
}

#[test]
fn test_emit_intrinsic_name() {
    assert_eq!(qir_intrinsic_name(ReversibleClass::NativeUnitary, "h"), "qir.h");
    assert_eq!(qir_intrinsic_name(ReversibleClass::NativeUnitary, "cx"), "qir.cx");
    assert_eq!(qir_intrinsic_name(ReversibleClass::Permutation, "swap"), "qir.swap");
    assert_eq!(qir_intrinsic_name(ReversibleClass::Measurement, "mz"), "qir.mz");
}

#[test]
fn test_intrinsic_lookup() {
    assert!(get_intrinsic("qir.h").is_some());
    assert!(get_intrinsic("qir.cx").is_some());
    assert!(get_intrinsic("qir.mz").is_some());
    assert!(get_intrinsic("qir.qubit_alloc").is_some());
    assert!(get_intrinsic("nonexistent").is_none());
}

#[test]
fn test_intrinsic_signatures() {
    let h = get_intrinsic("qir.h").unwrap();
    assert_eq!(h.param_types.len(), 1);
    assert!(matches!(h.param_types[0], QirIntrinsicParamType::Qubit));
    assert!(matches!(h.ret_type, QirIntrinsicRetType::Void));

    let cx = get_intrinsic("qir.cx").unwrap();
    assert_eq!(cx.param_types.len(), 2);
    assert!(matches!(cx.param_types[0], QirIntrinsicParamType::Qubit));
    assert!(matches!(cx.param_types[1], QirIntrinsicParamType::Qubit));

    let mz = get_intrinsic("qir.mz").unwrap();
    assert_eq!(mz.param_types.len(), 1);
    assert!(matches!(mz.ret_type, QirIntrinsicRetType::Result));
}

#[test]
fn test_all_required_intrinsics() {
    let required = [
        "qir.mz", "qir.mx", "qir.my", "qir.h", "qir.x", "qir.cx", "qir.ccx", "qir.t", "qir.s", "qir.rz",
        "qir.r1", "qir.rt1", "qir.qubit_alloc", "qir.qubit_release", "qir.result_record", "qir.result_update",
    ];
    for name in required {
        assert!(get_intrinsic(name).is_some(), "Missing intrinsic: {}", name);
    }
}

#[test]
fn test_profile_creation() {
    let base = QirProfile::new(QirProfileKind::Base);
    assert_eq!(base.kind(), QirProfileKind::Base);
    assert!(!base.allows_dynamic_control_flow());
    assert!(base.allows_classical_computation());
    assert!(!base.allows_qubit_reuse());
}

#[test]
fn test_adaptive_profile() {
    let adaptive = QirProfile::new(QirProfileKind::Adaptive);
    assert_eq!(adaptive.kind(), QirProfileKind::Adaptive);
    assert!(adaptive.allows_dynamic_control_flow());
    assert!(adaptive.allows_qubit_reuse());
}

#[test]
fn test_intrinsic_enabling() {
    let base = QirProfile::new(QirProfileKind::Base);
    assert!(base.is_intrinsic_enabled("qir.h"));
    assert!(base.is_intrinsic_enabled("qir.cx"));
    assert!(base.is_intrinsic_enabled("qir.mz"));
    assert!(!base.is_intrinsic_enabled("qir.if"));
}

#[test]
fn test_profile_validation() {
    let base = QirProfile::new(QirProfileKind::Base);
    let valid_ir = "; Module\n@qir.h = declare void\n";
    assert!(base.validate_module(valid_ir).is_ok());

    let invalid_ir = "; Module\n@qir.if = declare void\n";
    assert!(base.validate_module(invalid_ir).is_err());
}

#[test]
fn test_target_capabilities() {
    let base_caps = QirTargetCapabilities::for_profile(QirProfileKind::Base);
    assert!(base_caps.supports_gate("h"));
    assert!(base_caps.supports_gate("cx"));
    assert!(!base_caps.supports_gate("u"));
    assert!(base_caps.supports_measurement_basis("z"));
    assert!(!base_caps.supports_adaptive_control_flow);

    let adaptive_caps = QirTargetCapabilities::for_profile(QirProfileKind::Adaptive);
    assert!(adaptive_caps.supports_adaptive_control_flow);
    assert!(adaptive_caps.supports_qubit_reuse);
}

#[test]
fn qir_module_reports_its_qubits() {
    let m = QIRModule {
        qubit_count: 2,
        qubit_quantities: vec![Quantity::One, Quantity::Zero],
        operations: vec![
            QIROperation::AllocateQubit { index: 0, quantity: Quantity::One },
            QIROperation::Gate { name: "rx".to_string(), qubits: vec![0], params: vec!["0.5".to_string()] },
            QIROperation::Measure { qubit: 0, basis: 0 },
            QIROperation::ReleaseQubit { index: 0 },
        ],
    };
    assert_eq!(m.qubit_count(), 2);
    assert_eq!(m.qubit_quantities(), &[Quantity::One, Quantity::Zero]);
}
