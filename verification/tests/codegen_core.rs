use naso_compiler::codegen::validate::{PirStructure, StructuralVerifier};
use naso_compiler::ast::ty::{Type, TypeKind};
use naso_compiler::ast::{Quantity, Span};
use naso_compiler::codegen::abi_core::{lower_pir_type, QuantityAwareType};
use naso_compiler::codegen::error::{CodegenError, Diagnostic, DiagnosticEmitter, Severity, SourceMap};
use naso_compiler::codegen::validate::{
    QirValidationReport, StructuralReport, ValidationError, ValidationReport, ValidationSeverity, ValidationWarning,
};
use naso_compiler::ir::pir_types::QuantityMap;

#[test]
fn test_zero_quantity_erased() {
    let ty = Type::new(TypeKind::Int, Quantity::Zero, Span::default());
    let quantities = QuantityMap::new();
    let result = lower_pir_type(&ty, &quantities);
    assert!(matches!(result, Ok(QuantityAwareType::Erased)));
}

#[test]
fn test_one_quantity_linear() {
    let ty = Type::new(TypeKind::Int, Quantity::One, Span::default());
    let quantities = QuantityMap::new();
    let result = lower_pir_type(&ty, &quantities);
    assert!(matches!(result, Ok(QuantityAwareType::Linear(_))));
}

#[test]
fn test_many_quantity_unrestricted() {
    let ty = Type::new(TypeKind::Int, Quantity::Many, Span::default());
    let quantities = QuantityMap::new();
    let result = lower_pir_type(&ty, &quantities);
    assert!(matches!(result, Ok(QuantityAwareType::Unrestricted(_))));
}

#[test]
fn test_qubit_type() {
    let ty = Type::new(TypeKind::Qubit, Quantity::One, Span::default());
    let quantities = QuantityMap::new();
    let result = lower_pir_type(&ty, &quantities);
    assert!(matches!(result, Ok(QuantityAwareType::Linear(_))));
}

#[test]
fn test_codegen_error_display() {
    let err = CodegenError::TypeLoweringError("invalid type".to_string());
    assert!(err.to_string().contains("Type lowering error"));
}

#[test]
fn test_codegen_error_diagnostic() {
    let err = CodegenError::TypeLoweringError("test error".to_string());
    assert_eq!(err.message(), "test error");
    assert_eq!(err.severity(), Severity::Error);
}

#[test]
fn test_diagnostic_emitter() {
    let mut emitter = DiagnosticEmitter::new();
    let err = CodegenError::TypeLoweringError("test".to_string());
    emitter.emit(err);
    assert!(emitter.has_errors());
}

#[test]
fn test_source_map() {
    let mut map = SourceMap::new();
    let id = map.add_file("test.naso".into(), "fn main() {}\n".into());
    assert_eq!(id, 0);
}

#[test]
fn test_validation_report() {
    let mut report = ValidationReport::new();
    report.passed_checks.push("test".to_string());
    report.warnings.push(ValidationWarning { check: "test".to_string(), message: "warning".to_string() });
    report.errors.push(ValidationError {
        check: "test".to_string(),
        message: "error".to_string(),
        severity: ValidationSeverity::Error,
    });

    assert!(!report.has_errors());
    assert!(report.has_warnings());
}

#[test]
fn test_qir_validation_report() {
    let mut report = QirValidationReport::new();
    report.passed_checks.push("test".to_string());
    assert!(!report.has_errors());
}

#[test]
fn test_structural_report() {
    let mut report = StructuralReport::new();
    report.matched_elements.push("test".to_string());
    assert!(report.all_matched());
}

#[test]
fn test_pir_structure_default() {
    let structure = PirStructure::default();
    assert!(structure.statements.is_empty());
    assert!(structure.domains.is_empty());
    assert!(structure.arrays.is_empty());
}

#[test]
fn structural_comparison_with_llvm() {
    let pir = "  S0 = A[i] + 1\n  Band_domain = { i }\n  access array_name = \"A\" \n  Other = x\n";
    let llvm = "define void @fn_s0() {\nbr label %loop\n}\n@A = global";
    let rep = StructuralVerifier::verify_pir_to_llvm(pir, llvm).unwrap();
    assert_eq!(rep.matched_elements, vec![
        "Statement -> Function: S0".to_string(),
        "Array -> Global/Value: A".to_string(),
        "Loop structure".to_string(),
    ]);
    assert!(rep.all_matched());

    let rep = StructuralVerifier::verify_pir_to_llvm(pir, "nothing here").unwrap();
    assert_eq!(rep.mismatched_elements, vec![
        "Missing function for statement: S0".to_string(),
        "Missing allocation for array: A".to_string(),
        "Missing loop structure".to_string(),
    ]);
    assert!(rep.matched_elements.is_empty());
}

#[test]
fn structural_comparison_with_qir() {
    let pir = "S1 measure = q\nS2 = x + 1\narray_name = \"qreg\"\r\n";
    let rep = StructuralVerifier::verify_pir_to_qir(pir, "call @__quantum__rt__qubit_allocate()").unwrap();
    assert_eq!(rep.matched_elements, vec![
        "Quantum statement -> QIR: S1 measure".to_string(),
        "Qubit register allocation".to_string(),
    ]);
    let rep = StructuralVerifier::verify_pir_to_qir(pir, "").unwrap();
    assert_eq!(rep.mismatched_elements, vec![
        "Missing QIR for quantum statement: S1 measure".to_string(),
        "Missing qubit allocation in QIR".to_string(),
    ]);
    assert_eq!(rep.summary(), "Structural Verification: 0 matched, 2 mismatched");
}

#[test]
fn codegen_errors_point_nowhere() {
    let e = CodegenError::QirError("bad".to_string());
    assert!(e.span().is_none());
    assert!(e.file().is_none());
    assert_eq!(e.message(), "bad");
}
