use naso_compiler::codegen::context_core::{CodegenTarget, OptLevel};
use naso_compiler::codegen::error::CodegenError;
use naso_compiler::codegen::polyhedral_opts::PolyhedralOptimizer;
use naso_compiler::codegen::{Backend, CodegenConfig, CodegenPipeline};
use naso_compiler::ir::pir_types::{PirModule, QuantityMap};
use naso_compiler::ir::access_relation::AccessRelations;
use naso_compiler::ir::schedule_tree::{ScheduleNode, ScheduleTree};
use naso_compiler::lexer::token::TokenSpan;
use naso_compiler::lexer::LexError;

#[test]
fn test_optimizer_creation() {
    let optimizer = PolyhedralOptimizer::new();
    let _ = optimizer;
}

#[test]
fn test_tiling() {
    let optimizer = PolyhedralOptimizer::new();
    let result = optimizer.apply_extension(&[4, 8], &ScheduleNode::Empty, |_| Ok(()));
    assert!(result.is_ok());
}

#[test]
fn fusion_lowers_each_node_and_stops_at_the_first_error() {
    let optimizer = PolyhedralOptimizer::default();
    let nodes = vec![ScheduleNode::Empty, ScheduleNode::Empty];
    assert!(optimizer.apply_fusion(&nodes, |_| Ok(())).is_ok());
    let r = optimizer.apply_fusion(&nodes, |_| Err(CodegenError::UnsupportedFeature("x".to_string())));
    assert!(matches!(r, Err(CodegenError::UnsupportedFeature(m)) if m == "x"));
    let one = vec![ScheduleNode::Empty];
    assert!(optimizer.apply_fusion(&one, |_| Err(CodegenError::UnsupportedFeature("x".to_string()))).is_ok());
}

#[test]
fn interchange_unrolling_vectorization_lower_the_node() {
    let optimizer = PolyhedralOptimizer::new();
    let n = ScheduleNode::Empty;
    assert!(optimizer.apply_interchange(&n, 0, 1, |_| Ok(())).is_ok());
    assert!(optimizer.apply_unrolling(&n, 4, |_| Err(CodegenError::UnsupportedFeature("u".to_string()))).is_err());
    assert!(optimizer.apply_vectorization(&n, 8, |_| Ok(())).is_ok());
}

#[test]
fn target_triples() {
    assert_eq!(CodegenTarget::Host.triple(), "x86_64-pc-windows-msvc");
    assert_eq!(CodegenTarget::Nvptx64.triple(), "nvptx64-nvidia-cuda");
    assert_eq!(CodegenTarget::Wasm32.triple(), "wasm32-unknown-unknown");
    assert_eq!(CodegenTarget::Aarch64.triple(), "aarch64-unknown-linux-gnu");
    assert_eq!(CodegenTarget::Custom("riscv64-unknown-elf".to_string()).triple(), "riscv64-unknown-elf");
}

#[test]
fn targets_parse_case_insensitively() {
    assert_eq!(CodegenTarget::from_str("Native"), Ok(CodegenTarget::Host));
    assert_eq!(CodegenTarget::from_str("CUDA"), Ok(CodegenTarget::Nvptx64));
    assert_eq!(CodegenTarget::from_str("gpu"), Ok(CodegenTarget::Nvptx64));
    assert_eq!(CodegenTarget::from_str("wasm"), Ok(CodegenTarget::Wasm32));
    assert_eq!(CodegenTarget::from_str("ARM64"), Ok(CodegenTarget::Aarch64));
    assert_eq!(CodegenTarget::from_str("RISCV64-Unknown-ELF"), Ok(CodegenTarget::Custom("riscv64-unknown-elf".to_string())));
}

#[test]
fn optimization_levels_as_numbers() {
    assert_eq!(u32::from(OptLevel::NoOpt), 0);
    assert_eq!(u32::from(OptLevel::Less), 1);
    assert_eq!(u32::from(OptLevel::Default), 2);
    assert_eq!(u32::from(OptLevel::Aggressive), 3);
}

#[test]
fn default_configuration() {
    let c = CodegenConfig::default();
    assert_eq!(c.backend, Backend::Llvm);
    assert_eq!(c.target, CodegenTarget::Host);
    assert_eq!(c.opt_level, OptLevel::Default);
    assert!(c.output_path.is_none());
    assert!(!c.emit_debug);
}

#[test]
fn pipeline_without_backends_reports_them() {
    let p = CodegenPipeline::new(());
    let module = PirModule::new(vec![], ScheduleTree::new(ScheduleNode::Empty, vec![]), AccessRelations::new(), QuantityMap::new(), vec![]);
    assert!(matches!(p.emit_llvm(&module), Err(CodegenError::UnsupportedFeature(m)) if m == "LLVM backend not enabled. Compile with 'llvm' feature."));
    assert!(matches!(p.emit_qir(&module), Err(CodegenError::UnsupportedFeature(m)) if m == "QIR backend requires LLVM. Compile with 'llvm' feature."));
    assert!(matches!(p.execute_cranelift_jit(&module), Err(CodegenError::UnsupportedFeature(m)) if m == "Cranelift backend not enabled. Compile with 'cranelift' feature."));
}

#[test]
fn token_spans() {
    let a = TokenSpan::new(3, 7);
    assert_eq!((a.start, a.end, a.line, a.column), (3, 7, 1, 1));
    let b = TokenSpan::with_position(1, 5, 2, 9);
    let m = b.merge(TokenSpan::with_position(4, 12, 3, 2));
    assert_eq!(m, TokenSpan::with_position(1, 12, 2, 9));
    let a = TokenSpan::with_position(10, 15, 2, 5);
    let b = TokenSpan::with_position(20, 25, 3, 1);
    assert_eq!(a.merge(b), TokenSpan::with_position(10, 25, 2, 5));
    assert_eq!(b.merge(a), TokenSpan::with_position(10, 25, 2, 5));
}

#[test]
fn lex_error_text() {
    let e = LexError { offset: 17, message: "unexpected character '$'".to_string() };
    assert_eq!(e.to_string(), "lex error at byte 17: unexpected character '$'");
}
