//! QIR primitive types and the signatures of the QIR intrinsics.

use vstd::prelude::*;
use crate::text::str_eq;

verus! {

/// QIR primitive types.
#[derive(Debug, Clone, Copy, PartialEq, Eq, Structural)]
pub enum QirPrimitive {
    /// Opaque qubit.
    Qubit,
    /// Measurement result.
    Result,
    PauliI,
    PauliX,
    PauliY,
    PauliZ,
    /// Rotation angle.
    Double,
}

/// Return type of an intrinsic.
#[derive(Debug, Clone, Copy, PartialEq, Eq, Structural)]
pub enum QirIntrinsicRetType {
    Void,
    Qubit,
    Result,
    Double,
    Int(i32),
    Ptr,
    QubitArray,
}

/// Parameter type of an intrinsic.
#[derive(Debug, Clone, Copy, PartialEq, Eq, Structural)]
pub enum QirIntrinsicParamType {
    Qubit,
    Result,
    Double,
    Int(i32),
    Ptr,
    QubitArray,
    ResultArray,
}

/// Signature of a QIR intrinsic.
#[derive(Debug)]
pub struct QirIntrinsic {
    pub name: &'static str,
    pub ret_type: QirIntrinsicRetType,
    pub param_types: Vec<QirIntrinsicParamType>,
    pub is_var_args: bool,
}

/// The signature of each QIR intrinsic, by name.
pub open spec fn intrinsic_signature(n: Seq<char>) -> Option<(QirIntrinsicRetType, Seq<QirIntrinsicParamType>)> {
    let q = QirIntrinsicParamType::Qubit;
    let res = QirIntrinsicParamType::Result;
    let d = QirIntrinsicParamType::Double;
    let ptr = QirIntrinsicParamType::Ptr;
    let v = QirIntrinsicRetType::Void;
    if n == "qir.qubit_alloc"@ { Some((QirIntrinsicRetType::Qubit, seq![])) }
    else if n == "qir.qubit_release"@ { Some((v, seq![q])) }
    else if n == "qir.qubit_alloc_array"@ { Some((QirIntrinsicRetType::QubitArray, seq![QirIntrinsicParamType::Int(64)])) }
    else if n == "qir.qubit_release_array"@ { Some((v, seq![QirIntrinsicParamType::QubitArray])) }
    else if n == "qir.h"@ || n == "qir.x"@ || n == "qir.y"@ || n == "qir.z"@ || n == "qir.s"@ || n == "qir.t"@ { Some((v, seq![q])) }
    else if n == "qir.rx"@ || n == "qir.ry"@ || n == "qir.rz"@ || n == "qir.r1"@ || n == "qir.rt1"@ { Some((v, seq![d, q])) }
    else if n == "qir.cx"@ || n == "qir.cy"@ || n == "qir.cz"@ { Some((v, seq![q, q])) }
    else if n == "qir.ccx"@ { Some((v, seq![q, q, q])) }
    else if n == "qir.swap"@ || n == "qir.iswap"@ { Some((v, seq![q, q])) }
    else if n == "qir.mz"@ || n == "qir.mx"@ || n == "qir.my"@ { Some((QirIntrinsicRetType::Result, seq![q])) }
    else if n == "qir.measure"@ { Some((QirIntrinsicRetType::Result, seq![q, QirIntrinsicParamType::Int(8)])) }
    else if n == "qir.result_record"@ || n == "qir.result_update"@ { Some((v, seq![res, res])) }
    else if n == "qir.result_get"@ { Some((QirIntrinsicRetType::Result, seq![res])) }
    else if n == "qir.result_equal"@ { Some((QirIntrinsicRetType::Result, seq![res, res])) }
    else if n == "qir.array_record"@ { Some((v, seq![QirIntrinsicParamType::ResultArray, res])) }
    else if n == "qir.array_update"@ { Some((v, seq![QirIntrinsicParamType::ResultArray, res, QirIntrinsicParamType::Int(64)])) }
    else if n == "qir.if"@ { Some((v, seq![res, ptr, ptr])) }
    else if n == "qir.while"@ { Some((v, seq![ptr, ptr])) }
    else if n == "qir.adjoint"@ { Some((v, seq![ptr])) }
    else if n == "qir.controlled"@ { Some((v, seq![QirIntrinsicParamType::QubitArray, ptr])) }
    else if n == "qir.profiler_record"@ { Some((v, seq![ptr, QirIntrinsicParamType::Int(64)])) }
    else { None }
}

fn intrinsic(name: &'static str, ret_type: QirIntrinsicRetType, param_types: Vec<QirIntrinsicParamType>) -> (r: QirIntrinsic)
    ensures
        r.name == name,
        r.ret_type == ret_type,
        r.param_types@ == param_types@,
        !r.is_var_args,
{
    QirIntrinsic { name, ret_type, param_types, is_var_args: false }
}

/// The intrinsic of the given name, if it is a QIR intrinsic.
pub fn get_intrinsic(name: &str) -> (r: Option<QirIntrinsic>)
    ensures
        r is None <==> intrinsic_signature(name@) is None,
        r matches Some(i) ==> i.name@ == name@ && !i.is_var_args
            && intrinsic_signature(name@) == Some((i.ret_type, i.param_types@)),
{
    let q = QirIntrinsicParamType::Qubit;
    let res = QirIntrinsicParamType::Result;
    let d = QirIntrinsicParamType::Double;
    let ptr = QirIntrinsicParamType::Ptr;
    let v = QirIntrinsicRetType::Void;
    let r = if str_eq(name, "qir.qubit_alloc") { Some(intrinsic("qir.qubit_alloc", QirIntrinsicRetType::Qubit, vec![])) }
    else if str_eq(name, "qir.qubit_release") { Some(intrinsic("qir.qubit_release", v, vec![q])) }
    else if str_eq(name, "qir.qubit_alloc_array") { Some(intrinsic("qir.qubit_alloc_array", QirIntrinsicRetType::QubitArray, vec![QirIntrinsicParamType::Int(64)])) }
    else if str_eq(name, "qir.qubit_release_array") { Some(intrinsic("qir.qubit_release_array", v, vec![QirIntrinsicParamType::QubitArray])) }
    else if str_eq(name, "qir.h") { Some(intrinsic("qir.h", v, vec![q])) }
    else if str_eq(name, "qir.x") { Some(intrinsic("qir.x", v, vec![q])) }
    else if str_eq(name, "qir.y") { Some(intrinsic("qir.y", v, vec![q])) }
    else if str_eq(name, "qir.z") { Some(intrinsic("qir.z", v, vec![q])) }
    else if str_eq(name, "qir.s") { Some(intrinsic("qir.s", v, vec![q])) }
    else if str_eq(name, "qir.t") { Some(intrinsic("qir.t", v, vec![q])) }
    else if str_eq(name, "qir.rx") { Some(intrinsic("qir.rx", v, vec![d, q])) }
    else if str_eq(name, "qir.ry") { Some(intrinsic("qir.ry", v, vec![d, q])) }
    else if str_eq(name, "qir.rz") { Some(intrinsic("qir.rz", v, vec![d, q])) }
    else if str_eq(name, "qir.r1") { Some(intrinsic("qir.r1", v, vec![d, q])) }
    else if str_eq(name, "qir.rt1") { Some(intrinsic("qir.rt1", v, vec![d, q])) }
    else if str_eq(name, "qir.cx") { Some(intrinsic("qir.cx", v, vec![q, q])) }
    else if str_eq(name, "qir.cy") { Some(intrinsic("qir.cy", v, vec![q, q])) }
    else if str_eq(name, "qir.cz") { Some(intrinsic("qir.cz", v, vec![q, q])) }
    else if str_eq(name, "qir.ccx") { Some(intrinsic("qir.ccx", v, vec![q, q, q])) }
    else if str_eq(name, "qir.swap") { Some(intrinsic("qir.swap", v, vec![q, q])) }
    else if str_eq(name, "qir.iswap") { Some(intrinsic("qir.iswap", v, vec![q, q])) }
    else if str_eq(name, "qir.mz") { Some(intrinsic("qir.mz", QirIntrinsicRetType::Result, vec![q])) }
    else if str_eq(name, "qir.mx") { Some(intrinsic("qir.mx", QirIntrinsicRetType::Result, vec![q])) }
    else if str_eq(name, "qir.my") { Some(intrinsic("qir.my", QirIntrinsicRetType::Result, vec![q])) }
    else if str_eq(name, "qir.measure") { Some(intrinsic("qir.measure", QirIntrinsicRetType::Result, vec![q, QirIntrinsicParamType::Int(8)])) }
    else if str_eq(name, "qir.result_record") { Some(intrinsic("qir.result_record", v, vec![res, res])) }
    else if str_eq(name, "qir.result_update") { Some(intrinsic("qir.result_update", v, vec![res, res])) }
    else if str_eq(name, "qir.result_get") { Some(intrinsic("qir.result_get", QirIntrinsicRetType::Result, vec![res])) }
    else if str_eq(name, "qir.result_equal") { Some(intrinsic("qir.result_equal", QirIntrinsicRetType::Result, vec![res, res])) }
    else if str_eq(name, "qir.array_record") { Some(intrinsic("qir.array_record", v, vec![QirIntrinsicParamType::ResultArray, res])) }
    else if str_eq(name, "qir.array_update") { Some(intrinsic("qir.array_update", v, vec![QirIntrinsicParamType::ResultArray, res, QirIntrinsicParamType::Int(64)])) }
    else if str_eq(name, "qir.if") { Some(intrinsic("qir.if", v, vec![res, ptr, ptr])) }
    else if str_eq(name, "qir.while") { Some(intrinsic("qir.while", v, vec![ptr, ptr])) }
    else if str_eq(name, "qir.adjoint") { Some(intrinsic("qir.adjoint", v, vec![ptr])) }
    else if str_eq(name, "qir.controlled") { Some(intrinsic("qir.controlled", v, vec![QirIntrinsicParamType::QubitArray, ptr])) }
    else if str_eq(name, "qir.profiler_record") { Some(intrinsic("qir.profiler_record", v, vec![ptr, QirIntrinsicParamType::Int(64)])) }
    else { None };
    r
}

} // verus!
