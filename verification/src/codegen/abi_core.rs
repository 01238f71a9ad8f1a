//! Quantity-aware lowering of types to abstract LLVM types, and the calling
//! convention built on it:
//! `[0]` is erased, `[1]` passes by value as an aggregate, `[*]` and `[N]`
//! pass as pointers.

use vstd::prelude::*;
use crate::ast::{Quantity, Span};
use crate::ast::ty::{Type, TypeKind};
use crate::codegen::error::CodegenError;
use crate::ir::pir_types::{PirModule, QuantityMap};

verus! {

/// Quantity-aware type for code generation.
#[derive(Debug)]
pub enum QuantityAwareType {
    /// `[0]`: never appears in runtime IR.
    Erased,
    /// `[1]`: passed by value as an aggregate.
    Linear(LlvmAggregateType),
    /// `[*]` or `[N]`: passed as a pointer.
    Unrestricted(LlvmPointerType),
    /// Qubit.
    Qubit,
    /// Measurement result.
    Result,
}

#[derive(Debug)]
pub enum LlvmAggregateType {
    Int(IntWidth),
    Float(FloatWidth),
    Struct(Vec<QuantityAwareType>),
    Array(Box<QuantityAwareType>, u64),
    Tuple(Vec<QuantityAwareType>),
}

#[derive(Debug, Clone, Copy, PartialEq, Eq, Structural)]
pub enum IntWidth {
    I1,
    I8,
    I16,
    I32,
    I64,
    I128,
}

#[derive(Debug, Clone, Copy, PartialEq, Eq, Structural)]
pub enum FloatWidth {
    F16,
    F32,
    F64,
    F128,
}

#[derive(Debug)]
pub struct LlvmPointerType {
    pub pointee: Box<QuantityAwareType>,
    pub address_space: u32,
}

/// A quantity-aware type as a value.
pub enum QatModel {
    Erased,
    Linear(AggModel),
    Unrestricted(PtrModel),
    Qubit,
    Result,
}

/// An aggregate as a value.
pub enum AggModel {
    Int(IntWidth),
    Float(FloatWidth),
    Struct(Seq<QatModel>),
    Array(Box<QatModel>, u64),
    Tuple(Seq<QatModel>),
}

/// A pointer as a value.
pub struct PtrModel {
    pub pointee: Box<QatModel>,
    pub address_space: u32,
}

pub open spec fn qat_view(q: QuantityAwareType) -> QatModel
    decreases q,
{
    match q {
        QuantityAwareType::Erased => QatModel::Erased,
        QuantityAwareType::Linear(a) => QatModel::Linear(agg_view(a)),
        QuantityAwareType::Unrestricted(p) => QatModel::Unrestricted(ptr_view(p)),
        QuantityAwareType::Qubit => QatModel::Qubit,
        QuantityAwareType::Result => QatModel::Result,
    }
}

pub open spec fn agg_view(a: LlvmAggregateType) -> AggModel
    decreases a,
{
    match a {
        LlvmAggregateType::Int(w) => AggModel::Int(w),
        LlvmAggregateType::Float(w) => AggModel::Float(w),
        LlvmAggregateType::Struct(fs) => AggModel::Struct(qats_view(fs@)),
        LlvmAggregateType::Array(e, n) => AggModel::Array(Box::new(qat_view(*e)), n),
        LlvmAggregateType::Tuple(fs) => AggModel::Tuple(qats_view(fs@)),
    }
}

pub open spec fn ptr_view(p: LlvmPointerType) -> PtrModel
    decreases p,
{
    PtrModel { pointee: Box::new(qat_view(*p.pointee)), address_space: p.address_space }
}

pub open spec fn qats_view(s: Seq<QuantityAwareType>) -> Seq<QatModel>
    decreases s,
{
    if s.len() == 0 {
        Seq::empty()
    } else {
        qats_view(s.drop_last()).push(qat_view(s.last()))
    }
}

impl QuantityAwareType {
    pub fn is_erased(&self) -> (r: bool)
        ensures
            r == (*self is Erased),
    {
        match self {
            QuantityAwareType::Erased => true,
            _ => false,
        }
    }

    pub fn is_linear(&self) -> (r: bool)
        ensures
            r == (*self is Linear),
    {
        match self {
            QuantityAwareType::Linear(_) => true,
            _ => false,
        }
    }

    pub fn is_unrestricted(&self) -> (r: bool)
        ensures
            r == (*self is Unrestricted),
    {
        match self {
            QuantityAwareType::Unrestricted(_) => true,
            _ => false,
        }
    }
}

/// Message for an unresolved type variable.
pub open spec fn unresolved_message() -> Seq<char> {
    "Cannot lower unresolved type variable"@
}

/// Message for the error type.
pub open spec fn error_type_message() -> Seq<char> {
    "Cannot lower error type"@
}

/// A type with its quantity: erased, linear aggregate or pointer.
pub open spec fn lower_model(ty: Type) -> Result<QatModel, Seq<char>>
    decreases ty, 0int,
{
    match ty.quantity {
        Quantity::Zero => Ok(QatModel::Erased),
        Quantity::One => match agg_model(ty.kind) {
            Ok(a) => Ok(QatModel::Linear(a)),
            Err(e) => Err(e),
        },
        _ => match ptr_model(ty.kind) {
            Ok(p) => Ok(QatModel::Unrestricted(p)),
            Err(e) => Err(e),
        },
    }
}

/// Each type lowered in order; the first error stops the list.
pub open spec fn lower_all_model(tys: Seq<Type>) -> Result<Seq<QatModel>, Seq<char>>
    decreases tys, 0int,
{
    if tys.len() == 0 {
        Ok(Seq::empty())
    } else {
        match lower_all_model(tys.drop_last()) {
            Err(e) => Err(e),
            Ok(prev) => match lower_model(tys.last()) {
                Err(e) => Err(e),
                Ok(q) => Ok(prev.push(q)),
            },
        }
    }
}

/// Each lowered type wrapped as a linear one-field struct.
pub open spec fn wrap_linear(s: Seq<QatModel>) -> Seq<QatModel> {
    Seq::new(s.len(), |i: int| QatModel::Linear(AggModel::Struct(seq![s[i]])))
}

/// The pointer for an unrestricted value of a kind.
pub open spec fn ptr_model(kind: TypeKind) -> Result<PtrModel, Seq<char>>
    decreases kind, 1int,
{
    match kind {
        TypeKind::Qubit => Ok(PtrModel { pointee: Box::new(QatModel::Qubit), address_space: 0 }),
        TypeKind::QRegister(_) => Ok(PtrModel {
            pointee: Box::new(QatModel::Linear(AggModel::Struct(Seq::empty()))),
            address_space: 0,
        }),
        _ => match agg_model(kind) {
            Ok(a) => Ok(PtrModel { pointee: Box::new(QatModel::Linear(a)), address_space: 0 }),
            Err(e) => Err(e),
        },
    }
}

/// The aggregate for a linear value of a kind.
pub open spec fn agg_model(kind: TypeKind) -> Result<AggModel, Seq<char>>
    decreases kind, 0int,
{
    match kind {
        TypeKind::Unit => Ok(AggModel::Struct(Seq::empty())),
        TypeKind::Bool => Ok(AggModel::Int(IntWidth::I1)),
        TypeKind::Int => Ok(AggModel::Int(IntWidth::I64)),
        TypeKind::UInt => Ok(AggModel::Int(IntWidth::I64)),
        TypeKind::Float => Ok(AggModel::Float(FloatWidth::F64)),
        TypeKind::Nat => Ok(AggModel::Int(IntWidth::I64)),
        TypeKind::Qubit => Ok(AggModel::Struct(seq![QatModel::Qubit])),
        TypeKind::QRegister(dims) => Ok(AggModel::Struct(seq![
            QatModel::Linear(AggModel::Array(Box::new(QatModel::Qubit), dims@.len() as u64)),
        ])),
        TypeKind::Tensor(dims) => match lower_all_model(dims@) {
            Ok(qs) => Ok(AggModel::Struct(wrap_linear(qs))),
            Err(e) => Err(e),
        },
        TypeKind::Array(elem, size) => match lower_model(*elem) {
            Ok(q) => Ok(AggModel::Array(Box::new(q), array_size(size))),
            Err(e) => Err(e),
        },
        TypeKind::Tuple(elems) => match lower_all_model(elems@) {
            Ok(qs) => Ok(AggModel::Tuple(qs)),
            Err(e) => Err(e),
        },
        TypeKind::Named(_, _) => Ok(AggModel::Struct(Seq::empty())),
        TypeKind::Function(_, _) => Ok(AggModel::Struct(Seq::empty())),
        TypeKind::Projection(inner) => match ptr_model(inner.kind) {
            Ok(p) => Ok(AggModel::Struct(seq![QatModel::Unrestricted(p)])),
            Err(e) => Err(e),
        },
        TypeKind::Reversible(inner) => match agg_model(inner.kind) {
            Ok(a) => Ok(AggModel::Struct(seq![QatModel::Linear(a)])),
            Err(e) => Err(e),
        },
        TypeKind::Pi(_, domain, codomain) => match (lower_model(*domain), lower_model(*codomain)) {
            (Ok(d), Ok(c)) => Ok(AggModel::Struct(seq![QatModel::Linear(AggModel::Struct(seq![d, c]))])),
            (Err(e), _) => Err(e),
            (Ok(_), Err(e)) => Err(e),
        },
        TypeKind::Sigma(_, domain, codomain) => match (lower_model(*domain), lower_model(*codomain)) {
            (Ok(d), Ok(c)) => Ok(AggModel::Struct(seq![QatModel::Linear(AggModel::Struct(seq![d, c]))])),
            (Err(e), _) => Err(e),
            (Ok(_), Err(e)) => Err(e),
        },
        TypeKind::Lambda(_, _) => Ok(AggModel::Struct(Seq::empty())),
        TypeKind::App(_, _) => Ok(AggModel::Struct(Seq::empty())),
        TypeKind::Universe(_) => Ok(AggModel::Struct(Seq::empty())),
        TypeKind::Var(_) => Err(unresolved_message()),
        TypeKind::Meta(_) => Err(unresolved_message()),
        TypeKind::Error => Err(error_type_message()),
        TypeKind::String => Ok(AggModel::Struct(seq![
            QatModel::Unrestricted(PtrModel {
                pointee: Box::new(QatModel::Linear(AggModel::Int(IntWidth::I8))),
                address_space: 0,
            }),
            QatModel::Linear(AggModel::Int(IntWidth::I64)),
        ])),
        TypeKind::Char => Ok(AggModel::Int(IntWidth::I32)),
    }
}

/// Size of an array type: the value of its numeral, 0 when absent or not
/// a numeral.
pub open spec fn array_size(size: Option<crate::ast::ty::NatExpr>) -> u64 {
    match size {
        Some(n) => match crate::ast::ty::nat_value(n) {
            Some(v) => v as u64,
            None => 0,
        },
        None => 0,
    }
}

/// Array sizes in the type fit in a `u64`.
pub open spec fn sizes_fit(ty: Type) -> bool
    decreases ty, 0int,
{
    kind_sizes_fit(ty.kind)
}

pub open spec fn all_sizes_fit(tys: Seq<Type>) -> bool
    decreases tys, 0int,
{
    if tys.len() == 0 {
        true
    } else {
        all_sizes_fit(tys.drop_last()) && sizes_fit(tys.last())
    }
}

pub open spec fn kind_sizes_fit(kind: TypeKind) -> bool
    decreases kind, 0int,
{
    match kind {
        TypeKind::Tensor(dims) => all_sizes_fit(dims@),
        TypeKind::Tuple(elems) => all_sizes_fit(elems@),
        TypeKind::Array(elem, size) => sizes_fit(*elem) && (size matches Some(n) ==> (
            crate::ast::ty::nat_value(n) matches Some(v) ==> v <= u64::MAX)),
        TypeKind::Projection(inner) => kind_sizes_fit(inner.kind),
        TypeKind::Reversible(inner) => kind_sizes_fit(inner.kind),
        TypeKind::Pi(_, d, c) => sizes_fit(*d) && sizes_fit(*c),
        TypeKind::Sigma(_, d, c) => sizes_fit(*d) && sizes_fit(*c),
        _ => true,
    }
}

/// A lowering error as a value.
pub open spec fn lowering_error(e: CodegenError) -> Option<Seq<char>> {
    match e {
        CodegenError::TypeLoweringError(m) => Some(m@),
        _ => None,
    }
}

/// The result of a lowering as a value.
pub open spec fn lowered(r: Result<QuantityAwareType, CodegenError>) -> Result<QatModel, Seq<char>> {
    match r {
        Ok(q) => Ok(qat_view(q)),
        Err(e) => match lowering_error(e) {
            Some(m) => Err(m),
            None => Err(Seq::empty()),
        },
    }
}

/// Lowers a type according to its quantity: `[0]` is erased, `[1]`
/// becomes a linear aggregate, anything else a pointer.
pub fn lower_pir_type(ty: &Type, quantities: &QuantityMap) -> (r: Result<QuantityAwareType, CodegenError>)
    requires
        sizes_fit(*ty),
    ensures
        r matches Err(e) ==> e is TypeLoweringError,
        lowered(r) == lower_model(*ty),
    decreases *ty, 0int,
{
    match ty.quantity {
        Quantity::Zero => Ok(QuantityAwareType::Erased),
        Quantity::One => match lower_type_kind_to_aggregate(&ty.kind, quantities) {
            Ok(agg) => Ok(QuantityAwareType::Linear(agg)),
            Err(e) => Err(e),
        },
        _ => match lower_type_kind_to_pointer(&ty.kind, quantities) {
            Ok(ptr) => Ok(QuantityAwareType::Unrestricted(ptr)),
            Err(e) => Err(e),
        },
    }
}

/// Lowers each type in order; the first error stops.
fn lower_all(tys: &Vec<Type>, quantities: &QuantityMap) -> (r: Result<Vec<QuantityAwareType>, CodegenError>)
    requires
        all_sizes_fit(tys@),
    ensures
        r matches Err(e) ==> e is TypeLoweringError && lower_all_model(tys@) == Err::<Seq<QatModel>, Seq<char>>(lowering_error(e)->0),
        r matches Ok(v) ==> lower_all_model(tys@) == Ok::<Seq<QatModel>, Seq<char>>(qats_view(v@)),
    decreases *tys, 0int,
{
    let mut out: Vec<QuantityAwareType> = Vec::new();
    let mut i: usize = 0;
    assert(tys@.subrange(0, 0) =~= Seq::<Type>::empty());
    assert(qats_view(out@) =~= Seq::<QatModel>::empty());
    while i < tys.len()
        invariant
            i <= tys@.len(),
            all_sizes_fit(tys@),
            lower_all_model(tys@.subrange(0, i as int)) == Ok::<Seq<QatModel>, Seq<char>>(qats_view(out@)),
        decreases tys@.len() - i,
    {
        proof {
            assert(decreases_to!(tys => tys@));
            assert(decreases_to!(tys@ => tys@[i as int]));
            let s = tys@.subrange(0, i + 1);
            assert(s.drop_last() =~= tys@.subrange(0, i as int));
            assert(s.last() == tys@[i as int]);
            lemma_sizes_fit_index(tys@, i as int);
        }
        match lower_pir_type(&tys[i], quantities) {
            Ok(q) => {
                let ghost before = out@;
                let ghost qv = qat_view(q);
                out.push(q);
                proof {
                    assert(out@.drop_last() =~= before);
                    assert(qats_view(out@) == qats_view(before).push(qv));
                }
            },
            Err(e) => {
                proof {
                    lemma_lower_all_error_extends(tys@, i + 1);
                }
                return Err(e);
            },
        }
        i = i + 1;
    }
    assert(tys@.subrange(0, tys@.len() as int) =~= tys@);
    Ok(out)
}

/// Lowers each type in order, wrapping each in a linear one-field struct;
/// the first error stops.
fn lower_all_wrapped(tys: &Vec<Type>, quantities: &QuantityMap) -> (r: Result<Vec<QuantityAwareType>, CodegenError>)
    requires
        all_sizes_fit(tys@),
    ensures
        r matches Err(e) ==> e is TypeLoweringError && lower_all_model(tys@) == Err::<Seq<QatModel>, Seq<char>>(lowering_error(e)->0),
        r matches Ok(v) ==> lower_all_model(tys@) matches Ok(qs) && qats_view(v@) == wrap_linear(qs),
    decreases *tys, 0int,
{
    let mut out: Vec<QuantityAwareType> = Vec::new();
    let ghost mut qs: Seq<QatModel> = Seq::empty();
    let mut i: usize = 0;
    assert(tys@.subrange(0, 0) =~= Seq::<Type>::empty());
    assert(qats_view(out@) =~= wrap_linear(qs));
    while i < tys.len()
        invariant
            i <= tys@.len(),
            all_sizes_fit(tys@),
            lower_all_model(tys@.subrange(0, i as int)) == Ok::<Seq<QatModel>, Seq<char>>(qs),
            qats_view(out@) == wrap_linear(qs),
        decreases tys@.len() - i,
    {
        proof {
            assert(decreases_to!(tys => tys@));
            assert(decreases_to!(tys@ => tys@[i as int]));
            let s = tys@.subrange(0, i + 1);
            assert(s.drop_last() =~= tys@.subrange(0, i as int));
            assert(s.last() == tys@[i as int]);
            lemma_sizes_fit_index(tys@, i as int);
        }
        match lower_pir_type(&tys[i], quantities) {
            Ok(q) => {
                let ghost before = out@;
                let ghost qv = qat_view(q);
                let fields = one_field(q);
                let ghost fv = qats_view(fields@);
                let wrapped = QuantityAwareType::Linear(LlvmAggregateType::Struct(fields));
                assert(qat_view(wrapped) == QatModel::Linear(AggModel::Struct(seq![qv])));
                out.push(wrapped);
                proof {
                    assert(out@.drop_last() =~= before);
                    assert(qats_view(out@) == qats_view(before).push(QatModel::Linear(AggModel::Struct(seq![qv]))));
                    qs = qs.push(qv);
                    assert(qats_view(out@) =~= wrap_linear(qs));
                }
            },
            Err(e) => {
                proof {
                    lemma_lower_all_error_extends(tys@, i + 1);
                }
                return Err(e);
            },
        }
        i = i + 1;
    }
    assert(tys@.subrange(0, tys@.len() as int) =~= tys@);
    Ok(out)
}

proof fn lemma_sizes_fit_index(tys: Seq<Type>, i: int)
    requires
        all_sizes_fit(tys),
        0 <= i < tys.len(),
    ensures
        sizes_fit(tys[i]),
    decreases tys.len(),
{
    if i < tys.len() - 1 {
        lemma_sizes_fit_index(tys.drop_last(), i);
    }
}

/// An error in a prefix is the error of the whole list.
proof fn lemma_lower_all_error_extends(tys: Seq<Type>, k: int)
    requires
        0 <= k <= tys.len(),
        lower_all_model(tys.subrange(0, k)) is Err,
    ensures
        lower_all_model(tys) == lower_all_model(tys.subrange(0, k)),
    decreases tys.len() - k,
{
    if k < tys.len() {
        let s = tys.subrange(0, k + 1);
        assert(s.drop_last() =~= tys.subrange(0, k));
        lemma_lower_all_error_extends(tys, k + 1);
    } else {
        assert(tys.subrange(0, k) =~= tys);
    }
}

fn unit_struct() -> (r: LlvmAggregateType)
    ensures
        agg_view(r) == AggModel::Struct(Seq::empty()),
{
    let v: Vec<QuantityAwareType> = Vec::new();
    let r = LlvmAggregateType::Struct(v);
    assert(qats_view(v@) =~= Seq::<QatModel>::empty());
    r
}

fn one_field(q: QuantityAwareType) -> (r: Vec<QuantityAwareType>)
    ensures
        qats_view(r@) == seq![qat_view(q)],
{
    let mut v: Vec<QuantityAwareType> = Vec::new();
    let ghost qv = qat_view(q);
    v.push(q);
    assert(v@.drop_last() =~= Seq::<QuantityAwareType>::empty());
    assert(qats_view(v@.drop_last()) == Seq::<QatModel>::empty());
    assert(qats_view(v@) == qats_view(v@.drop_last()).push(qv));
    assert(qats_view(v@) =~= seq![qv]);
    v
}

fn two_fields(a: QuantityAwareType, b: QuantityAwareType) -> (r: Vec<QuantityAwareType>)
    ensures
        qats_view(r@) == seq![qat_view(a), qat_view(b)],
{
    let ghost av = qat_view(a);
    let ghost bv = qat_view(b);
    let mut v = one_field(a);
    let ghost before = v@;
    v.push(b);
    assert(v@.drop_last() =~= before);
    assert(qats_view(v@) == qats_view(before).push(bv));
    assert(qats_view(v@) =~= seq![av, bv]);
    v
}

/// The aggregate for a linear value of a kind.
pub fn lower_type_kind_to_aggregate(kind: &TypeKind, quantities: &QuantityMap) -> (r: Result<LlvmAggregateType, CodegenError>)
    requires
        kind_sizes_fit(*kind),
    ensures
        r matches Err(e) ==> e is TypeLoweringError && agg_model(*kind) == Err::<AggModel, Seq<char>>(lowering_error(e)->0),
        r matches Ok(a) ==> agg_model(*kind) == Ok::<AggModel, Seq<char>>(agg_view(a)),
    decreases *kind, 0int,
{
    match kind {
        TypeKind::Unit => Ok(unit_struct()),
        TypeKind::Bool => Ok(LlvmAggregateType::Int(IntWidth::I1)),
        TypeKind::Int => Ok(LlvmAggregateType::Int(IntWidth::I64)),
        TypeKind::UInt => Ok(LlvmAggregateType::Int(IntWidth::I64)),
        TypeKind::Float => Ok(LlvmAggregateType::Float(FloatWidth::F64)),
        TypeKind::Nat => Ok(LlvmAggregateType::Int(IntWidth::I64)),
        TypeKind::Qubit => {
            let r = LlvmAggregateType::Struct(one_field(QuantityAwareType::Qubit));
            assert(agg_view(r) == AggModel::Struct(seq![QatModel::Qubit]));
            Ok(r)
        },
        TypeKind::QRegister(dims) => {
            let arr = LlvmAggregateType::Array(Box::new(QuantityAwareType::Qubit), dims.len() as u64);
            assert(agg_view(arr) == AggModel::Array(Box::new(QatModel::Qubit), dims@.len() as u64));
            let field = QuantityAwareType::Linear(arr);
            assert(qat_view(field) == QatModel::Linear(agg_view(arr)));
            let r = LlvmAggregateType::Struct(one_field(field));
            assert(agg_view(r) == AggModel::Struct(seq![qat_view(field)]));
            Ok(r)
        },
        TypeKind::Tensor(dims) => {
            proof {
                assert(decreases_to!(*kind => (*kind)->Tensor_0));
            }
            match lower_all_wrapped(dims, quantities) {
                Err(e) => Err(e),
                Ok(fields) => {
                    let ghost fv = qats_view(fields@);
                    let r = LlvmAggregateType::Struct(fields);
                    assert(agg_view(r) == AggModel::Struct(fv));
                    Ok(r)
                },
            }
        },
        TypeKind::Array(elem, size) => {
            match lower_pir_type(elem, quantities) {
                Err(e) => Err(e),
                Ok(elem_qt) => {
                    let ghost ev = qat_view(elem_qt);
                    let size_val: u64 = match size {
                        Some(n) => match n.to_u64() {
                            Some(v) => v,
                            None => 0,
                        },
                        None => 0,
                    };
                    let r = LlvmAggregateType::Array(Box::new(elem_qt), size_val);
                    assert(size_val == array_size(*size));
                    assert(agg_view(r) == AggModel::Array(Box::new(ev), size_val));
                    Ok(r)
                },
            }
        },
        TypeKind::Tuple(elems) => {
            proof {
                assert(decreases_to!(*kind => (*kind)->Tuple_0));
            }
            match lower_all(elems, quantities) {
                Err(e) => Err(e),
                Ok(v) => {
                    let ghost vv = qats_view(v@);
                    let r = LlvmAggregateType::Tuple(v);
                    assert(agg_view(r) == AggModel::Tuple(vv));
                    Ok(r)
                },
            }
        },
        TypeKind::Named(_, _) => Ok(unit_struct()),
        TypeKind::Function(_, _) => Ok(unit_struct()),
        TypeKind::Projection(inner) => match lower_type_kind_to_pointer(&inner.kind, quantities) {
            Err(e) => Err(e),
            Ok(ptr) => {
                let ghost pv = ptr_view(ptr);
                let field = QuantityAwareType::Unrestricted(ptr);
                assert(qat_view(field) == QatModel::Unrestricted(pv));
                let r = LlvmAggregateType::Struct(one_field(field));
                assert(agg_view(r) == AggModel::Struct(seq![QatModel::Unrestricted(pv)]));
                Ok(r)
            },
        },
        TypeKind::Reversible(inner) => match lower_type_kind_to_aggregate(&inner.kind, quantities) {
            Err(e) => Err(e),
            Ok(agg) => {
                let ghost av = agg_view(agg);
                let field = QuantityAwareType::Linear(agg);
                assert(qat_view(field) == QatModel::Linear(av));
                let r = LlvmAggregateType::Struct(one_field(field));
                assert(agg_view(r) == AggModel::Struct(seq![QatModel::Linear(av)]));
                Ok(r)
            },
        },
        TypeKind::Pi(_, domain, codomain) | TypeKind::Sigma(_, domain, codomain) => {
            match lower_pir_type(domain, quantities) {
                Err(e) => Err(e),
                Ok(dom_qt) => match lower_pir_type(codomain, quantities) {
                    Err(e) => Err(e),
                    Ok(cod_qt) => {
                        let ghost dv = qat_view(dom_qt);
                        let ghost cv = qat_view(cod_qt);
                        let inner = LlvmAggregateType::Struct(two_fields(dom_qt, cod_qt));
                        assert(agg_view(inner) == AggModel::Struct(seq![dv, cv]));
                        let field = QuantityAwareType::Linear(inner);
                        assert(qat_view(field) == QatModel::Linear(AggModel::Struct(seq![dv, cv])));
                        let r = LlvmAggregateType::Struct(one_field(field));
                        assert(agg_view(r) == AggModel::Struct(seq![QatModel::Linear(AggModel::Struct(seq![dv, cv]))]));
                        Ok(r)
                    },
                },
            }
        },
        TypeKind::Lambda(_, _) | TypeKind::App(_, _) => Ok(unit_struct()),
        TypeKind::Universe(_) => Ok(unit_struct()),
        TypeKind::Var(_) | TypeKind::Meta(_) => Err(CodegenError::TypeLoweringError(
            "Cannot lower unresolved type variable".to_string(),
        )),
        TypeKind::Error => Err(CodegenError::TypeLoweringError("Cannot lower error type".to_string())),
        TypeKind::String => {
            let byte = QuantityAwareType::Linear(LlvmAggregateType::Int(IntWidth::I8));
            assert(qat_view(byte) == QatModel::Linear(AggModel::Int(IntWidth::I8)));
            let p = LlvmPointerType { pointee: Box::new(byte), address_space: 0 };
            assert(ptr_view(p) == PtrModel { pointee: Box::new(QatModel::Linear(AggModel::Int(IntWidth::I8))), address_space: 0 });
            let ptr = QuantityAwareType::Unrestricted(p);
            assert(qat_view(ptr) == QatModel::Unrestricted(ptr_view(p)));
            let len = QuantityAwareType::Linear(LlvmAggregateType::Int(IntWidth::I64));
            assert(qat_view(len) == QatModel::Linear(AggModel::Int(IntWidth::I64)));
            let ghost pv = qat_view(ptr);
            let ghost lv = qat_view(len);
            let r = LlvmAggregateType::Struct(two_fields(ptr, len));
            assert(agg_view(r) == AggModel::Struct(seq![pv, lv]));
            Ok(r)
        },
        TypeKind::Char => Ok(LlvmAggregateType::Int(IntWidth::I32)),
    }
}

proof fn lemma_qats_view_prefix(s: Seq<QuantityAwareType>, i: int)
    requires
        0 <= i < s.len(),
    ensures
        qats_view(s.subrange(0, i + 1)) == qats_view(s.subrange(0, i)).push(qat_view(s[i])),
{
    let t = s.subrange(0, i + 1);
    assert(t.drop_last() =~= s.subrange(0, i));
}

/// The pointer for an unrestricted value of a kind.
pub fn lower_type_kind_to_pointer(kind: &TypeKind, quantities: &QuantityMap) -> (r: Result<LlvmPointerType, CodegenError>)
    requires
        kind_sizes_fit(*kind),
    ensures
        r matches Err(e) ==> e is TypeLoweringError && ptr_model(*kind) == Err::<PtrModel, Seq<char>>(lowering_error(e)->0),
        r matches Ok(p) ==> ptr_model(*kind) == Ok::<PtrModel, Seq<char>>(ptr_view(p)),
    decreases *kind, 1int,
{
    let pointee = match kind {
        TypeKind::Qubit => QuantityAwareType::Qubit,
        TypeKind::QRegister(_) => QuantityAwareType::Linear(unit_struct()),
        _ => match lower_type_kind_to_aggregate(kind, quantities) {
            Ok(agg) => QuantityAwareType::Linear(agg),
            Err(e) => {
                return Err(e);
            },
        },
    };
    Ok(LlvmPointerType { pointee: Box::new(pointee), address_space: 0 })
}

/// `[0]`-erased, `[1]`-linear or pointer lowering of each variable of the
/// module, by quantity alone.
pub open spec fn module_types_model(es: Seq<(Seq<char>, Quantity)>) -> Seq<(Seq<char>, QatModel)> {
    Seq::new(es.len(), |i: int| (es[i].0, match es[i].1 {
        Quantity::Zero => QatModel::Erased,
        Quantity::One => QatModel::Linear(AggModel::Int(IntWidth::I64)),
        _ => QatModel::Unrestricted(PtrModel {
            pointee: Box::new(QatModel::Linear(AggModel::Int(IntWidth::I64))),
            address_space: 0,
        }),
    }))
}

/// Lowered types as values.
pub open spec fn named_types_view(v: Seq<(String, QuantityAwareType)>) -> Seq<(Seq<char>, QatModel)> {
    v.map_values(|e: (String, QuantityAwareType)| (e.0@, qat_view(e.1)))
}

/// Lowers every variable of the module's quantity map, each as an `Int`
/// with its quantity; one entry per variable, in the map's order.
pub fn lower_pir_module_types(module: &PirModule) -> (r: Result<Vec<(String, QuantityAwareType)>, CodegenError>)
    ensures
        r matches Ok(v) && named_types_view(v@) == module_types_model(module.quantities@),
{
    let mut result: Vec<(String, QuantityAwareType)> = Vec::new();
    let n = module.quantities.len();
    let mut i: usize = 0;
    assert(named_types_view(result@) =~= module_types_model(module.quantities@).subrange(0, 0));
    while i < n
        invariant
            n == module.quantities@.len(),
            i <= n,
            named_types_view(result@) == module_types_model(module.quantities@).subrange(0, i as int),
        decreases n - i,
    {
        let (name, qty) = module.quantities.entry(i);
        let ty = Type { kind: TypeKind::Int, quantity: qty, span: Span { start: 0, end: 0, line: 0, column: 0 } };
        let lowered = lower_pir_type(&ty, &module.quantities);
        match lowered {
            Ok(q) => {
                let ghost before = result@;
                let ghost qv = qat_view(q);
                let e = (name.clone(), q);
                result.push(e);
                proof {
                    assert(named_types_view(result@) =~= named_types_view(before).push((name@, qv)));
                    assert(module_types_model(module.quantities@).subrange(0, i + 1)
                        =~= module_types_model(module.quantities@).subrange(0, i as int).push((name@, qv)));
                }
            },
            Err(e) => {
                assert(false);
                return Err(e);
            },
        }
        i = i + 1;
    }
    assert(module_types_model(module.quantities@).subrange(0, n as int) =~= module_types_model(module.quantities@));
    Ok(result)
}

/// Calling convention for Naso functions.
#[derive(Debug, Clone, Copy, PartialEq, Eq, Structural)]
pub struct NasoAbi {
    /// Linear arguments are passed by value.
    pub linear_by_value: bool,
    /// Unrestricted arguments are passed by pointer.
    pub unrestricted_by_pointer: bool,
    /// Linear results are returned through a pointer.
    pub linear_return_by_pointer: bool,
}

impl Default for NasoAbi {
    fn default() -> (r: Self)
        ensures
            r == (NasoAbi { linear_by_value: true, unrestricted_by_pointer: true, linear_return_by_pointer: true }),
    {
        NasoAbi { linear_by_value: true, unrestricted_by_pointer: true, linear_return_by_pointer: true }
    }
}

#[derive(Debug, Clone, Copy, PartialEq, Eq, Structural)]
pub enum ParamClass {
    Ignored,
    ByValue,
    ByPointer,
}

#[derive(Debug, Clone, Copy, PartialEq, Eq, Structural)]
pub enum ReturnClass {
    Void,
    ByValue,
    ByPointer,
}

/// How a parameter of the given type is passed.
pub open spec fn param_class(abi: NasoAbi, ty: QuantityAwareType) -> ParamClass {
    match ty {
        QuantityAwareType::Erased => ParamClass::Ignored,
        QuantityAwareType::Linear(_) => if abi.linear_by_value { ParamClass::ByValue } else { ParamClass::ByPointer },
        QuantityAwareType::Unrestricted(_) => if abi.unrestricted_by_pointer { ParamClass::ByPointer } else { ParamClass::ByValue },
        QuantityAwareType::Qubit => ParamClass::ByPointer,
        QuantityAwareType::Result => ParamClass::ByValue,
    }
}

/// How a result of the given type is returned.
pub open spec fn return_class(abi: NasoAbi, ty: QuantityAwareType) -> ReturnClass {
    match ty {
        QuantityAwareType::Erased => ReturnClass::Void,
        QuantityAwareType::Linear(_) => if abi.linear_return_by_pointer { ReturnClass::ByPointer } else { ReturnClass::ByValue },
        QuantityAwareType::Unrestricted(_) => ReturnClass::ByPointer,
        QuantityAwareType::Qubit => ReturnClass::ByPointer,
        QuantityAwareType::Result => ReturnClass::ByValue,
    }
}

impl NasoAbi {
    /// Classifies a parameter: erased ones are ignored, qubits go by pointer.
    pub fn classify_param(&self, ty: &QuantityAwareType) -> (r: ParamClass)
        ensures
            r == param_class(*self, *ty),
    {
        match ty {
            QuantityAwareType::Erased => ParamClass::Ignored,
            QuantityAwareType::Linear(_) => if self.linear_by_value { ParamClass::ByValue } else { ParamClass::ByPointer },
            QuantityAwareType::Unrestricted(_) => if self.unrestricted_by_pointer { ParamClass::ByPointer } else { ParamClass::ByValue },
            QuantityAwareType::Qubit => ParamClass::ByPointer,
            QuantityAwareType::Result => ParamClass::ByValue,
        }
    }

    /// Classifies a result: erased ones return nothing.
    pub fn classify_return(&self, ty: &QuantityAwareType) -> (r: ReturnClass)
        ensures
            r == return_class(*self, *ty),
    {
        match ty {
            QuantityAwareType::Erased => ReturnClass::Void,
            QuantityAwareType::Linear(_) => if self.linear_return_by_pointer { ReturnClass::ByPointer } else { ReturnClass::ByValue },
            QuantityAwareType::Unrestricted(_) => ReturnClass::ByPointer,
            QuantityAwareType::Qubit => ReturnClass::ByPointer,
            QuantityAwareType::Result => ReturnClass::ByValue,
        }
    }
}


/// The bits that one value of a scalar kind needs: truth values one,
/// characters 32, integers, naturals and floating-point numbers 64; other
/// kinds are not scalars.
pub open spec fn scalar_bits(k: TypeKind) -> Option<nat> {
    match k {
        TypeKind::Bool => Some(1),
        TypeKind::Char => Some(32),
        TypeKind::Int => Some(64),
        TypeKind::UInt => Some(64),
        TypeKind::Nat => Some(64),
        TypeKind::Float => Some(64),
        _ => None,
    }
}

/// The width of an integer type in bits.
pub open spec fn int_bits(w: IntWidth) -> nat {
    match w {
        IntWidth::I1 => 1,
        IntWidth::I8 => 8,
        IntWidth::I16 => 16,
        IntWidth::I32 => 32,
        IntWidth::I64 => 64,
        IntWidth::I128 => 128,
    }
}

/// The width of a floating-point type in bits.
pub open spec fn float_bits(w: FloatWidth) -> nat {
    match w {
        FloatWidth::F16 => 16,
        FloatWidth::F32 => 32,
        FloatWidth::F64 => 64,
        FloatWidth::F128 => 128,
    }
}

/// Scalars lower to scalars of their own width: a kind lowers to an integer
/// or floating-point type exactly when it is a scalar kind; that type is
/// floating-point exactly when the kind is `Float`, and it is as wide as a
/// value of the kind.
pub proof fn lemma_scalars_keep_width(k: TypeKind)
    ensures
        scalar_bits(k) is Some <==> (agg_model(k) matches Ok(a) && (a is Int || a is Float)),
        agg_model(k) matches Ok(AggModel::Int(w)) ==> !(k is Float) && scalar_bits(k) == Some(int_bits(w)),
        agg_model(k) matches Ok(AggModel::Float(w)) ==> k is Float && scalar_bits(k) == Some(float_bits(w)),
{
}

} // verus!
