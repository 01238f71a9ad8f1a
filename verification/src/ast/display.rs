//! Source-like text of quantities, operators and types, as their `Display`
//! shows them.

use vstd::prelude::*;
use crate::ast::ops::{BinOp, UnOp};
use crate::ast::ty::{MetaVar, NatExpr, Type, TypeArg, TypeKind, TypeVar};
use crate::ast::{Ident, Mutability, NodeId, Quantity};
use crate::text::{concat, decimal, u64_to_decimal};

verus! {

/// `[0]`, `[1]`, `[n]` or `[*]`.
pub open spec fn quantity_text(q: Quantity) -> Seq<char> {
    match q {
        Quantity::Zero => "[0]"@,
        Quantity::One => "[1]"@,
        Quantity::Bounded(n) => "["@ + decimal(n as nat) + "]"@,
        Quantity::Many => "[*]"@,
    }
}

/// The keyword of a mode, with its space; nothing for an immutable binding.
pub open spec fn mutability_text(m: Mutability) -> Seq<char> {
    match m {
        Mutability::Immutable => ""@,
        Mutability::InOut => "inout "@,
        Mutability::Consume => "consume "@,
    }
}

/// The symbol of a binary operator.
pub open spec fn binop_text(op: BinOp) -> Seq<char> {
    match op {
        BinOp::Add => "+"@,
        BinOp::Sub => "-"@,
        BinOp::Mul => "*"@,
        BinOp::Div => "/"@,
        BinOp::Rem => "%"@,
        BinOp::Eq => "=="@,
        BinOp::Ne => "!="@,
        BinOp::Lt => "<"@,
        BinOp::Le => "<="@,
        BinOp::Gt => ">"@,
        BinOp::Ge => ">="@,
        BinOp::And => "&&"@,
        BinOp::Or => "||"@,
        BinOp::BitAnd => "&"@,
        BinOp::BitOr => "|"@,
        BinOp::BitXor => "^"@,
        BinOp::Shl => "<<"@,
        BinOp::Shr => ">>"@,
        BinOp::Assign => "="@,
    }
}

/// The symbol of a unary operator.
pub open spec fn unop_text(op: UnOp) -> Seq<char> {
    match op {
        UnOp::Neg => "-"@,
        UnOp::Not => "!"@,
        UnOp::BitNot => "~"@,
        UnOp::Deref => "*"@,
        UnOp::InOut => "&mut"@,
        UnOp::Consume => "consume"@,
    }
}

impl Quantity {
    pub fn to_string(&self) -> (r: String)
        ensures
            r@ == quantity_text(*self),
    {
        match self {
            Quantity::Zero => "[0]".to_string(),
            Quantity::One => "[1]".to_string(),
            Quantity::Bounded(n) => {
                let d = u64_to_decimal(*n as u64);
                let a = concat("[", d.as_str());
                concat(a.as_str(), "]")
            },
            Quantity::Many => "[*]".to_string(),
        }
    }
}

impl Mutability {
    pub fn to_string(&self) -> (r: String)
        ensures
            r@ == mutability_text(*self),
    {
        match self {
            Mutability::Immutable => "".to_string(),
            Mutability::InOut => "inout ".to_string(),
            Mutability::Consume => "consume ".to_string(),
        }
    }
}

impl NodeId {
    /// `#` and the number.
    pub fn to_string(&self) -> (r: String)
        ensures
            r@ == "#"@ + decimal(self.0 as nat),
    {
        let d = u64_to_decimal(self.0 as u64);
        concat("#", d.as_str())
    }
}

impl Ident {
    /// The name.
    pub fn to_string(&self) -> (r: String)
        ensures
            r@ == self.name@,
    {
        self.name.clone()
    }
}

impl BinOp {
    pub fn to_string(&self) -> (r: String)
        ensures
            r@ == binop_text(*self),
    {
        match self {
            BinOp::Add => "+".to_string(),
            BinOp::Sub => "-".to_string(),
            BinOp::Mul => "*".to_string(),
            BinOp::Div => "/".to_string(),
            BinOp::Rem => "%".to_string(),
            BinOp::Eq => "==".to_string(),
            BinOp::Ne => "!=".to_string(),
            BinOp::Lt => "<".to_string(),
            BinOp::Le => "<=".to_string(),
            BinOp::Gt => ">".to_string(),
            BinOp::Ge => ">=".to_string(),
            BinOp::And => "&&".to_string(),
            BinOp::Or => "||".to_string(),
            BinOp::BitAnd => "&".to_string(),
            BinOp::BitOr => "|".to_string(),
            BinOp::BitXor => "^".to_string(),
            BinOp::Shl => "<<".to_string(),
            BinOp::Shr => ">>".to_string(),
            BinOp::Assign => "=".to_string(),
        }
    }
}

impl UnOp {
    pub fn to_string(&self) -> (r: String)
        ensures
            r@ == unop_text(*self),
    {
        match self {
            UnOp::Neg => "-".to_string(),
            UnOp::Not => "!".to_string(),
            UnOp::BitNot => "~".to_string(),
            UnOp::Deref => "*".to_string(),
            UnOp::InOut => "&mut".to_string(),
            UnOp::Consume => "consume".to_string(),
        }
    }
}

impl TypeVar {
    /// `?T` and the number.
    pub fn to_string(&self) -> (r: String)
        ensures
            r@ == "?T"@ + decimal(self.0 as nat),
    {
        let d = u64_to_decimal(self.0 as u64);
        concat("?T", d.as_str())
    }
}

impl MetaVar {
    /// `?M` and the number.
    pub fn to_string(&self) -> (r: String)
        ensures
            r@ == "?M"@ + decimal(self.0 as nat),
    {
        let d = u64_to_decimal(self.0 as u64);
        concat("?M", d.as_str())
    }
}

/// The text of a type: its quantity unless unrestricted, then its kind.
pub open spec fn type_text(t: Type) -> Seq<char>
    decreases t,
{
    if t.quantity != Quantity::Many {
        quantity_text(t.quantity) + " "@ + kind_text(t.kind)
    } else {
        kind_text(t.kind)
    }
}

/// Types separated by `, `.
pub open spec fn types_text(ts: Seq<Type>) -> Seq<char>
    decreases ts,
{
    if ts.len() == 0 {
        Seq::empty()
    } else if ts.len() == 1 {
        type_text(ts[0])
    } else {
        types_text(ts.drop_last()) + ", "@ + type_text(ts.last())
    }
}

/// Type arguments separated by `, `.
pub open spec fn args_text(ts: Seq<TypeArg>) -> Seq<char>
    decreases ts,
{
    if ts.len() == 0 {
        Seq::empty()
    } else if ts.len() == 1 {
        arg_text(ts[0])
    } else {
        args_text(ts.drop_last()) + ", "@ + arg_text(ts.last())
    }
}

/// The text of a type argument.
pub open spec fn arg_text(a: TypeArg) -> Seq<char>
    decreases a,
{
    match a {
        TypeArg::Type(t) => type_text(t),
        TypeArg::Nat(n) => nat_text(n),
        TypeArg::Quantity(q) => quantity_text(q),
    }
}

/// The text of a natural-number expression.
pub open spec fn nat_text(n: NatExpr) -> Seq<char>
    decreases n,
{
    match n {
        NatExpr::Zero => "0"@,
        NatExpr::Succ(inner) => nat_text(*inner) + " + 1"@,
        NatExpr::Var(v) => v.name@,
        NatExpr::Add(a, b) => nat_text(*a) + " + "@ + nat_text(*b),
        NatExpr::Mul(a, b) => nat_text(*a) + " * "@ + nat_text(*b),
        NatExpr::If(c, t, e) => "if "@ + type_text(*c) + " then "@ + nat_text(*t) + " else "@ + nat_text(*e),
    }
}

/// The text of a type kind.
pub open spec fn kind_text(k: TypeKind) -> Seq<char>
    decreases k,
{
    match k {
        TypeKind::Unit => "()"@,
        TypeKind::Bool => "Bool"@,
        TypeKind::Int => "Int"@,
        TypeKind::UInt => "UInt"@,
        TypeKind::Float => "Float"@,
        TypeKind::String => "String"@,
        TypeKind::Char => "Char"@,
        TypeKind::Nat => "Nat"@,
        TypeKind::Qubit => "Qubit"@,
        TypeKind::QRegister(dims) => "QRegister["@ + types_text(dims@) + "]"@,
        TypeKind::Tensor(dims) => "Tensor["@ + types_text(dims@) + "]"@,
        TypeKind::Array(elem, size) => match size {
            Some(n) => "["@ + type_text(*elem) + "; "@ + nat_text(n) + "]"@,
            None => "["@ + type_text(*elem) + "]"@,
        },
        TypeKind::Tuple(elems) => "("@ + types_text(elems@) + ")"@,
        TypeKind::Named(name, args) => if args@.len() == 0 {
            name.name@
        } else {
            name.name@ + "<"@ + args_text(args@) + ">"@
        },
        TypeKind::Function(params, ret) => "fn("@ + types_text(params@) + ") -> "@ + type_text(*ret),
        TypeKind::Projection(inner) => "&mut "@ + type_text(*inner),
        TypeKind::Reversible(inner) => "reversible "@ + type_text(*inner),
        TypeKind::Pi(name, dom, cod) => "Π("@ + name.name@ + ": "@ + type_text(*dom) + "). "@ + type_text(*cod),
        TypeKind::Sigma(name, fst, snd) => "Σ("@ + name.name@ + ": "@ + type_text(*fst) + "). "@ + type_text(*snd),
        TypeKind::Lambda(param, body) => "λ"@ + param.name@ + ". "@ + type_text(*body),
        TypeKind::App(fun, arg) => type_text(*fun) + " "@ + type_text(*arg),
        TypeKind::Universe(level) => "Type"@ + decimal(level as nat),
        TypeKind::Var(v) => "?T"@ + decimal(v.0 as nat),
        TypeKind::Meta(m) => "?M"@ + decimal(m.0 as nat),
        TypeKind::Error => "<error>"@,
    }
}

/// Joins three texts.
fn concat3(a: &str, b: &str, c: &str) -> (r: String)
    ensures
        r@ == a@ + b@ + c@,
{
    let ab = concat(a, b);
    concat(ab.as_str(), c)
}

fn type_to_text(t: &Type) -> (r: String)
    ensures
        r@ == type_text(*t),
    decreases t,
{
    let k = kind_to_text(&t.kind);
    match t.quantity {
        Quantity::Many => k,
        _ => {
            let q = t.quantity.to_string();
            concat3(q.as_str(), " ", k.as_str())
        },
    }
}

fn types_to_text(ts: &Vec<Type>) -> (r: String)
    ensures
        r@ == types_text(ts@),
    decreases ts,
{
    let mut out = String::new();
    let mut i: usize = 0;
    assert(ts@.subrange(0, 0) =~= Seq::<Type>::empty());
    assert(out@ =~= Seq::<char>::empty());
    while i < ts.len()
        invariant
            i <= ts@.len(),
            out@ == types_text(ts@.subrange(0, i as int)),
        decreases ts@.len() - i,
    {
        proof {
            assert(decreases_to!(ts => ts@));
            assert(decreases_to!(ts@ => ts@[i as int]));
            let s = ts@.subrange(0, i + 1);
            assert(s.drop_last() =~= ts@.subrange(0, i as int));
            assert(s.last() == ts@[i as int]);
            if i == 0 {
                assert(s.len() == 1);
            }
        }
        let t = type_to_text(&ts[i]);
        if i == 0 {
            out = t;
        } else {
            out = concat3(out.as_str(), ", ", t.as_str());
        }
        i = i + 1;
    }
    assert(ts@.subrange(0, ts@.len() as int) =~= ts@);
    out
}

fn args_to_text(ts: &Vec<TypeArg>) -> (r: String)
    ensures
        r@ == args_text(ts@),
    decreases ts,
{
    let mut out = String::new();
    let mut i: usize = 0;
    assert(ts@.subrange(0, 0) =~= Seq::<TypeArg>::empty());
    assert(out@ =~= Seq::<char>::empty());
    while i < ts.len()
        invariant
            i <= ts@.len(),
            out@ == args_text(ts@.subrange(0, i as int)),
        decreases ts@.len() - i,
    {
        proof {
            assert(decreases_to!(ts => ts@));
            assert(decreases_to!(ts@ => ts@[i as int]));
            let s = ts@.subrange(0, i + 1);
            assert(s.drop_last() =~= ts@.subrange(0, i as int));
            assert(s.last() == ts@[i as int]);
            if i == 0 {
                assert(s.len() == 1);
            }
        }
        let t = arg_to_text(&ts[i]);
        if i == 0 {
            out = t;
        } else {
            out = concat3(out.as_str(), ", ", t.as_str());
        }
        i = i + 1;
    }
    assert(ts@.subrange(0, ts@.len() as int) =~= ts@);
    out
}

fn arg_to_text(a: &TypeArg) -> (r: String)
    ensures
        r@ == arg_text(*a),
    decreases a,
{
    match a {
        TypeArg::Type(t) => type_to_text(t),
        TypeArg::Nat(n) => nat_to_text(n),
        TypeArg::Quantity(q) => q.to_string(),
    }
}

fn nat_to_text(n: &NatExpr) -> (r: String)
    ensures
        r@ == nat_text(*n),
    decreases n,
{
    match n {
        NatExpr::Zero => "0".to_string(),
        NatExpr::Succ(inner) => {
            let s = nat_to_text(inner);
            concat(s.as_str(), " + 1")
        },
        NatExpr::Var(v) => v.name.clone(),
        NatExpr::Add(a, b) => {
            let x = nat_to_text(a);
            let y = nat_to_text(b);
            concat3(x.as_str(), " + ", y.as_str())
        },
        NatExpr::Mul(a, b) => {
            let x = nat_to_text(a);
            let y = nat_to_text(b);
            concat3(x.as_str(), " * ", y.as_str())
        },
        NatExpr::If(c, t, e) => {
            let x = type_to_text(c);
            let y = nat_to_text(t);
            let z = nat_to_text(e);
            let s1 = concat3("if ", x.as_str(), " then ");
            let s2 = concat3(s1.as_str(), y.as_str(), " else ");
            concat(s2.as_str(), z.as_str())
        },
    }
}

fn kind_to_text(k: &TypeKind) -> (r: String)
    ensures
        r@ == kind_text(*k),
    decreases k,
{
    match k {
        TypeKind::Unit => "()".to_string(),
        TypeKind::Bool => "Bool".to_string(),
        TypeKind::Int => "Int".to_string(),
        TypeKind::UInt => "UInt".to_string(),
        TypeKind::Float => "Float".to_string(),
        TypeKind::String => "String".to_string(),
        TypeKind::Char => "Char".to_string(),
        TypeKind::Nat => "Nat".to_string(),
        TypeKind::Qubit => "Qubit".to_string(),
        TypeKind::QRegister(dims) => {
            let d = types_to_text(dims);
            concat3("QRegister[", d.as_str(), "]")
        },
        TypeKind::Tensor(dims) => {
            let d = types_to_text(dims);
            concat3("Tensor[", d.as_str(), "]")
        },
        TypeKind::Array(elem, size) => {
            let e = type_to_text(elem);
            match size {
                Some(n) => {
                    let s = nat_to_text(n);
                    let a = concat3("[", e.as_str(), "; ");
                    concat3(a.as_str(), s.as_str(), "]")
                },
                None => concat3("[", e.as_str(), "]"),
            }
        },
        TypeKind::Tuple(elems) => {
            let d = types_to_text(elems);
            concat3("(", d.as_str(), ")")
        },
        TypeKind::Named(name, args) => {
            if args.len() == 0 {
                name.name.clone()
            } else {
                let a = args_to_text(args);
                let s = concat3(name.name.as_str(), "<", a.as_str());
                concat(s.as_str(), ">")
            }
        },
        TypeKind::Function(params, ret) => {
            let p = types_to_text(params);
            let r = type_to_text(ret);
            let s = concat3("fn(", p.as_str(), ") -> ");
            concat(s.as_str(), r.as_str())
        },
        TypeKind::Projection(inner) => {
            let s = type_to_text(inner);
            concat("&mut ", s.as_str())
        },
        TypeKind::Reversible(inner) => {
            let s = type_to_text(inner);
            concat("reversible ", s.as_str())
        },
        TypeKind::Pi(name, dom, cod) => {
            let d = type_to_text(dom);
            let c = type_to_text(cod);
            let s1 = concat3("Π(", name.name.as_str(), ": ");
            let s2 = concat3(s1.as_str(), d.as_str(), "). ");
            concat(s2.as_str(), c.as_str())
        },
        TypeKind::Sigma(name, fst, snd) => {
            let d = type_to_text(fst);
            let c = type_to_text(snd);
            let s1 = concat3("Σ(", name.name.as_str(), ": ");
            let s2 = concat3(s1.as_str(), d.as_str(), "). ");
            concat(s2.as_str(), c.as_str())
        },
        TypeKind::Lambda(param, body) => {
            let b = type_to_text(body);
            concat3("λ", param.name.as_str(), ". ").concat(b.as_str())
        },
        TypeKind::App(fun, arg) => {
            let f = type_to_text(fun);
            let a = type_to_text(arg);
            concat3(f.as_str(), " ", a.as_str())
        },
        TypeKind::Universe(level) => {
            let d = u64_to_decimal(*level as u64);
            concat("Type", d.as_str())
        },
        TypeKind::Var(v) => v.to_string(),
        TypeKind::Meta(m) => m.to_string(),
        TypeKind::Error => "<error>".to_string(),
    }
}

impl Type {
    /// The type's text: its quantity unless unrestricted, then its kind.
    pub fn to_string(&self) -> (r: String)
        ensures
            r@ == type_text(*self),
    {
        type_to_text(self)
    }
}

impl TypeKind {
    pub fn to_string(&self) -> (r: String)
        ensures
            r@ == kind_text(*self),
    {
        kind_to_text(self)
    }
}

impl TypeArg {
    pub fn to_string(&self) -> (r: String)
        ensures
            r@ == arg_text(*self),
    {
        arg_to_text(self)
    }
}

impl NatExpr {
    pub fn to_string(&self) -> (r: String)
        ensures
            r@ == nat_text(*self),
    {
        nat_to_text(self)
    }
}

} // verus!
