//! Programs and their items: functions, type definitions, modules,
//! constants and attributes, with blocks and literals.

use vstd::prelude::*;
use crate::ast::expr::Expr;
use crate::ast::stmt::Stmt;
use crate::ast::ty::Type;
use crate::ast::{GenericParam, Ident, Import, Param, Quantity, Span};

verus! {

/// A whole program.
#[derive(Debug)]
pub struct Program {
    pub items: Vec<Item>,
    pub span: Span,
}

impl Program {
    pub fn new(items: Vec<Item>, span: Span) -> (r: Self)
        ensures
            r == (Program { items, span }),
    {
        Program { items, span }
    }
}

/// Top-level items.
#[derive(Debug)]
pub enum Item {
    Function(Function),
    /// Struct, enum or alias definition.
    TypeDef(TypeDef),
    Module(Module),
    Import(Import),
    Const(ConstDef),
}

/// The span of an item.
pub open spec fn item_span(i: Item) -> Span {
    match i {
        Item::Function(f) => f.span,
        Item::TypeDef(t) => t.span,
        Item::Module(m) => m.span,
        Item::Import(im) => im.span,
        Item::Const(c) => c.span,
    }
}

impl Item {
    pub fn span(&self) -> (r: Span)
        ensures
            r == item_span(*self),
    {
        match self {
            Item::Function(f) => f.span,
            Item::TypeDef(t) => t.span,
            Item::Module(m) => m.span,
            Item::Import(i) => i.span,
            Item::Const(c) => c.span,
        }
    }
}

/// A function definition with quantitative parameters.
#[derive(Debug)]
pub struct Function {
    pub name: Ident,
    pub generics: Vec<GenericParam>,
    pub params: Vec<Param>,
    pub ret_ty: Option<Type>,
    pub body: Block,
    pub span: Span,
    pub attributes: Vec<Attribute>,
    pub is_reversible: bool,
    pub quantity: Quantity,
}

/// A block of statements with an optional trailing expression.
#[derive(Debug)]
pub struct Block {
    pub stmts: Vec<Stmt>,
    pub expr: Option<Box<Expr>>,
    pub span: Span,
}

impl Block {
    pub fn new(stmts: Vec<Stmt>, expr: Option<Expr>, span: Span) -> (r: Self)
        ensures
            r.stmts == stmts,
            r.span == span,
            match expr {
                Some(e) => r.expr == Some(Box::new(e)),
                None => r.expr is None,
            },
    {
        let expr = match expr {
            Some(e) => Some(Box::new(e)),
            None => None,
        };
        Block { stmts, expr, span }
    }
}

/// A struct, enum or alias definition.
#[derive(Debug)]
pub struct TypeDef {
    pub name: Ident,
    pub generics: Vec<GenericParam>,
    pub kind: TypeDefKind,
    pub span: Span,
    pub attributes: Vec<Attribute>,
}

/// Kinds of type definitions.
#[derive(Debug)]
pub enum TypeDefKind {
    /// `struct Name { fields }`
    Struct(Vec<Field>),
    /// `enum Name { variants }`
    Enum(Vec<Variant>),
    /// `type Name = Type;`
    Alias(Type),
}

/// A struct or variant field.
#[derive(Debug)]
pub struct Field {
    pub name: Ident,
    pub ty: Type,
    pub quantity: Quantity,
    pub span: Span,
    pub attributes: Vec<Attribute>,
}

/// An enum variant.
#[derive(Debug)]
pub struct Variant {
    pub name: Ident,
    pub fields: Vec<Field>,
    pub span: Span,
    pub attributes: Vec<Attribute>,
}

/// A module declaration.
#[derive(Debug)]
pub struct Module {
    pub name: Ident,
    pub items: Vec<Item>,
    pub span: Span,
}

/// A constant definition.
#[derive(Debug)]
pub struct ConstDef {
    pub name: Ident,
    pub ty: Option<Type>,
    pub value: Expr,
    pub span: Span,
}

/// An attribute such as `#[inline]`.
#[derive(Debug)]
pub struct Attribute {
    pub name: Ident,
    pub args: Vec<AttributeArg>,
    pub span: Span,
}

/// An argument of an attribute.
#[derive(Debug)]
pub enum AttributeArg {
    Ident(Ident),
    Literal(Literal),
    Nested(Attribute),
}

/// Literal values. A floating-point literal is held as its decimal text.
#[derive(Debug, Clone)]
pub enum Literal {
    Int(i64),
    UInt(u64),
    Float(String),
    Bool(bool),
    String(String),
    Char(char),
    Unit,
}

} // verus!
