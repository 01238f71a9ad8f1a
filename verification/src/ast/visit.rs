//! Visitors over the AST: a fallible visitor whose traversal can be cut
//! short, with the walk functions that visit a node's children, and a
//! visitor with no failures for simple passes.

pub mod walk;

use vstd::prelude::*;
use crate::ast::ops::VisitOutcome;
use crate::ast::expr::Expr;
use crate::ast::items::{Block, ConstDef, Function, Item, Module, Program, TypeDef};
use crate::ast::stmt::Stmt;
use crate::ast::ty::Type;
use crate::ast::Param;

verus! {

/// A node that a visitor visits.
pub enum VisitNode {
    Program(Program),
    Item(Item),
    Function(Function),
    TypeDef(TypeDef),
    Module(Module),
    Const(ConstDef),
    Param(Param),
    Block(Block),
    Stmt(Stmt),
    Expr(Expr),
    Type(Type),
}

/// A visitor over the AST. Each method returns whether the traversal goes on
/// (`Continue`), passes over the node's children (`Skip`) or ends (`Stop`),
/// or fails with the visitor's error. A pass that wants the default
/// traversal of a node calls the walk function of that node in
/// [`walk`], which visits the node's children through this trait.
pub trait Visitor: Sized {
    type Err;

    /// What a visit may do: visiting `node` from the visitor `before` leaves
    /// `after` and gives `r`. An implementation may say what its visits do;
    /// where it does not, nothing is known of them.
    open spec fn visits(before: Self, node: VisitNode, after: Self, r: Result<VisitOutcome, Self::Err>) -> bool {
        true
    }

    fn visit_program(&mut self, program: &Program) -> (r: Result<VisitOutcome, Self::Err>)
        ensures
            Self::visits(*old(self), VisitNode::Program(*program), *final(self), r),
    ;

    fn visit_item(&mut self, item: &Item) -> (r: Result<VisitOutcome, Self::Err>)
        ensures
            Self::visits(*old(self), VisitNode::Item(*item), *final(self), r),
    ;

    fn visit_function(&mut self, function: &Function) -> (r: Result<VisitOutcome, Self::Err>)
        ensures
            Self::visits(*old(self), VisitNode::Function(*function), *final(self), r),
    ;

    fn visit_type_def(&mut self, type_def: &TypeDef) -> (r: Result<VisitOutcome, Self::Err>)
        ensures
            Self::visits(*old(self), VisitNode::TypeDef(*type_def), *final(self), r),
    ;

    fn visit_module(&mut self, module: &Module) -> (r: Result<VisitOutcome, Self::Err>)
        ensures
            Self::visits(*old(self), VisitNode::Module(*module), *final(self), r),
    ;

    fn visit_const(&mut self, constant: &ConstDef) -> (r: Result<VisitOutcome, Self::Err>)
        ensures
            Self::visits(*old(self), VisitNode::Const(*constant), *final(self), r),
    ;

    fn visit_param(&mut self, param: &Param) -> (r: Result<VisitOutcome, Self::Err>)
        ensures
            Self::visits(*old(self), VisitNode::Param(*param), *final(self), r),
    ;

    fn visit_block(&mut self, block: &Block) -> (r: Result<VisitOutcome, Self::Err>)
        ensures
            Self::visits(*old(self), VisitNode::Block(*block), *final(self), r),
    ;

    fn visit_stmt(&mut self, stmt: &Stmt) -> (r: Result<VisitOutcome, Self::Err>)
        ensures
            Self::visits(*old(self), VisitNode::Stmt(*stmt), *final(self), r),
    ;

    fn visit_expr(&mut self, expr: &Expr) -> (r: Result<VisitOutcome, Self::Err>)
        ensures
            Self::visits(*old(self), VisitNode::Expr(*expr), *final(self), r),
    ;

    fn visit_type(&mut self, ty: &Type) -> (r: Result<VisitOutcome, Self::Err>)
        ensures
            Self::visits(*old(self), VisitNode::Type(*ty), *final(self), r),
    ;
}

/// A visitor with no failures, for simple passes: each method does nothing
/// unless a pass overrides it.
pub trait SimpleVisitor {
    fn visit_program(&mut self, program: &Program) {
        let _ = program;
    }

    fn visit_item(&mut self, item: &Item) {
        let _ = item;
    }

    fn visit_function(&mut self, function: &Function) {
        let _ = function;
    }

    fn visit_type_def(&mut self, type_def: &TypeDef) {
        let _ = type_def;
    }

    fn visit_module(&mut self, module: &Module) {
        let _ = module;
    }

    fn visit_const(&mut self, constant: &ConstDef) {
        let _ = constant;
    }

    fn visit_param(&mut self, param: &Param) {
        let _ = param;
    }

    fn visit_block(&mut self, block: &Block) {
        let _ = block;
    }

    fn visit_stmt(&mut self, stmt: &Stmt) {
        let _ = stmt;
    }

    fn visit_expr(&mut self, expr: &Expr) {
        let _ = expr;
    }

    fn visit_type(&mut self, ty: &Type) {
        let _ = ty;
    }
}

} // verus!
