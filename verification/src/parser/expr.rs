//! Operator tables of the expression grammar.

use vstd::prelude::*;
use crate::ast::expr::ExprKind;
use crate::ast::ops::BinOp;
use crate::lexer::token::TokenKind;
use crate::ast::model::ExprM;
use crate::lexer::token::Token;
use crate::parser::Parser;
use crate::parser::syntax::{binary, binary_rest, unary};

verus! {

/// Control-flow block constructs (`if`, `match`, `for`, `while`, `forall`):
/// closed by a `}`, they stand as statements without a semicolon.
pub open spec fn control_flow(k: ExprKind) -> bool {
    k is If || k is Match || k is For || k is While || k is Forall
}

/// Whether a parsed expression can stand alone as a block statement without
/// a trailing semicolon.
pub fn is_control_flow_stmt(kind: &ExprKind) -> (r: bool)
    ensures
        r == control_flow(*kind),
{
    match kind {
        ExprKind::If(..) | ExprKind::Match(..) | ExprKind::For(..) | ExprKind::While(..) | ExprKind::Forall(..) => true,
        _ => false,
    }
}

/// The precedence of a binary operator: `||` binds loosest, then `&&`, the
/// comparisons, `|`, `^`, `&`, the shifts, `+ -`, and `* / %` tightest;
/// assignment is below them all.
pub open spec fn precedence(op: BinOp) -> u8 {
    match op {
        BinOp::Or => 1,
        BinOp::And => 2,
        BinOp::Eq | BinOp::Ne | BinOp::Lt | BinOp::Le | BinOp::Gt | BinOp::Ge => 3,
        BinOp::BitOr => 4,
        BinOp::BitXor => 5,
        BinOp::BitAnd => 6,
        BinOp::Shl | BinOp::Shr => 7,
        BinOp::Add | BinOp::Sub => 8,
        BinOp::Mul | BinOp::Div | BinOp::Rem => 9,
        BinOp::Assign => 0,
    }
}

/// The precedence of a binary operator.
pub fn binop_prec(op: BinOp) -> (r: u8)
    ensures
        r == precedence(op),
{
    match op {
        BinOp::Or => 1,
        BinOp::And => 2,
        BinOp::Eq | BinOp::Ne | BinOp::Lt | BinOp::Le | BinOp::Gt | BinOp::Ge => 3,
        BinOp::BitOr => 4,
        BinOp::BitXor => 5,
        BinOp::BitAnd => 6,
        BinOp::Shl | BinOp::Shr => 7,
        BinOp::Add | BinOp::Sub => 8,
        BinOp::Mul | BinOp::Div | BinOp::Rem => 9,
        BinOp::Assign => 0,
    }
}

/// The binary operator a token stands for, if any.
pub open spec fn binary_op_of(k: TokenKind) -> Option<BinOp> {
    match k {
        TokenKind::OrOr => Some(BinOp::Or),
        TokenKind::AndAnd => Some(BinOp::And),
        TokenKind::Eq => Some(BinOp::Eq),
        TokenKind::Ne => Some(BinOp::Ne),
        TokenKind::Lt => Some(BinOp::Lt),
        TokenKind::Le => Some(BinOp::Le),
        TokenKind::Gt => Some(BinOp::Gt),
        TokenKind::Ge => Some(BinOp::Ge),
        TokenKind::Pipe => Some(BinOp::BitOr),
        TokenKind::Caret => Some(BinOp::BitXor),
        TokenKind::Amp => Some(BinOp::BitAnd),
        TokenKind::Shl => Some(BinOp::Shl),
        TokenKind::Shr => Some(BinOp::Shr),
        TokenKind::Plus => Some(BinOp::Add),
        TokenKind::Minus => Some(BinOp::Sub),
        TokenKind::Star => Some(BinOp::Mul),
        TokenKind::Slash => Some(BinOp::Div),
        TokenKind::Percent => Some(BinOp::Rem),
        _ => None,
    }
}

impl<'a> Parser<'a> {
    /// The binary operator at the cursor, if any, without consuming it.
    pub fn peek_binary_op(&self) -> (r: Option<BinOp>)
        ensures
            self.cursor() < self.toks().len() ==> r == binary_op_of(self.toks()[self.cursor()].kind),
            self.cursor() >= self.toks().len() ==> r is None,
    {
        match self.peek() {
            Some(TokenKind::OrOr) => Some(BinOp::Or),
            Some(TokenKind::AndAnd) => Some(BinOp::And),
            Some(TokenKind::Eq) => Some(BinOp::Eq),
            Some(TokenKind::Ne) => Some(BinOp::Ne),
            Some(TokenKind::Lt) => Some(BinOp::Lt),
            Some(TokenKind::Le) => Some(BinOp::Le),
            Some(TokenKind::Gt) => Some(BinOp::Gt),
            Some(TokenKind::Ge) => Some(BinOp::Ge),
            Some(TokenKind::Pipe) => Some(BinOp::BitOr),
            Some(TokenKind::Caret) => Some(BinOp::BitXor),
            Some(TokenKind::Amp) => Some(BinOp::BitAnd),
            Some(TokenKind::Shl) => Some(BinOp::Shl),
            Some(TokenKind::Shr) => Some(BinOp::Shr),
            Some(TokenKind::Plus) => Some(BinOp::Add),
            Some(TokenKind::Minus) => Some(BinOp::Sub),
            Some(TokenKind::Star) => Some(BinOp::Mul),
            Some(TokenKind::Slash) => Some(BinOp::Div),
            Some(TokenKind::Percent) => Some(BinOp::Rem),
            _ => None,
        }
    }
}


/// The documented table of binding strength: `||` binds loosest, then `&&`,
/// then the comparisons, `|`, `^`, `&`, the shifts, `+` and `-`, and `*`,
/// `/` and `%` tightest; operators of one row bind equally, and assignment
/// binds looser than every other operator.
pub proof fn lemma_precedence_table()
    ensures
        precedence(BinOp::Assign) < precedence(BinOp::Or),
        precedence(BinOp::Or) < precedence(BinOp::And),
        precedence(BinOp::And) < precedence(BinOp::Eq),
        precedence(BinOp::Eq) == precedence(BinOp::Ne),
        precedence(BinOp::Eq) == precedence(BinOp::Lt),
        precedence(BinOp::Eq) == precedence(BinOp::Le),
        precedence(BinOp::Eq) == precedence(BinOp::Gt),
        precedence(BinOp::Eq) == precedence(BinOp::Ge),
        precedence(BinOp::Eq) < precedence(BinOp::BitOr),
        precedence(BinOp::BitOr) < precedence(BinOp::BitXor),
        precedence(BinOp::BitXor) < precedence(BinOp::BitAnd),
        precedence(BinOp::BitAnd) < precedence(BinOp::Shl),
        precedence(BinOp::Shl) == precedence(BinOp::Shr),
        precedence(BinOp::Shl) < precedence(BinOp::Add),
        precedence(BinOp::Add) == precedence(BinOp::Sub),
        precedence(BinOp::Add) < precedence(BinOp::Mul),
        precedence(BinOp::Mul) == precedence(BinOp::Div),
        precedence(BinOp::Mul) == precedence(BinOp::Rem),
{
}

/// Every token that stands for a binary operator stands for one whose
/// symbol it is: `||` for or, `&&` for and, `<` for less-than, and so on.
pub proof fn lemma_operator_tokens(k: TokenKind)
    ensures
        binary_op_of(k) == Some(BinOp::Or) <==> k is OrOr,
        binary_op_of(k) == Some(BinOp::And) <==> k is AndAnd,
        binary_op_of(k) == Some(BinOp::Lt) <==> k is Lt,
        binary_op_of(k) == Some(BinOp::Le) <==> k is Le,
        binary_op_of(k) == Some(BinOp::Gt) <==> k is Gt,
        binary_op_of(k) == Some(BinOp::Ge) <==> k is Ge,
        binary_op_of(k) == Some(BinOp::Eq) <==> k is Eq,
        binary_op_of(k) == Some(BinOp::Ne) <==> k is Ne,
        binary_op_of(k) == Some(BinOp::Add) <==> k is Plus,
        binary_op_of(k) == Some(BinOp::Sub) <==> k is Minus,
        binary_op_of(k) == Some(BinOp::Mul) <==> k is Star,
        binary_op_of(k) == Some(BinOp::Div) <==> k is Slash,
        binary_op_of(k) == Some(BinOp::Rem) <==> k is Percent,
{
}

/// The tree of `x op1 y op2 z`, for unary operands `x`, `y`, `z`, grouped
/// as binding strength says: the operator that binds tighter takes the
/// middle operand, and of two that bind equally the left one does.
pub open spec fn grouped(op1: BinOp, op2: BinOp, x: ExprM, y: ExprM, z: ExprM) -> ExprM {
    if precedence(op1) < precedence(op2) {
        ExprM::Binary(op1, Box::new(x), Box::new(ExprM::Binary(op2, Box::new(y), Box::new(z))))
    } else {
        ExprM::Binary(op2, Box::new(ExprM::Binary(op1, Box::new(x), Box::new(y))), Box::new(z))
    }
}

/// Three unary operands joined by two binary operators, with no operator
/// after the last one, parse as `grouped` says: tighter binding first, and
/// left to right among equals.
pub proof fn lemma_binary_grouping(
    t: Seq<Token>,
    c: int,
    op1: BinOp,
    op2: BinOp,
    c1: int,
    c2: int,
    c3: int,
    x: ExprM,
    y: ExprM,
    z: ExprM,
)
    requires
        0 <= c < c1 < t.len(),
        unary(t, c) == Some((c1, x)),
        binary_op_of(t[c1].kind) == Some(op1),
        c1 + 1 < c2 < t.len(),
        unary(t, c1 + 1) == Some((c2, y)),
        binary_op_of(t[c2].kind) == Some(op2),
        c2 + 1 < c3 <= t.len(),
        unary(t, c2 + 1) == Some((c3, z)),
        c3 == t.len() || binary_op_of(t[c3].kind) is None,
    ensures
        binary(t, c, 0) == Some((c3, grouped(op1, op2, x, y, z))),
{
    let p1 = precedence(op1) as int;
    let p2 = precedence(op2) as int;
    assert(binary(t, c2 + 1, p2 + 1) == Some((c3, z)));
    assert(binary(t, c2 + 1, p1 + 1) == Some((c3, z)));
    if p2 < p1 + 1 {
        assert(binary_rest(t, c2, p1 + 1, y) == Some((c2, y)));
        assert(binary(t, c1 + 1, p1 + 1) == Some((c2, y)));
        let l = ExprM::Binary(op1, Box::new(x), Box::new(y));
        let r = ExprM::Binary(op2, Box::new(l), Box::new(z));
        assert(binary_rest(t, c3, 0, r) == Some((c3, r)));
        assert(binary_rest(t, c2, 0, l) == Some((c3, r)));
        assert(binary_rest(t, c1, 0, x) == Some((c3, r)));
    } else {
        let m = ExprM::Binary(op2, Box::new(y), Box::new(z));
        assert(binary_rest(t, c3, p1 + 1, m) == Some((c3, m)));
        assert(binary_rest(t, c2, p1 + 1, y) == Some((c3, m)));
        assert(binary(t, c1 + 1, p1 + 1) == Some((c3, m)));
        let r = ExprM::Binary(op1, Box::new(x), Box::new(m));
        assert(binary_rest(t, c3, 0, r) == Some((c3, r)));
        assert(binary_rest(t, c1, 0, x) == Some((c3, r)));
    }
}

/// `&&` binds tighter than `||` on either side: `x || y && z` is
/// `x || (y && z)` and `x && y || z` is `(x && y) || z`; likewise `*`
/// binds tighter than `+`: `x + y * z` is `x + (y * z)`.
pub proof fn lemma_tighter_operators(
    t: Seq<Token>,
    c: int,
    op1: BinOp,
    op2: BinOp,
    c1: int,
    c2: int,
    c3: int,
    x: ExprM,
    y: ExprM,
    z: ExprM,
)
    requires
        0 <= c < c1 < t.len(),
        unary(t, c) == Some((c1, x)),
        binary_op_of(t[c1].kind) == Some(op1),
        c1 + 1 < c2 < t.len(),
        unary(t, c1 + 1) == Some((c2, y)),
        binary_op_of(t[c2].kind) == Some(op2),
        c2 + 1 < c3 <= t.len(),
        unary(t, c2 + 1) == Some((c3, z)),
        c3 == t.len() || binary_op_of(t[c3].kind) is None,
    ensures
        op1 is Or && op2 is And ==> binary(t, c, 0) == Some((c3, ExprM::Binary(BinOp::Or, Box::new(x), Box::new(
            ExprM::Binary(BinOp::And, Box::new(y), Box::new(z)),
        )))),
        op1 is And && op2 is Or ==> binary(t, c, 0) == Some((c3, ExprM::Binary(BinOp::Or, Box::new(
            ExprM::Binary(BinOp::And, Box::new(x), Box::new(y)),
        ), Box::new(z)))),
        op1 is Add && op2 is Mul ==> binary(t, c, 0) == Some((c3, ExprM::Binary(BinOp::Add, Box::new(x), Box::new(
            ExprM::Binary(BinOp::Mul, Box::new(y), Box::new(z)),
        )))),
{
    lemma_binary_grouping(t, c, op1, op2, c1, c2, c3, x, y, z);
}

} // verus!
