//! The Naso parser's cursor over a token stream: looking at, consuming and
//! expecting tokens, quantity markers, identifiers and spans.

pub mod expr;
pub mod stmt;
pub mod grammar;
pub mod grammar_types;
pub mod grammar_exprs;
pub mod grammar_stmts;
pub mod grammar_block;
pub mod syntax;

pub use grammar::{parse_program, parse_program_tokens};

use vstd::prelude::*;
use crate::ast::{Ident, NodeId, Quantity, Span};
use crate::ir::pretty_print::cat;
use crate::lexer::token::{same_kind, Token, TokenKind};
use crate::text::{str_eq, u64_to_decimal};

verus! {

/// A cursor over a token stream from which comments and newlines have been
/// filtered out.
pub struct Parser<'a> {
    tokens: &'a [Token],
    pos: usize,
    next_node: u32,
}

/// `after` is `before` moved on: the same tokens, the cursor not moved
/// back and not past the end.
pub open spec fn moved<'a>(before: Parser<'a>, after: Parser<'a>) -> bool {
    &&& after.toks() == before.toks()
    &&& before.cursor() <= after.cursor()
    &&& after.cursor() <= after.toks().len()
}

/// The span from the token at `start` to the token before `pos`, or the
/// default span when either is missing.
pub open spec fn span_between(toks: Seq<Token>, start: int, pos: int) -> Span {
    let last = if pos > 0 { pos - 1 } else { 0 };
    if 0 <= start < toks.len() && last < toks.len() {
        Span {
            start: toks[start].span.start as u32,
            end: toks[last].span.end as u32,
            line: toks[start].span.line,
            column: toks[start].span.column,
        }
    } else {
        Span { start: 0, end: 0, line: 1, column: 1 }
    }
}

/// A quantity marker at `c`: `[*]` as one token, or `[`, then `*`, an
/// integer or a name, then `]`; with the cursor after it. An integer `n`
/// other than 0 or 1 stands for `n` uses, a name for an unknown bound.
pub open spec fn quantity_at(toks: Seq<Token>, c: int) -> Option<(Quantity, int)> {
    if 0 <= c < toks.len() && toks[c].kind is QtyStar {
        Some((Quantity::Many, c + 1))
    } else if !(0 <= c < toks.len() && toks[c].kind is LBracket) {
        None
    } else {
        let inner: Option<Quantity> = if c + 1 < toks.len() {
            match toks[c + 1].kind {
                TokenKind::QtyStar => Some(Quantity::Many),
                TokenKind::Int(n) => Some(if n == 0 {
                    Quantity::Zero
                } else if n == 1 {
                    Quantity::One
                } else {
                    Quantity::Bounded(n as u32)
                }),
                TokenKind::Ident(_) => Some(Quantity::Bounded(u32::MAX)),
                TokenKind::TypeIdent(_) => Some(Quantity::Bounded(u32::MAX)),
                TokenKind::FloatKw => Some(Quantity::Bounded(u32::MAX)),
                _ => None,
            }
        } else {
            None
        };
        match inner {
            Some(q) => if c + 2 < toks.len() && toks[c + 2].kind is RBracket {
                Some((q, c + 3))
            } else {
                None
            },
            None => None,
        }
    }
}

/// The span of a token.
pub open spec fn span_of_token(t: Token) -> Span {
    Span { start: t.span.start as u32, end: t.span.end as u32, line: t.span.line, column: t.span.column }
}

/// The span of a token.
pub fn token_span(t: &Token) -> (r: Span)
    ensures
        r == span_of_token(*t),
{
    Span::new(t.span.start as u32, t.span.end as u32, t.span.line, t.span.column)
}

/// The span from the first token to the last.
pub fn span_from_tokens(first: &Token, last: &Token) -> (r: Span)
    ensures
        r == (Span { start: first.span.start as u32, end: last.span.end as u32, line: first.span.line, column: first.span.column }),
{
    Span::new(first.span.start as u32, last.span.end as u32, first.span.line, first.span.column)
}

impl<'a> Parser<'a> {
    /// The tokens.
    pub closed spec fn toks(&self) -> Seq<Token> {
        self.tokens@
    }

    /// The position of the cursor.
    pub closed spec fn cursor(&self) -> int {
        self.pos as int
    }

    /// A parser at the first token.
    pub fn new(tokens: &'a [Token]) -> (r: Self)
        ensures
            r.toks() == tokens@,
            r.cursor() == 0,
    {
        Parser { tokens, pos: 0, next_node: 1 }
    }

    /// The cursor is within the tokens.
    pub open spec fn wf(&self) -> bool {
        self.cursor() <= self.toks().len()
    }

    /// The id of the next node.
    pub closed spec fn node_counter(&self) -> u32 {
        self.next_node
    }

    /// Hands out the next node id; ids count up from 1, wrapping around.
    pub fn fresh_id(&mut self) -> (r: NodeId)
        ensures
            final(self).toks() == old(self).toks(),
            final(self).cursor() == old(self).cursor(),
            r.0 == old(self).node_counter(),
            final(self).node_counter() == old(self).node_counter().wrapping_add(1),
    {
        let id = self.next_node;
        self.next_node = self.next_node.wrapping_add(1);
        NodeId::new(id)
    }

    /// The message for a missing `expected`: what stands at the cursor, with
    /// its line and column, or the end of the input.
    pub fn unexpected(&self, expected: &str) -> (r: String) {
        match self.peek_token() {
            Some(t) => {
                let found = t.kind.to_string();
                let line = u64_to_decimal(t.span.line as u64);
                let col = u64_to_decimal(t.span.column as u64);
                cat(&["parse error: expected ", expected, ", found `", found.as_str(), "` at line ", line.as_str(), ", col ", col.as_str()])
            },
            None => cat(&["parse error: expected ", expected, ", found end of input"]),
        }
    }

    /// Consumes the current token when it is `kind`; otherwise an error that
    /// names `kind`, what was found and the cursor.
    pub fn expect_kind(&mut self, kind: TokenKind) -> (r: Result<Token, String>)
        requires
            old(self).wf(),
        ensures
            final(self).toks() == old(self).toks(),
            r is Ok <==> (old(self).cursor() < old(self).toks().len() && same_kind(old(self).toks()[old(self).cursor()].kind, kind)),
            r matches Ok(t) ==> t == old(self).toks()[old(self).cursor()] && final(self).cursor() == old(self).cursor() + 1,
            r is Err ==> final(self).cursor() == old(self).cursor(),
    {
        if self.at(kind.clone()) {
            let tok = self.tokens[self.pos].clone();
            self.pos = self.pos + 1;
            Ok(tok)
        } else {
            let found = match self.peek() {
                Some(k) => k.to_string(),
                None => "end of input".to_string(),
            };
            let at = u64_to_decimal(self.pos as u64);
            Err(cat(&["parse error: expected `", kind.display_name(), "`, found ", found.as_str(), " at token ", at.as_str()]))
        }
    }

    /// An identifier or type name at the cursor; otherwise an error.
    pub fn ident(&mut self) -> (r: Result<Ident, String>)
        requires
            old(self).wf(),
        ensures
            final(self).toks() == old(self).toks(),
            r is Ok <==> (old(self).cursor() < old(self).toks().len() && (old(self).toks()[old(self).cursor()].kind is Ident
                || old(self).toks()[old(self).cursor()].kind is TypeIdent)),
            r matches Ok(id) ==> final(self).cursor() == old(self).cursor() + 1 && id.name@ == match old(self).toks()[old(self).cursor()].kind {
                TokenKind::Ident(s) => s@,
                TokenKind::TypeIdent(s) => s@,
                _ => Seq::empty(),
            },
            r is Err ==> final(self).cursor() == old(self).cursor(),
    {
        match self.peek() {
            Some(TokenKind::Ident(_)) | Some(TokenKind::TypeIdent(_)) => Ok(self.parse_ident()),
            Some(other) => {
                let found = other.to_string();
                let at = u64_to_decimal(self.pos as u64);
                Err(cat(&["parse error: expected identifier, found `", found.as_str(), "` at token ", at.as_str()]))
            },
            None => Err("parse error: expected identifier, found end of input".to_string()),
        }
    }

    /// Whether the cursor is past the last token.
    pub fn is_eof(&self) -> (r: bool)
        ensures
            r == (self.cursor() >= self.toks().len()),
    {
        self.pos >= self.tokens.len()
    }

    /// The current token's kind, without consuming it.
    pub fn peek(&self) -> (r: Option<&TokenKind>)
        ensures
            self.cursor() < self.toks().len() ==> r == Some(&self.toks()[self.cursor()].kind),
            self.cursor() >= self.toks().len() ==> r is None,
    {
        if self.pos < self.tokens.len() {
            Some(&self.tokens[self.pos].kind)
        } else {
            None
        }
    }

    /// The current token, without consuming it.
    fn peek_token(&self) -> (r: Option<&Token>)
        ensures
            self.cursor() < self.toks().len() ==> r == Some(&self.toks()[self.cursor()]),
            self.cursor() >= self.toks().len() ==> r is None,
    {
        if self.pos < self.tokens.len() {
            Some(&self.tokens[self.pos])
        } else {
            None
        }
    }

    /// Consumes and returns the current token; nothing at the end.
    pub fn bump(&mut self) -> (r: Option<Token>)
        ensures
            final(self).toks() == old(self).toks(),
            old(self).cursor() < old(self).toks().len() ==> r == Some(old(self).toks()[old(self).cursor()])
                && final(self).cursor() == old(self).cursor() + 1,
            old(self).cursor() >= old(self).toks().len() ==> r is None && final(self).cursor() == old(self).cursor(),
    {
        if self.pos < self.tokens.len() {
            let tok = self.tokens[self.pos].clone();
            self.pos = self.pos + 1;
            Some(tok)
        } else {
            None
        }
    }

    /// Whether the current token is `kind`.
    pub fn at(&self, kind: TokenKind) -> (r: bool)
        ensures
            r == (self.cursor() < self.toks().len() && same_kind(self.toks()[self.cursor()].kind, kind)),
    {
        match self.peek() {
            Some(k) => k.same_as(&kind),
            None => false,
        }
    }

    /// Consumes the current token when it is `kind`, returning whether it did.
    pub fn eat(&mut self, kind: TokenKind) -> (r: bool)
        ensures
            final(self).toks() == old(self).toks(),
            r == (old(self).cursor() < old(self).toks().len() && same_kind(old(self).toks()[old(self).cursor()].kind, kind)),
            final(self).cursor() == if r { old(self).cursor() + 1 } else { old(self).cursor() },
    {
        if self.at(kind) {
            self.bump();
            true
        } else {
            false
        }
    }

    /// Consumes the current token, which must be `kind`.
    pub fn expect(&mut self, kind: TokenKind) -> (r: Token)
        requires
            old(self).cursor() < old(self).toks().len(),
            same_kind(old(self).toks()[old(self).cursor()].kind, kind),
        ensures
            final(self).toks() == old(self).toks(),
            r == old(self).toks()[old(self).cursor()],
            final(self).cursor() == old(self).cursor() + 1,
    {
        let tok = self.tokens[self.pos].clone();
        self.pos = self.pos + 1;
        tok
    }

    /// Whether the current token is the identifier `name`.
    fn at_ident(&self, name: &str) -> (r: bool)
        ensures
            r == (self.cursor() < self.toks().len() && (self.toks()[self.cursor()].kind matches TokenKind::Ident(s) && s@ == name@)),
    {
        match self.peek() {
            Some(TokenKind::Ident(s)) => str_eq(s.as_str(), name),
            _ => false,
        }
    }

    /// The span of the tokens consumed since `start`.
    pub fn span_from(&self, start: usize) -> (r: Span)
        ensures
            r == span_between(self.toks(), start as int, self.cursor()),
    {
        let last = if self.pos > 0 { self.pos - 1 } else { 0 };
        if start < self.tokens.len() && last < self.tokens.len() {
            let f = &self.tokens[start];
            let l = &self.tokens[last];
            Span::new(f.span.start as u32, l.span.end as u32, f.span.line, f.span.column)
        } else {
            Span::new(0, 0, 1, 1)
        }
    }

    /// An optional quantity marker; the cursor stays where it was when there
    /// is none.
    pub fn parse_quantity(&mut self) -> (r: Option<Quantity>)
        ensures
            final(self).toks() == old(self).toks(),
            match quantity_at(old(self).toks(), old(self).cursor()) {
                Some((q, c)) => r == Some(q) && final(self).cursor() == c,
                None => r is None && final(self).cursor() == old(self).cursor(),
            },
    {
        if self.at(TokenKind::QtyStar) {
            self.bump();
            return Some(Quantity::Many);
        }
        if !self.at(TokenKind::LBracket) {
            return None;
        }
        let start = self.pos;
        self.bump();
        let qty = match self.peek() {
            Some(TokenKind::QtyStar) => {
                self.bump();
                Quantity::Many
            },
            Some(TokenKind::Int(n)) => {
                let n = *n;
                self.bump();
                if n == 0 {
                    Quantity::Zero
                } else if n == 1 {
                    Quantity::One
                } else {
                    Quantity::Bounded(n as u32)
                }
            },
            Some(TokenKind::Ident(_)) | Some(TokenKind::TypeIdent(_)) | Some(TokenKind::FloatKw) => {
                self.bump();
                Quantity::Bounded(u32::MAX)
            },
            _ => {
                self.pos = start;
                return None;
            },
        };
        if self.at(TokenKind::RBracket) {
            self.bump();
            Some(qty)
        } else {
            self.pos = start;
            None
        }
    }

    /// An identifier or type name at the cursor, which must be one.
    pub fn parse_ident(&mut self) -> (r: Ident)
        requires
            old(self).cursor() < old(self).toks().len(),
            old(self).toks()[old(self).cursor()].kind is Ident || old(self).toks()[old(self).cursor()].kind is TypeIdent,
        ensures
            final(self).toks() == old(self).toks(),
            final(self).cursor() == old(self).cursor() + 1,
            r.name@ == match old(self).toks()[old(self).cursor()].kind {
                TokenKind::Ident(s) => s@,
                TokenKind::TypeIdent(s) => s@,
                _ => Seq::empty(),
            },
            r.span == span_between(old(self).toks(), old(self).cursor(), old(self).cursor() + 1),
    {
        let start = self.pos;
        let name = match &self.tokens[self.pos].kind {
            TokenKind::Ident(s) => s.clone(),
            TokenKind::TypeIdent(s) => s.clone(),
            _ => String::new(),
        };
        self.pos = self.pos + 1;
        Ident::new(name, self.span_from(start))
    }
}

} // verus!
