//! Source-like text of literals, patterns, expression kinds and statement
//! kinds, as their `Display` shows them.

use vstd::prelude::*;
use crate::ast::display::{binop_text, mutability_text, quantity_text, unop_text};
use crate::ast::expr::{Expr, ExprKind, QuantumOp};
use crate::ast::items::{Item, Literal};
use crate::ast::pattern::{FieldPattern, Pattern, PatternKind};
use crate::ast::stmt::StmtKind;
use crate::ast::{Ident, Quantity, Span};
use crate::ir::pretty_print::{cat, debug_string, debug_text, i64_to_decimal, int_text, join_texts, lemma_join_step};
use crate::text::{concat, decimal, u64_to_decimal};

verus! {

/// The text `str::escape_debug` gives a string.
pub uninterp spec fn str_escape_debug(s: Seq<char>) -> Seq<char>;

/// The text `char::escape_debug` gives a character.
pub uninterp spec fn char_escape_debug(c: char) -> Seq<char>;

/// The `{:?}` text of an expression.
pub uninterp spec fn expr_debug(e: Expr) -> Seq<char>;

/// The `{:?}` text of a pattern.
pub uninterp spec fn pattern_debug(p: Pattern) -> Seq<char>;

/// The `{:?}` text of a quantum operation.
pub uninterp spec fn quantum_op_debug(q: QuantumOp) -> Seq<char>;

/// The `{:?}` text of an item.
pub uninterp spec fn item_debug(i: Item) -> Seq<char>;

/// Calls `str::escape_debug`: the string with its special characters
/// escaped; the result is named `str_escape_debug` of the string and nothing
/// more is claimed of it.
#[verifier::external_body]
fn escape_debug_str(s: &str) -> (r: String)
    ensures
        r@ == str_escape_debug(s@),
{
    s.escape_debug().to_string()
}

/// Calls `char::escape_debug`: the character, escaped where it is special;
/// the result is named `char_escape_debug` of the character and nothing more
/// is claimed of it.
#[verifier::external_body]
fn escape_debug_char(c: char) -> (r: String)
    ensures
        r@ == char_escape_debug(c),
{
    c.escape_debug().to_string()
}

/// Formats an expression with its derived `Debug`; the text is named
/// `expr_debug` of the expression and nothing more is claimed of it.
#[verifier::external_body]
fn expr_debug_string(e: &Expr) -> (r: String)
    ensures
        r@ == expr_debug(*e),
{
    format!("{:?}", e)
}

/// Formats a pattern with its derived `Debug`; the text is named
/// `pattern_debug` of the pattern and nothing more is claimed of it.
#[verifier::external_body]
fn pattern_debug_string(p: &Pattern) -> (r: String)
    ensures
        r@ == pattern_debug(*p),
{
    format!("{:?}", p)
}

/// Formats a quantum operation with its derived `Debug`; the text is named
/// `quantum_op_debug` of the operation and nothing more is claimed of it.
#[verifier::external_body]
fn quantum_op_debug_string(q: &QuantumOp) -> (r: String)
    ensures
        r@ == quantum_op_debug(*q),
{
    format!("{:?}", q)
}

/// Formats an item with its derived `Debug`; the text is named `item_debug`
/// of the item and nothing more is claimed of it.
#[verifier::external_body]
fn item_debug_string(i: &Item) -> (r: String)
    ensures
        r@ == item_debug(*i),
{
    format!("{:?}", i)
}

/// The text of a literal: `u` after an unsigned value, quotes around an
/// escaped string or character.
pub open spec fn literal_text(l: Literal) -> Seq<char> {
    match l {
        Literal::Int(v) => int_text(v),
        Literal::UInt(v) => decimal(v as nat) + "u"@,
        Literal::Float(t) => t@,
        Literal::Bool(b) => if b { "true"@ } else { "false"@ },
        Literal::String(v) => "\""@ + str_escape_debug(v@) + "\""@,
        Literal::Char(c) => "'"@ + char_escape_debug(c) + "'"@,
        Literal::Unit => "()"@,
    }
}

impl Literal {
    /// The literal's text, as its `Display` shows it.
    pub fn to_string(&self) -> (r: String)
        ensures
            r@ == literal_text(*self),
    {
        match self {
            Literal::Int(v) => i64_to_decimal(*v),
            Literal::UInt(v) => {
                let d = u64_to_decimal(*v);
                concat(d.as_str(), "u")
            },
            Literal::Float(t) => t.clone(),
            Literal::Bool(b) => if *b { "true".to_string() } else { "false".to_string() },
            Literal::String(v) => {
                let e = escape_debug_str(v.as_str());
                let r = cat(&["\"", e.as_str(), "\""]);
                proof {
                    reveal_with_fuel(Seq::fold_left, 4);
                }
                r
            },
            Literal::Char(c) => {
                let e = escape_debug_char(*c);
                let r = cat(&["'", e.as_str(), "'"]);
                proof {
                    reveal_with_fuel(Seq::fold_left, 4);
                }
                r
            },
            Literal::Unit => "()".to_string(),
        }
    }
}

/// The derived `{:?}` text of a span.
pub open spec fn span_debug_text(s: Span) -> Seq<char> {
    "Span { start: "@ + decimal(s.start as nat) + ", end: "@ + decimal(s.end as nat) + ", line: "@
        + decimal(s.line as nat) + ", column: "@ + decimal(s.column as nat) + " }"@
}

/// The derived `{:?}` text of an identifier.
pub open spec fn ident_debug_text(i: Ident) -> Seq<char> {
    "Ident { name: "@ + debug_text(i.name@) + ", span: "@ + span_debug_text(i.span) + " }"@
}

fn ident_debug_string(i: &Ident) -> (r: String)
    ensures
        r@ == ident_debug_text(*i),
{
    let n = debug_string(i.name.as_str());
    let a = u64_to_decimal(i.span.start as u64);
    let b = u64_to_decimal(i.span.end as u64);
    let c = u64_to_decimal(i.span.line as u64);
    let d = u64_to_decimal(i.span.column as u64);
    let r = cat(&["Ident { name: ", n.as_str(), ", span: ", "Span { start: ", a.as_str(), ", end: ", b.as_str(), ", line: ",
        c.as_str(), ", column: ", d.as_str(), " }", " }"]);
    proof {
        reveal_with_fuel(Seq::fold_left, 14);
    }
    assert(r@ =~= ident_debug_text(*i));
    r
}

/// The text of a pattern: its quantity first unless unrestricted.
pub open spec fn pattern_text(p: Pattern) -> Seq<char>
    decreases p,
{
    (if p.quantity != Quantity::Many { quantity_text(p.quantity) + " "@ } else { Seq::empty() })
        + pattern_kind_text(p.kind)
}

/// The texts of a list of patterns.
pub open spec fn patterns_texts(ps: Seq<Pattern>) -> Seq<Seq<char>>
    decreases ps,
{
    if ps.len() == 0 {
        Seq::empty()
    } else {
        patterns_texts(ps.drop_last()).push(pattern_text(ps.last()))
    }
}

/// The texts of the fields of a struct pattern: `name: pattern`.
pub open spec fn fields_texts(fs: Seq<FieldPattern>) -> Seq<Seq<char>>
    decreases fs,
{
    if fs.len() == 0 {
        Seq::empty()
    } else {
        fields_texts(fs.drop_last()).push(fs.last().name.name@ + ": "@ + pattern_text(fs.last().pattern))
    }
}

/// The text of a pattern kind.
pub open spec fn pattern_kind_text(k: PatternKind) -> Seq<char>
    decreases k,
{
    match k {
        PatternKind::Wildcard => "_"@,
        PatternKind::Ident(i) => i.name@,
        PatternKind::Literal(l) => literal_text(l),
        PatternKind::Tuple(ps) => "("@ + join_texts(patterns_texts(ps@), ", "@) + ")"@,
        PatternKind::Struct(name, fields) => name.name@ + " { "@ + join_texts(fields_texts(fields@), ", "@) + " }"@,
        PatternKind::Variant(e, v, fields) => e.name@ + "::"@ + v.name@
            + if fields@.len() > 0 { "("@ + join_texts(patterns_texts(fields@), ", "@) + ")"@ } else { Seq::empty() },
        PatternKind::Array(ps) => "["@ + join_texts(patterns_texts(ps@), ", "@) + "]"@,
        PatternKind::Range(s, e) => pattern_text(*s) + ".."@ + pattern_text(*e),
        PatternKind::Or(a, b) => pattern_text(*a) + " | "@ + pattern_text(*b),
        PatternKind::Ref(p) => "&"@ + pattern_text(*p),
        PatternKind::InOut(p) => "&mut "@ + pattern_text(*p),
        PatternKind::Consume(p) => "consume "@ + pattern_text(*p),
        PatternKind::Guard(p, g) => pattern_debug(*p) + " if "@ + expr_debug(*g),
        PatternKind::Error => "<error>"@,
    }
}

proof fn lemma_patterns_texts_len(ps: Seq<Pattern>)
    ensures
        patterns_texts(ps).len() == ps.len(),
    decreases ps.len(),
{
    if ps.len() > 0 {
        lemma_patterns_texts_len(ps.drop_last());
    }
}

proof fn lemma_fields_texts_len(fs: Seq<FieldPattern>)
    ensures
        fields_texts(fs).len() == fs.len(),
    decreases fs.len(),
{
    if fs.len() > 0 {
        lemma_fields_texts_len(fs.drop_last());
    }
}

/// The joined texts of a list of patterns.
fn join_patterns(ps: &Vec<Pattern>) -> (r: String)
    ensures
        r@ == join_texts(patterns_texts(ps@), ", "@),
    decreases ps, 0nat,
{
    let ghost ts = patterns_texts(ps@);
    let mut out = String::new();
    let mut k: usize = 0;
    proof {
        lemma_patterns_texts_len(ps@);
    }
    assert(out@ =~= join_texts(ts.subrange(0, 0), ", "@));
    while k < ps.len()
        invariant
            k <= ps@.len(),
            ts == patterns_texts(ps@),
            ts.len() == ps@.len(),
            out@ == join_texts(ts.subrange(0, k as int), ", "@),
        decreases ps@.len() - k,
    {
        proof {
            lemma_join_step(ts, ", "@, k as int);
            assert(patterns_texts(ps@.take(k + 1)) == patterns_texts(ps@.take(k as int)).push(pattern_text(ps@[k as int]))) by {
                assert(ps@.take(k + 1).drop_last() =~= ps@.take(k as int));
            }
            lemma_patterns_texts_prefix(ps@, k as int);
        }
        let t = ps[k].to_string();
        if k == 0 {
            out = t;
        } else {
            out = cat(&[out.as_str(), ", ", t.as_str()]);
            proof {
                reveal_with_fuel(Seq::fold_left, 4);
            }
        }
        k = k + 1;
    }
    assert(ts.subrange(0, ts.len() as int) =~= ts);
    out
}

proof fn lemma_patterns_texts_prefix(ps: Seq<Pattern>, k: int)
    requires
        0 <= k < ps.len(),
    ensures
        patterns_texts(ps)[k] == pattern_text(ps[k]),
    decreases ps.len(),
{
    lemma_patterns_texts_len(ps.drop_last());
    if k < ps.len() - 1 {
        lemma_patterns_texts_prefix(ps.drop_last(), k);
    }
}

proof fn lemma_fields_texts_index(fs: Seq<FieldPattern>, k: int)
    requires
        0 <= k < fs.len(),
    ensures
        fields_texts(fs)[k] == fs[k].name.name@ + ": "@ + pattern_text(fs[k].pattern),
    decreases fs.len(),
{
    lemma_fields_texts_len(fs.drop_last());
    if k < fs.len() - 1 {
        lemma_fields_texts_index(fs.drop_last(), k);
    }
}

/// The joined texts of the fields of a struct pattern.
fn join_fields(fs: &Vec<FieldPattern>) -> (r: String)
    ensures
        r@ == join_texts(fields_texts(fs@), ", "@),
    decreases fs, 0nat,
{
    let ghost ts = fields_texts(fs@);
    let mut out = String::new();
    let mut k: usize = 0;
    proof {
        lemma_fields_texts_len(fs@);
    }
    assert(out@ =~= join_texts(ts.subrange(0, 0), ", "@));
    while k < fs.len()
        invariant
            k <= fs@.len(),
            ts == fields_texts(fs@),
            ts.len() == fs@.len(),
            out@ == join_texts(ts.subrange(0, k as int), ", "@),
        decreases fs@.len() - k,
    {
        proof {
            lemma_join_step(ts, ", "@, k as int);
            lemma_fields_texts_index(fs@, k as int);
        }
        let t = fs[k].to_string();
        if k == 0 {
            out = t;
        } else {
            out = cat(&[out.as_str(), ", ", t.as_str()]);
            proof {
                reveal_with_fuel(Seq::fold_left, 4);
            }
        }
        k = k + 1;
    }
    assert(ts.subrange(0, ts.len() as int) =~= ts);
    out
}

impl FieldPattern {
    /// `name: pattern`.
    pub fn to_string(&self) -> (r: String)
        ensures
            r@ == self.name.name@ + ": "@ + pattern_text(self.pattern),
        decreases self, 0nat,
    {
        let p = self.pattern.to_string();
        let r = cat(&[self.name.name.as_str(), ": ", p.as_str()]);
        proof {
            reveal_with_fuel(Seq::fold_left, 4);
        }
        r
    }
}

impl Pattern {
    /// The pattern's text, as its `Display` shows it.
    pub fn to_string(&self) -> (r: String)
        ensures
            r@ == pattern_text(*self),
        decreases self, 0nat,
    {
        let k = self.kind.to_string();
        match self.quantity {
            Quantity::Many => k,
            q => {
                let t = q.to_string();
                let r = cat(&[t.as_str(), " ", k.as_str()]);
                proof {
                    reveal_with_fuel(Seq::fold_left, 4);
                }
                r
            },
        }
    }
}

impl PatternKind {
    /// The kind's text, as its `Display` shows it.
    pub fn to_string(&self) -> (r: String)
        ensures
            r@ == pattern_kind_text(*self),
        decreases self, 0nat,
    {
        let r = match self {
            PatternKind::Wildcard => "_".to_string(),
            PatternKind::Ident(i) => i.name.clone(),
            PatternKind::Literal(l) => l.to_string(),
            PatternKind::Tuple(ps) => {
                let j = join_patterns(ps);
                cat(&["(", j.as_str(), ")"])
            },
            PatternKind::Struct(name, fields) => {
                let j = join_fields(fields);
                cat(&[name.name.as_str(), " { ", j.as_str(), " }"])
            },
            PatternKind::Variant(e, v, fields) => {
                if fields.len() > 0 {
                    let j = join_patterns(fields);
                    cat(&[e.name.as_str(), "::", v.name.as_str(), "(", j.as_str(), ")"])
                } else {
                    cat(&[e.name.as_str(), "::", v.name.as_str()])
                }
            },
            PatternKind::Array(ps) => {
                let j = join_patterns(ps);
                cat(&["[", j.as_str(), "]"])
            },
            PatternKind::Range(s, e) => {
                let a = s.to_string();
                let b = e.to_string();
                cat(&[a.as_str(), "..", b.as_str()])
            },
            PatternKind::Or(a, b) => {
                let x = a.to_string();
                let y = b.to_string();
                cat(&[x.as_str(), " | ", y.as_str()])
            },
            PatternKind::Ref(p) => {
                let x = p.to_string();
                concat("&", x.as_str())
            },
            PatternKind::InOut(p) => {
                let x = p.to_string();
                concat("&mut ", x.as_str())
            },
            PatternKind::Consume(p) => {
                let x = p.to_string();
                concat("consume ", x.as_str())
            },
            PatternKind::Guard(p, g) => {
                let x = pattern_debug_string(p);
                let y = expr_debug_string(g);
                cat(&[x.as_str(), " if ", y.as_str()])
            },
            PatternKind::Error => "<error>".to_string(),
        };
        proof {
            reveal_with_fuel(Seq::fold_left, 7);
        }
        assert(r@ =~= pattern_kind_text(*self));
        r
    }
}

/// The text of an expression kind: a literal or variable as itself, a few
/// kinds with the `{:?}` of their parts, and `<expr>` for the others.
pub open spec fn expr_kind_text(k: ExprKind) -> Seq<char> {
    match k {
        ExprKind::Literal(l) => literal_text(l),
        ExprKind::Var(v) => v.name@,
        ExprKind::Binary(op, l, r) => "("@ + expr_debug(*l) + " "@ + binop_text(op) + " "@ + expr_debug(*r) + ")"@,
        ExprKind::Unary(op, e) => "("@ + unop_text(op) + expr_debug(*e) + ")"@,
        ExprKind::Call(f, _) => expr_debug(*f) + "(...)"@,
        ExprKind::Block(_) => "{ ... }"@,
        ExprKind::If(c, t, e) => "if "@ + expr_debug(*c) + " then "@ + expr_debug(*t) + " else "@
            + match e {
                Some(b) => "Some("@ + expr_debug(*b) + ")"@,
                None => "None"@,
            },
        ExprKind::Let(b) => "let "@ + ident_debug_text(b.name) + " = "@ + expr_debug(b.value),
        ExprKind::Reversible(_) => "reversible { ... }"@,
        ExprKind::QuantumOp(q) => "quantum "@ + quantum_op_debug(q),
        ExprKind::Error => "<error>"@,
        _ => "<expr>"@,
    }
}

impl ExprKind {
    /// The kind's text, as its `Display` shows it.
    pub fn to_string(&self) -> (r: String)
        ensures
            r@ == expr_kind_text(*self),
    {
        let r = match self {
            ExprKind::Literal(l) => l.to_string(),
            ExprKind::Var(v) => v.name.clone(),
            ExprKind::Binary(op, l, rt) => {
                let a = expr_debug_string(l);
                let o = op.to_string();
                let b = expr_debug_string(rt);
                cat(&["(", a.as_str(), " ", o.as_str(), " ", b.as_str(), ")"])
            },
            ExprKind::Unary(op, e) => {
                let o = op.to_string();
                let a = expr_debug_string(e);
                cat(&["(", o.as_str(), a.as_str(), ")"])
            },
            ExprKind::Call(f, _) => {
                let a = expr_debug_string(f);
                concat(a.as_str(), "(...)")
            },
            ExprKind::Block(_) => "{ ... }".to_string(),
            ExprKind::If(c, t, e) => {
                let a = expr_debug_string(c);
                let b = expr_debug_string(t);
                let d = match e {
                    Some(x) => {
                        let y = expr_debug_string(x);
                        cat(&["Some(", y.as_str(), ")"])
                    },
                    None => "None".to_string(),
                };
                cat(&["if ", a.as_str(), " then ", b.as_str(), " else ", d.as_str()])
            },
            ExprKind::Let(b) => {
                let n = ident_debug_string(&b.name);
                let v = expr_debug_string(&b.value);
                cat(&["let ", n.as_str(), " = ", v.as_str()])
            },
            ExprKind::Reversible(_) => "reversible { ... }".to_string(),
            ExprKind::QuantumOp(q) => {
                let a = quantum_op_debug_string(q);
                concat("quantum ", a.as_str())
            },
            ExprKind::Error => "<error>".to_string(),
            _ => "<expr>".to_string(),
        };
        proof {
            reveal_with_fuel(Seq::fold_left, 8);
        }
        assert(r@ =~= expr_kind_text(*self));
        r
    }
}

/// The text of a statement kind: bindings and expression statements with
/// the `{:?}` of their parts.
pub open spec fn stmt_kind_text(k: StmtKind) -> Seq<char> {
    match k {
        StmtKind::Let(l) => "let "@ + mutability_text(l.mutability) + ident_debug_text(l.name) + " = "@ + expr_debug(l.value) + ";"@,
        StmtKind::LetInOut(l) => "let inout "@ + ident_debug_text(l.name) + " = "@ + expr_debug(l.value) + ";"@,
        StmtKind::LetConsume(l) => "let consume "@ + ident_debug_text(l.name) + " = "@ + expr_debug(l.value) + ";"@,
        StmtKind::Expr(e) => expr_debug(e) + ";"@,
        StmtKind::Item(i) => item_debug(i),
        StmtKind::Reversible(_) => "reversible { ... }"@,
        StmtKind::Return(e) => match e {
            Some(x) => "return "@ + expr_debug(x) + ";"@,
            None => "return;"@,
        },
        StmtKind::Break(e) => match e {
            Some(x) => "break "@ + expr_debug(x) + ";"@,
            None => "break;"@,
        },
        StmtKind::Continue => "continue;"@,
        StmtKind::Empty => ";"@,
        StmtKind::Error => "<error>"@,
    }
}

impl StmtKind {
    /// The kind's text, as its `Display` shows it.
    pub fn to_string(&self) -> (r: String)
        ensures
            r@ == stmt_kind_text(*self),
    {
        let r = match self {
            StmtKind::Let(l) => {
                let m = l.mutability.to_string();
                let n = ident_debug_string(&l.name);
                let v = expr_debug_string(&l.value);
                cat(&["let ", m.as_str(), n.as_str(), " = ", v.as_str(), ";"])
            },
            StmtKind::LetInOut(l) => {
                let n = ident_debug_string(&l.name);
                let v = expr_debug_string(&l.value);
                cat(&["let inout ", n.as_str(), " = ", v.as_str(), ";"])
            },
            StmtKind::LetConsume(l) => {
                let n = ident_debug_string(&l.name);
                let v = expr_debug_string(&l.value);
                cat(&["let consume ", n.as_str(), " = ", v.as_str(), ";"])
            },
            StmtKind::Expr(e) => {
                let v = expr_debug_string(e);
                concat(v.as_str(), ";")
            },
            StmtKind::Item(i) => item_debug_string(i),
            StmtKind::Reversible(_) => "reversible { ... }".to_string(),
            StmtKind::Return(e) => match e {
                Some(x) => {
                    let v = expr_debug_string(x);
                    cat(&["return ", v.as_str(), ";"])
                },
                None => "return;".to_string(),
            },
            StmtKind::Break(e) => match e {
                Some(x) => {
                    let v = expr_debug_string(x);
                    cat(&["break ", v.as_str(), ";"])
                },
                None => "break;".to_string(),
            },
            StmtKind::Continue => "continue;".to_string(),
            StmtKind::Empty => ";".to_string(),
            StmtKind::Error => "<error>".to_string(),
        };
        proof {
            reveal_with_fuel(Seq::fold_left, 7);
        }
        assert(r@ =~= stmt_kind_text(*self));
        r
    }
}

} // verus!
