//! Tokens of the Naso lexer: their kinds, spans and texts, and the
//! decoding of literal token texts.

use vstd::prelude::*;
use crate::text::{chars_of, concat, push_char, str_eq};
use crate::ir::pretty_print::{int_text, i64_to_decimal};

verus! {

/// The byte range of a token with its line and column.
#[derive(Debug, Clone, Copy, PartialEq, Eq, Structural)]
pub struct TokenSpan {
    pub start: usize,
    pub end: usize,
    pub line: u32,
    pub column: u32,
}

impl TokenSpan {
    /// A span at line 1, column 1.
    pub fn new(start: usize, end: usize) -> (r: Self)
        ensures
            r == (TokenSpan { start, end, line: 1, column: 1 }),
    {
        TokenSpan { start, end, line: 1, column: 1 }
    }

    /// A span with its position.
    pub fn with_position(start: usize, end: usize, line: u32, column: u32) -> (r: Self)
        ensures
            r == (TokenSpan { start, end, line, column }),
    {
        TokenSpan { start, end, line, column }
    }

    /// The smallest span covering both: the earlier start, the later end,
    /// and the line and column of the span that starts first (of `self`
    /// when both start together), since they describe where a span starts.
    pub fn merge(self, other: TokenSpan) -> (r: TokenSpan)
        ensures
            r.start == if self.start <= other.start { self.start } else { other.start },
            r.end == if self.end >= other.end { self.end } else { other.end },
            r.line == if self.start <= other.start { self.line } else { other.line },
            r.column == if self.start <= other.start { self.column } else { other.column },
    {
        let first = if self.start <= other.start { self } else { other };
        TokenSpan {
            start: first.start,
            end: if self.end >= other.end { self.end } else { other.end },
            line: first.line,
            column: first.column,
        }
    }
}


/// A lexical token: its kind and where it stands.
#[derive(Debug, PartialEq)]
pub struct Token {
    pub kind: TokenKind,
    pub span: TokenSpan,
}

/// The kinds of lexical tokens: quantity markers, keywords, quantum
/// keywords, operators, punctuation, identifiers and literals. A floating
/// literal is held as its decimal text.
#[derive(Debug, PartialEq)]
pub enum TokenKind {
    Comment,
    Newline,
    QtyStar,
    Fn,
    Let,
    InOut,
    Consume,
    Reversible,
    Return,
    If,
    Else,
    Match,
    For,
    While,
    Struct,
    Enum,
    Type,
    Mod,
    Import,
    Const,
    Qubit,
    QRegister,
    Measure,
    Gate,
    Entangle,
    Hadamard,
    CNot,
    QAlloc,
    Nat,
    FloatKw,
    Bool(bool),
    Int(i64),
    Float(String),
    Str(String),
    Char(char),
    TypeIdent(String),
    Ident(String),
    Not,
    Eq,
    Ne,
    Le,
    Ge,
    AndAnd,
    OrOr,
    Shl,
    Shr,
    Arrow,
    FatArrow,
    DotDot,
    Plus,
    Minus,
    Star,
    Slash,
    Percent,
    Lt,
    Gt,
    Amp,
    Pipe,
    Caret,
    Assign,
    At,
    Colon,
    Semicolon,
    Comma,
    Dot,
    LParen,
    RParen,
    LBracket,
    RBracket,
    LBrace,
    RBrace,
    Error,
}

/// The name of a token kind in diagnostics.
pub open spec fn display_name_text(k: TokenKind) -> Seq<char> {
    match k {
        TokenKind::Fn => "'fn'"@,
        TokenKind::Let => "'let'"@,
        TokenKind::InOut => "'inout'"@,
        TokenKind::Consume => "'consume'"@,
        TokenKind::Reversible => "'reversible'"@,
        TokenKind::Return => "'return'"@,
        TokenKind::If => "'if'"@,
        TokenKind::Else => "'else'"@,
        TokenKind::Match => "'match'"@,
        TokenKind::For => "'for'"@,
        TokenKind::While => "'while'"@,
        TokenKind::Struct => "'struct'"@,
        TokenKind::Enum => "'enum'"@,
        TokenKind::Type => "'type'"@,
        TokenKind::Mod => "'mod'"@,
        TokenKind::Import => "'import'"@,
        TokenKind::Const => "'const'"@,
        TokenKind::Qubit => "'qubit'"@,
        TokenKind::QRegister => "'qregister'"@,
        TokenKind::Measure => "'measure'"@,
        TokenKind::Gate => "'gate'"@,
        TokenKind::Entangle => "'entangle'"@,
        TokenKind::Hadamard => "'hadamard'"@,
        TokenKind::CNot => "'cnot'"@,
        TokenKind::QAlloc => "'qalloc'"@,
        TokenKind::Nat => "'nat'"@,
        TokenKind::FloatKw => "'float'"@,
        TokenKind::QtyStar => "'[*]'"@,
        TokenKind::Int(_) => "integer literal"@,
        TokenKind::Float(_) => "float literal"@,
        TokenKind::Bool(_) => "boolean literal"@,
        TokenKind::Str(_) => "string literal"@,
        TokenKind::Char(_) => "char literal"@,
        TokenKind::Ident(_) => "identifier"@,
        TokenKind::TypeIdent(_) => "type name"@,
        TokenKind::Plus => "'+'"@,
        TokenKind::Not => "'!'"@,
        TokenKind::Minus => "'-'"@,
        TokenKind::Star => "'*'"@,
        TokenKind::Slash => "'/'"@,
        TokenKind::Percent => "'%'"@,
        TokenKind::Eq => "'=='"@,
        TokenKind::Ne => "'!='"@,
        TokenKind::Lt => "'<'"@,
        TokenKind::Le => "'<='"@,
        TokenKind::Gt => "'>'"@,
        TokenKind::Ge => "'>='"@,
        TokenKind::AndAnd => "'&&'"@,
        TokenKind::OrOr => "'||'"@,
        TokenKind::Amp => "'&'"@,
        TokenKind::Pipe => "'|'"@,
        TokenKind::Caret => "'^'"@,
        TokenKind::Shl => "'<<'"@,
        TokenKind::Shr => "'>>'"@,
        TokenKind::Assign => "'='"@,
        TokenKind::Arrow => "'->'"@,
        TokenKind::FatArrow => "'=>'"@,
        TokenKind::Colon => "':'"@,
        TokenKind::Semicolon => "';'"@,
        TokenKind::Comma => "','"@,
        TokenKind::Dot => "'.'"@,
        TokenKind::DotDot => "'..'"@,
        TokenKind::LParen => "'('"@,
        TokenKind::RParen => "')'"@,
        TokenKind::LBracket => "'['"@,
        TokenKind::RBracket => "']'"@,
        TokenKind::LBrace => "'{'"@,
        TokenKind::RBrace => "'}'"@,
        TokenKind::At => "'@'"@,
        TokenKind::Newline => "newline"@,
        TokenKind::Comment => "comment"@,
        TokenKind::Error => "<lex error>"@,
    }
}

impl TokenKind {
    /// The name of the kind in diagnostics.
    pub fn display_name(&self) -> (r: &'static str)
        ensures
            r@ == display_name_text(*self),
    {
        match self {
            TokenKind::Fn => "'fn'",
            TokenKind::Let => "'let'",
            TokenKind::InOut => "'inout'",
            TokenKind::Consume => "'consume'",
            TokenKind::Reversible => "'reversible'",
            TokenKind::Return => "'return'",
            TokenKind::If => "'if'",
            TokenKind::Else => "'else'",
            TokenKind::Match => "'match'",
            TokenKind::For => "'for'",
            TokenKind::While => "'while'",
            TokenKind::Struct => "'struct'",
            TokenKind::Enum => "'enum'",
            TokenKind::Type => "'type'",
            TokenKind::Mod => "'mod'",
            TokenKind::Import => "'import'",
            TokenKind::Const => "'const'",
            TokenKind::Qubit => "'qubit'",
            TokenKind::QRegister => "'qregister'",
            TokenKind::Measure => "'measure'",
            TokenKind::Gate => "'gate'",
            TokenKind::Entangle => "'entangle'",
            TokenKind::Hadamard => "'hadamard'",
            TokenKind::CNot => "'cnot'",
            TokenKind::QAlloc => "'qalloc'",
            TokenKind::Nat => "'nat'",
            TokenKind::FloatKw => "'float'",
            TokenKind::QtyStar => "'[*]'",
            TokenKind::Int(_) => "integer literal",
            TokenKind::Float(_) => "float literal",
            TokenKind::Bool(_) => "boolean literal",
            TokenKind::Str(_) => "string literal",
            TokenKind::Char(_) => "char literal",
            TokenKind::Ident(_) => "identifier",
            TokenKind::TypeIdent(_) => "type name",
            TokenKind::Plus => "'+'",
            TokenKind::Not => "'!'",
            TokenKind::Minus => "'-'",
            TokenKind::Star => "'*'",
            TokenKind::Slash => "'/'",
            TokenKind::Percent => "'%'",
            TokenKind::Eq => "'=='",
            TokenKind::Ne => "'!='",
            TokenKind::Lt => "'<'",
            TokenKind::Le => "'<='",
            TokenKind::Gt => "'>'",
            TokenKind::Ge => "'>='",
            TokenKind::AndAnd => "'&&'",
            TokenKind::OrOr => "'||'",
            TokenKind::Amp => "'&'",
            TokenKind::Pipe => "'|'",
            TokenKind::Caret => "'^'",
            TokenKind::Shl => "'<<'",
            TokenKind::Shr => "'>>'",
            TokenKind::Assign => "'='",
            TokenKind::Arrow => "'->'",
            TokenKind::FatArrow => "'=>'",
            TokenKind::Colon => "':'",
            TokenKind::Semicolon => "';'",
            TokenKind::Comma => "','",
            TokenKind::Dot => "'.'",
            TokenKind::DotDot => "'..'",
            TokenKind::LParen => "'('",
            TokenKind::RParen => "')'",
            TokenKind::LBracket => "'['",
            TokenKind::RBracket => "']'",
            TokenKind::LBrace => "'{'",
            TokenKind::RBrace => "'}'",
            TokenKind::At => "'@'",
            TokenKind::Newline => "newline",
            TokenKind::Comment => "comment",
            TokenKind::Error => "<lex error>",
        }
    }
}

/// Newlines and comments: trivia between grammar tokens.
pub open spec fn trivia(k: TokenKind) -> bool {
    k is Newline || k is Comment
}

/// Whether a token is pure trivia that can be skipped between grammar tokens.
pub fn is_trivia(kind: &TokenKind) -> (r: bool)
    ensures
        r == trivia(*kind),
{
    match kind {
        TokenKind::Newline | TokenKind::Comment => true,
        _ => false,
    }
}

/// The text of a token kind: a literal's value, an identifier's name, or the
/// kind's diagnostic name.
pub open spec fn token_text(k: TokenKind) -> Seq<char> {
    match k {
        TokenKind::Int(v) => int_text(v),
        TokenKind::Float(t) => t@,
        TokenKind::Bool(b) => if b { "true"@ } else { "false"@ },
        TokenKind::Str(v) => "\""@ + v@ + "\""@,
        TokenKind::Char(c) => seq!['\'', c, '\''],
        TokenKind::Ident(n) => n@,
        TokenKind::TypeIdent(n) => n@,
        _ => display_name_text(k),
    }
}

impl TokenKind {
    /// The kind's text, as its `Display` shows it.
    pub fn to_string(&self) -> (r: String)
        ensures
            r@ == token_text(*self),
    {
        match self {
            TokenKind::Int(v) => i64_to_decimal(*v),
            TokenKind::Float(t) => t.clone(),
            TokenKind::Bool(b) => if *b { "true".to_string() } else { "false".to_string() },
            TokenKind::Str(v) => {
                let a = concat("\"", v.as_str());
                concat(a.as_str(), "\"")
            },
            TokenKind::Char(c) => {
                let a = push_char("'".to_string(), *c);
                let r = push_char(a, '\'');
                proof {
                    reveal_strlit("'");
                }
                assert(r@ =~= seq!['\'', *c, '\'']);
                r
            },
            TokenKind::Ident(n) => n.clone(),
            TokenKind::TypeIdent(n) => n.clone(),
            _ => self.display_name().to_string(),
        }
    }
}

/// The character an escape `\\c` stands for.
pub open spec fn escaped(c: char) -> char {
    if c == 'n' {
        '\n'
    } else if c == 't' {
        '\t'
    } else if c == 'r' {
        '\r'
    } else if c == '0' {
        '\0'
    } else {
        c
    }
}

/// The text with its escapes decoded: `\\n`, `\\t`, `\\r` and `\\0` stand for
/// their control characters, a backslash before any other character for
/// that character, and a trailing backslash for itself.
pub open spec fn unescape_text(s: Seq<char>) -> Seq<char>
    decreases s.len(),
{
    if s.len() == 0 {
        Seq::empty()
    } else if s[0] == '\\' {
        if s.len() == 1 {
            seq!['\\']
        } else {
            seq![escaped(s[1])] + unescape_text(s.subrange(2, s.len() as int))
        }
    } else {
        seq![s[0]] + unescape_text(s.subrange(1, s.len() as int))
    }
}

/// Decodes the escapes of a text.
pub fn unescape(s: &str) -> (r: String)
    ensures
        r@ == unescape_text(s@),
{
    let cs = chars_of(s);
    let n = cs.len();
    let mut out = String::new();
    let mut i: usize = 0;
    assert(cs@.subrange(0, n as int) =~= cs@);
    while i < n
        invariant
            n == cs@.len(),
            cs@ == s@,
            i <= n,
            unescape_text(s@) == out@ + unescape_text(cs@.subrange(i as int, n as int)),
        decreases n - i,
    {
        let ghost rest = cs@.subrange(i as int, n as int);
        let c = cs[i];
        if c == '\\' {
            if i + 1 < n {
                let e = cs[i + 1];
                let d = if e == 'n' {
                    '\n'
                } else if e == 't' {
                    '\t'
                } else if e == 'r' {
                    '\r'
                } else if e == '0' {
                    '\0'
                } else {
                    e
                };
                proof {
                    assert(rest.subrange(2, rest.len() as int) =~= cs@.subrange(i + 2, n as int));
                    assert(out@.push(d) + unescape_text(cs@.subrange(i + 2, n as int))
                        =~= out@ + (seq![d] + unescape_text(cs@.subrange(i + 2, n as int))));
                }
                out = push_char(out, d);
                i = i + 2;
            } else {
                proof {
                    assert(out@.push('\\') =~= out@ + seq!['\\']);
                    assert(cs@.subrange(n as int, n as int) =~= Seq::<char>::empty());
                }
                out = push_char(out, '\\');
                i = i + 1;
            }
        } else {
            proof {
                assert(rest.subrange(1, rest.len() as int) =~= cs@.subrange(i + 1, n as int));
                assert(out@.push(c) + unescape_text(cs@.subrange(i + 1, n as int))
                    =~= out@ + (seq![c] + unescape_text(cs@.subrange(i + 1, n as int))));
            }
            out = push_char(out, c);
            i = i + 1;
        }
    }
    assert(cs@.subrange(n as int, n as int) =~= Seq::<char>::empty());
    assert(out@ + Seq::<char>::empty() =~= out@);
    out
}


/// Whether `c` is an ASCII decimal digit.
pub open spec fn is_digit(c: char) -> bool {
    '0' <= c && c <= '9'
}

/// Every character is a decimal digit.
pub open spec fn all_digits(ds: Seq<char>) -> bool {
    forall|i: int| 0 <= i < ds.len() ==> is_digit(#[trigger] ds[i])
}

/// The value of a string of decimal digits.
pub open spec fn digits_value(ds: Seq<char>) -> nat
    decreases ds.len(),
{
    if ds.len() == 0 {
        0
    } else {
        digits_value(ds.drop_last()) * 10 + ((ds.last() as u32 - '0' as u32) as nat)
    }
}

/// A value in range of `i64`, if it is.
pub open spec fn in_i64(v: int) -> Option<i64> {
    if i64::MIN <= v <= i64::MAX { Some(v as i64) } else { None }
}

/// What `str::parse::<i64>` gives: an optional `+` or `-` sign, then at
/// least one decimal digit, and a value in range.
pub open spec fn int_parse(cs: Seq<char>) -> Option<i64> {
    if cs.len() > 0 && (cs[0] == '+' || cs[0] == '-') {
        let ds = cs.drop_first();
        if ds.len() > 0 && all_digits(ds) {
            if cs[0] == '-' { in_i64(-(digits_value(ds) as int)) } else { in_i64(digits_value(ds) as int) }
        } else {
            None
        }
    } else if cs.len() > 0 && all_digits(cs) {
        in_i64(digits_value(cs) as int)
    } else {
        None
    }
}

/// The characters other than `_`, in order.
pub open spec fn without_underscores(s: Seq<char>) -> Seq<char>
    decreases s.len(),
{
    if s.len() == 0 {
        Seq::empty()
    } else if s.last() == '_' {
        without_underscores(s.drop_last())
    } else {
        without_underscores(s.drop_last()).push(s.last())
    }
}

proof fn lemma_digits_value_grows(ds: Seq<char>, k: int)
    requires
        0 <= k <= ds.len(),
        all_digits(ds),
    ensures
        digits_value(ds.take(k)) <= digits_value(ds),
    decreases ds.len() - k,
{
    if k < ds.len() {
        lemma_digits_value_grows(ds, k + 1);
        let t = ds.take(k + 1);
        assert(t.drop_last() =~= ds.take(k));
        assert(is_digit(ds[k]));
    } else {
        assert(ds.take(k) =~= ds);
    }
}

/// Parses a signed decimal integer, as `str::parse::<i64>` does.
fn parse_i64(cs: &Vec<char>) -> (r: Option<i64>)
    ensures
        r == int_parse(cs@),
{
    let n = cs.len();
    if n == 0 {
        return None;
    }
    let signed = cs[0] == '+' || cs[0] == '-';
    let neg = cs[0] == '-';
    let start: usize = if signed { 1 } else { 0 };
    if start == n {
        return None;
    }
    let ghost ds = if signed { cs@.drop_first() } else { cs@ };
    assert(ds =~= cs@.subrange(start as int, n as int));
    let mut acc: u128 = 0;
    let mut i: usize = start;
    assert(ds.take(0) =~= Seq::<char>::empty());
    while i < n
        invariant
            n == cs@.len(),
            start <= i <= n,
            ds == cs@.subrange(start as int, n as int),
            ds.len() > 0,
            signed == (cs@[0] == '+' || cs@[0] == '-'),
            neg == (cs@[0] == '-'),
            start == if signed { 1usize } else { 0usize },
            signed ==> ds == cs@.drop_first(),
            !signed ==> ds == cs@,
            acc == digits_value(ds.take(i - start)),
            acc <= 9223372036854775808,
            all_digits(ds.take(i - start)),
        decreases n - i,
    {
        let c = cs[i];
        if !('0' <= c && c <= '9') {
            assert(!all_digits(ds)) by {
                assert(ds[i - start] == c);
            }
            return None;
        }
        let d = (c as u32 - '0' as u32) as u128;
        let ghost t = ds.take(i - start + 1);
        assert(t.drop_last() =~= ds.take(i - start));
        assert(t.last() == c);
        acc = acc * 10 + d;
        i = i + 1;
        assert(all_digits(ds.take(i - start))) by {
            assert forall|j: int| 0 <= j < ds.take(i - start).len() implies is_digit(#[trigger] ds.take(i - start)[j]) by {
                if j < i - start - 1 {
                    assert(ds.take(i - start)[j] == ds.take(i - start - 1)[j]);
                }
            }
        }
        if acc > 9223372036854775808 {
            proof {
                if all_digits(ds) {
                    lemma_digits_value_grows(ds, i - start);
                }
            }
            return None;
        }
    }
    assert(ds.take(n - start) =~= ds);
    if neg {
        if acc == 9223372036854775808 {
            Some(i64::MIN)
        } else {
            Some(-(acc as i64))
        }
    } else if acc > 9223372036854775807 {
        None
    } else {
        Some(acc as i64)
    }
}

/// The value of an integer literal's text: underscores are dropped, and a
/// text that does not parse gives 0.
pub fn parse_int(s: &str) -> (r: i64)
    ensures
        r == match int_parse(without_underscores(s@)) {
            Some(v) => v,
            None => 0,
        },
{
    let cs = chars_of(s);
    let mut cleaned: Vec<char> = Vec::new();
    let mut i: usize = 0;
    assert(cs@.take(0) =~= Seq::<char>::empty());
    while i < cs.len()
        invariant
            cs@ == s@,
            i <= cs@.len(),
            cleaned@ == without_underscores(cs@.take(i as int)),
        decreases cs@.len() - i,
    {
        let ghost t = cs@.take(i + 1);
        assert(t.drop_last() =~= cs@.take(i as int));
        if cs[i] != '_' {
            cleaned.push(cs[i]);
        }
        i = i + 1;
    }
    assert(cs@.take(cs@.len() as int) =~= cs@);
    match parse_i64(&cleaned) {
        Some(v) => v,
        None => 0,
    }
}

/// The value of a string literal's text: the text between the quotes, with
/// its escapes decoded.
pub fn parse_string(s: &str) -> (r: String)
    requires
        s@.len() >= 2,
        (s@[0] as u32) < 128,
        (s@[s@.len() - 1] as u32) < 128,
    ensures
        r@ == unescape_text(s@.subrange(1, s@.len() - 1)),
{
    let cs = chars_of(s);
    let mut inner = String::new();
    let mut i: usize = 1;
    assert(s@.subrange(1, 1) =~= Seq::<char>::empty());
    while i < cs.len() - 1
        invariant
            cs@ == s@,
            cs@.len() >= 2,
            1 <= i <= cs@.len() - 1,
            inner@ == s@.subrange(1, i as int),
        decreases cs@.len() - i,
    {
        inner = push_char(inner, cs[i]);
        i = i + 1;
        assert(inner@ =~= s@.subrange(1, i as int));
    }
    unescape(inner.as_str())
}

/// The value of a character literal's text: the first character of the
/// decoded text between the quotes, or `\0` when there is none.
pub fn parse_char(s: &str) -> (r: char)
    requires
        s@.len() >= 2,
        (s@[0] as u32) < 128,
        (s@[s@.len() - 1] as u32) < 128,
    ensures
        r == if unescape_text(s@.subrange(1, s@.len() - 1)).len() > 0 {
            unescape_text(s@.subrange(1, s@.len() - 1))[0]
        } else {
            '\0'
        },
{
    let text = parse_string(s);
    let cs = chars_of(text.as_str());
    if cs.len() > 0 {
        cs[0]
    } else {
        '\0'
    }
}


/// The position of a kind among the token kinds.
pub open spec fn kind_tag(k: TokenKind) -> u8 {
    match k {
        TokenKind::Comment => 0,
        TokenKind::Newline => 1,
        TokenKind::QtyStar => 2,
        TokenKind::Fn => 3,
        TokenKind::Let => 4,
        TokenKind::InOut => 5,
        TokenKind::Consume => 6,
        TokenKind::Reversible => 7,
        TokenKind::Return => 8,
        TokenKind::If => 9,
        TokenKind::Else => 10,
        TokenKind::Match => 11,
        TokenKind::For => 12,
        TokenKind::While => 13,
        TokenKind::Struct => 14,
        TokenKind::Enum => 15,
        TokenKind::Type => 16,
        TokenKind::Mod => 17,
        TokenKind::Import => 18,
        TokenKind::Const => 19,
        TokenKind::Qubit => 20,
        TokenKind::QRegister => 21,
        TokenKind::Measure => 22,
        TokenKind::Gate => 23,
        TokenKind::Entangle => 24,
        TokenKind::Hadamard => 25,
        TokenKind::CNot => 26,
        TokenKind::QAlloc => 27,
        TokenKind::Nat => 28,
        TokenKind::FloatKw => 29,
        TokenKind::Bool(_) => 30,
        TokenKind::Int(_) => 31,
        TokenKind::Float(_) => 32,
        TokenKind::Str(_) => 33,
        TokenKind::Char(_) => 34,
        TokenKind::TypeIdent(_) => 35,
        TokenKind::Ident(_) => 36,
        TokenKind::Not => 37,
        TokenKind::Eq => 38,
        TokenKind::Ne => 39,
        TokenKind::Le => 40,
        TokenKind::Ge => 41,
        TokenKind::AndAnd => 42,
        TokenKind::OrOr => 43,
        TokenKind::Shl => 44,
        TokenKind::Shr => 45,
        TokenKind::Arrow => 46,
        TokenKind::FatArrow => 47,
        TokenKind::DotDot => 48,
        TokenKind::Plus => 49,
        TokenKind::Minus => 50,
        TokenKind::Star => 51,
        TokenKind::Slash => 52,
        TokenKind::Percent => 53,
        TokenKind::Lt => 54,
        TokenKind::Gt => 55,
        TokenKind::Amp => 56,
        TokenKind::Pipe => 57,
        TokenKind::Caret => 58,
        TokenKind::Assign => 59,
        TokenKind::At => 60,
        TokenKind::Colon => 61,
        TokenKind::Semicolon => 62,
        TokenKind::Comma => 63,
        TokenKind::Dot => 64,
        TokenKind::LParen => 65,
        TokenKind::RParen => 66,
        TokenKind::LBracket => 67,
        TokenKind::RBracket => 68,
        TokenKind::LBrace => 69,
        TokenKind::RBrace => 70,
        TokenKind::Error => 71,
    }
}

/// Two kinds are the same token: the same kind, and the same value for a
/// literal or an identifier.
pub open spec fn same_kind(a: TokenKind, b: TokenKind) -> bool {
    match (a, b) {
        (TokenKind::Bool(x), TokenKind::Bool(y)) => x == y,
        (TokenKind::Int(x), TokenKind::Int(y)) => x == y,
        (TokenKind::Float(x), TokenKind::Float(y)) => x@ == y@,
        (TokenKind::Str(x), TokenKind::Str(y)) => x@ == y@,
        (TokenKind::Char(x), TokenKind::Char(y)) => x == y,
        (TokenKind::TypeIdent(x), TokenKind::TypeIdent(y)) => x@ == y@,
        (TokenKind::Ident(x), TokenKind::Ident(y)) => x@ == y@,
        _ => kind_tag(a) == kind_tag(b) && !(a is Bool || a is Int || a is Float || a is Str || a is Char || a is TypeIdent || a is Ident),
    }
}

impl TokenKind {
    /// The position of the kind among the token kinds.
    pub fn tag(&self) -> (r: u8)
        ensures
            r == kind_tag(*self),
    {
        match self {
            TokenKind::Comment => 0,
            TokenKind::Newline => 1,
            TokenKind::QtyStar => 2,
            TokenKind::Fn => 3,
            TokenKind::Let => 4,
            TokenKind::InOut => 5,
            TokenKind::Consume => 6,
            TokenKind::Reversible => 7,
            TokenKind::Return => 8,
            TokenKind::If => 9,
            TokenKind::Else => 10,
            TokenKind::Match => 11,
            TokenKind::For => 12,
            TokenKind::While => 13,
            TokenKind::Struct => 14,
            TokenKind::Enum => 15,
            TokenKind::Type => 16,
            TokenKind::Mod => 17,
            TokenKind::Import => 18,
            TokenKind::Const => 19,
            TokenKind::Qubit => 20,
            TokenKind::QRegister => 21,
            TokenKind::Measure => 22,
            TokenKind::Gate => 23,
            TokenKind::Entangle => 24,
            TokenKind::Hadamard => 25,
            TokenKind::CNot => 26,
            TokenKind::QAlloc => 27,
            TokenKind::Nat => 28,
            TokenKind::FloatKw => 29,
            TokenKind::Bool(_) => 30,
            TokenKind::Int(_) => 31,
            TokenKind::Float(_) => 32,
            TokenKind::Str(_) => 33,
            TokenKind::Char(_) => 34,
            TokenKind::TypeIdent(_) => 35,
            TokenKind::Ident(_) => 36,
            TokenKind::Not => 37,
            TokenKind::Eq => 38,
            TokenKind::Ne => 39,
            TokenKind::Le => 40,
            TokenKind::Ge => 41,
            TokenKind::AndAnd => 42,
            TokenKind::OrOr => 43,
            TokenKind::Shl => 44,
            TokenKind::Shr => 45,
            TokenKind::Arrow => 46,
            TokenKind::FatArrow => 47,
            TokenKind::DotDot => 48,
            TokenKind::Plus => 49,
            TokenKind::Minus => 50,
            TokenKind::Star => 51,
            TokenKind::Slash => 52,
            TokenKind::Percent => 53,
            TokenKind::Lt => 54,
            TokenKind::Gt => 55,
            TokenKind::Amp => 56,
            TokenKind::Pipe => 57,
            TokenKind::Caret => 58,
            TokenKind::Assign => 59,
            TokenKind::At => 60,
            TokenKind::Colon => 61,
            TokenKind::Semicolon => 62,
            TokenKind::Comma => 63,
            TokenKind::Dot => 64,
            TokenKind::LParen => 65,
            TokenKind::RParen => 66,
            TokenKind::LBracket => 67,
            TokenKind::RBracket => 68,
            TokenKind::LBrace => 69,
            TokenKind::RBrace => 70,
            TokenKind::Error => 71,
        }
    }

    /// Whether two kinds are the same token.
    pub fn same_as(&self, other: &TokenKind) -> (r: bool)
        ensures
            r == same_kind(*self, *other),
    {
        match (self, other) {
            (TokenKind::Bool(x), TokenKind::Bool(y)) => *x == *y,
            (TokenKind::Int(x), TokenKind::Int(y)) => *x == *y,
            (TokenKind::Float(x), TokenKind::Float(y)) => str_eq(x.as_str(), y.as_str()),
            (TokenKind::Str(x), TokenKind::Str(y)) => str_eq(x.as_str(), y.as_str()),
            (TokenKind::Char(x), TokenKind::Char(y)) => *x == *y,
            (TokenKind::TypeIdent(x), TokenKind::TypeIdent(y)) => str_eq(x.as_str(), y.as_str()),
            (TokenKind::Ident(x), TokenKind::Ident(y)) => str_eq(x.as_str(), y.as_str()),
            _ => {
                let valued = match self {
                    TokenKind::Bool(_) | TokenKind::Int(_) | TokenKind::Float(_) | TokenKind::Str(_) | TokenKind::Char(_)
                    | TokenKind::TypeIdent(_) | TokenKind::Ident(_) => true,
                    _ => false,
                };
                !valued && self.tag() == other.tag()
            },
        }
    }
}

impl Clone for TokenKind {
    fn clone(&self) -> (r: Self)
        ensures
            r == *self,
    {
        match self {
            TokenKind::Comment => TokenKind::Comment,
            TokenKind::Newline => TokenKind::Newline,
            TokenKind::QtyStar => TokenKind::QtyStar,
            TokenKind::Fn => TokenKind::Fn,
            TokenKind::Let => TokenKind::Let,
            TokenKind::InOut => TokenKind::InOut,
            TokenKind::Consume => TokenKind::Consume,
            TokenKind::Reversible => TokenKind::Reversible,
            TokenKind::Return => TokenKind::Return,
            TokenKind::If => TokenKind::If,
            TokenKind::Else => TokenKind::Else,
            TokenKind::Match => TokenKind::Match,
            TokenKind::For => TokenKind::For,
            TokenKind::While => TokenKind::While,
            TokenKind::Struct => TokenKind::Struct,
            TokenKind::Enum => TokenKind::Enum,
            TokenKind::Type => TokenKind::Type,
            TokenKind::Mod => TokenKind::Mod,
            TokenKind::Import => TokenKind::Import,
            TokenKind::Const => TokenKind::Const,
            TokenKind::Qubit => TokenKind::Qubit,
            TokenKind::QRegister => TokenKind::QRegister,
            TokenKind::Measure => TokenKind::Measure,
            TokenKind::Gate => TokenKind::Gate,
            TokenKind::Entangle => TokenKind::Entangle,
            TokenKind::Hadamard => TokenKind::Hadamard,
            TokenKind::CNot => TokenKind::CNot,
            TokenKind::QAlloc => TokenKind::QAlloc,
            TokenKind::Nat => TokenKind::Nat,
            TokenKind::FloatKw => TokenKind::FloatKw,
            TokenKind::Bool(x) => TokenKind::Bool(*x),
            TokenKind::Int(x) => TokenKind::Int(*x),
            TokenKind::Float(x) => TokenKind::Float(x.clone()),
            TokenKind::Str(x) => TokenKind::Str(x.clone()),
            TokenKind::Char(x) => TokenKind::Char(*x),
            TokenKind::TypeIdent(x) => TokenKind::TypeIdent(x.clone()),
            TokenKind::Ident(x) => TokenKind::Ident(x.clone()),
            TokenKind::Not => TokenKind::Not,
            TokenKind::Eq => TokenKind::Eq,
            TokenKind::Ne => TokenKind::Ne,
            TokenKind::Le => TokenKind::Le,
            TokenKind::Ge => TokenKind::Ge,
            TokenKind::AndAnd => TokenKind::AndAnd,
            TokenKind::OrOr => TokenKind::OrOr,
            TokenKind::Shl => TokenKind::Shl,
            TokenKind::Shr => TokenKind::Shr,
            TokenKind::Arrow => TokenKind::Arrow,
            TokenKind::FatArrow => TokenKind::FatArrow,
            TokenKind::DotDot => TokenKind::DotDot,
            TokenKind::Plus => TokenKind::Plus,
            TokenKind::Minus => TokenKind::Minus,
            TokenKind::Star => TokenKind::Star,
            TokenKind::Slash => TokenKind::Slash,
            TokenKind::Percent => TokenKind::Percent,
            TokenKind::Lt => TokenKind::Lt,
            TokenKind::Gt => TokenKind::Gt,
            TokenKind::Amp => TokenKind::Amp,
            TokenKind::Pipe => TokenKind::Pipe,
            TokenKind::Caret => TokenKind::Caret,
            TokenKind::Assign => TokenKind::Assign,
            TokenKind::At => TokenKind::At,
            TokenKind::Colon => TokenKind::Colon,
            TokenKind::Semicolon => TokenKind::Semicolon,
            TokenKind::Comma => TokenKind::Comma,
            TokenKind::Dot => TokenKind::Dot,
            TokenKind::LParen => TokenKind::LParen,
            TokenKind::RParen => TokenKind::RParen,
            TokenKind::LBracket => TokenKind::LBracket,
            TokenKind::RBracket => TokenKind::RBracket,
            TokenKind::LBrace => TokenKind::LBrace,
            TokenKind::RBrace => TokenKind::RBrace,
            TokenKind::Error => TokenKind::Error,
        }
    }
}

impl Clone for Token {
    fn clone(&self) -> (r: Self)
        ensures
            r == *self,
    {
        Token { kind: self.kind.clone(), span: self.span }
    }
}

} // verus!
