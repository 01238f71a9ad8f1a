//! The token grammar of Naso and the longest-match scanner over it.
//!
//! Each token rule is a pattern over characters. At each position the
//! lexer takes the longest word that some rule matches; where two rules
//! match the same word, keywords win over identifiers. Blanks (space, tab,
//! carriage return) separate tokens and are dropped; a newline is a token.
//! Keywords are matched without regard to ASCII case.

use vstd::prelude::*;
use crate::lexer::token::{
    TokenKind, display_name_text, token_text, all_digits, int_parse, is_digit, parse_char, parse_int, parse_string, unescape_text,
    without_underscores,
};
use crate::text::{chars_of, push_char};

verus! {

/// `A`..`Z`.
pub open spec fn is_upper(c: char) -> bool {
    'A' <= c && c <= 'Z'
}

/// `a`..`z`.
pub open spec fn is_lower(c: char) -> bool {
    'a' <= c && c <= 'z'
}

/// A character that can start an identifier: a letter or `_`.
pub open spec fn is_ident_start(c: char) -> bool {
    is_upper(c) || is_lower(c) || c == '_'
}

/// A character that can continue an identifier: a letter, a digit or `_`.
pub open spec fn is_word_char(c: char) -> bool {
    is_ident_start(c) || is_digit(c)
}

/// A character of a numeral after its first digit: a digit or `_`.
pub open spec fn is_num_char(c: char) -> bool {
    is_digit(c) || c == '_'
}

/// A blank that separates tokens: space, tab or carriage return.
pub open spec fn is_blank(c: char) -> bool {
    c == ' ' || c == '\t' || c == '\r'
}

/// Every character continues an identifier.
pub open spec fn all_word(w: Seq<char>) -> bool {
    forall|k: int| 0 <= k < w.len() ==> is_word_char(#[trigger] w[k])
}

/// Every character is a digit or `_`.
pub open spec fn all_num(w: Seq<char>) -> bool {
    forall|k: int| 0 <= k < w.len() ==> is_num_char(#[trigger] w[k])
}

/// `((e|E)[+-]?[0-9]+)?`: nothing, or an exponent.
pub open spec fn exponent_part(e: Seq<char>) -> bool {
    e.len() == 0 || ((e[0] == 'e' || e[0] == 'E') && ((e.len() >= 2 && all_digits(e.subrange(1, e.len() as int)))
        || (e.len() >= 3 && (e[1] == '+' || e[1] == '-') && all_digits(e.subrange(2, e.len() as int)))))
}

/// `w` is `\.[0-9][0-9_]*` up to `q`, then an optional exponent.
pub open spec fn fraction_split(w: Seq<char>, q: int) -> bool {
    2 <= q <= w.len() && w[0] == '.' && is_digit(w[1]) && all_num(w.subrange(2, q)) && exponent_part(
        w.subrange(q, w.len() as int),
    )
}

/// `\.[0-9][0-9_]*((e|E)[+-]?[0-9]+)?`
pub open spec fn fraction_word(w: Seq<char>) -> bool {
    exists|q: int| #[trigger] fraction_split(w, q)
}

/// `w` is `[0-9][0-9_]*` up to `p`, then a fraction.
pub open spec fn float_split(w: Seq<char>, p: int) -> bool {
    1 <= p < w.len() && is_digit(w[0]) && all_num(w.subrange(1, p)) && fraction_word(
        w.subrange(p, w.len() as int),
    )
}

/// `[0-9][0-9_]*\.[0-9][0-9_]*((e|E)[+-]?[0-9]+)?`
pub open spec fn float_word(w: Seq<char>) -> bool {
    exists|p: int| #[trigger] float_split(w, p)
}

/// `([^"\\\n]|\\.)*`: characters other than a quote, a backslash or a
/// newline, and backslashes each followed by a character other than a
/// newline.
pub open spec fn string_body(s: Seq<char>) -> bool
    decreases s.len(),
{
    if s.len() == 0 {
        true
    } else if s[0] == '\\' {
        s.len() >= 2 && s[1] != '\n' && string_body(s.subrange(2, s.len() as int))
    } else {
        s[0] != '"' && s[0] != '\n' && string_body(s.subrange(1, s.len() as int))
    }
}

/// A string literal: a body between double quotes.
pub open spec fn string_word(w: Seq<char>) -> bool {
    w.len() >= 2 && w[0] == '"' && w[w.len() - 1] == '"' && string_body(w.subrange(1, w.len() - 1))
}

/// `'([^'\\\n]|\\.)'`: a character literal.
pub open spec fn char_word(w: Seq<char>) -> bool {
    w.len() >= 3 && w[0] == '\'' && w[w.len() - 1] == '\'' && ((w.len() == 3 && w[1] != '\'' && w[1] != '\\'
        && w[1] != '\n') || (w.len() == 4 && w[1] == '\\' && w[2] != '\n'))
}

/// `//[^\n]*`: a line comment.
pub open spec fn comment_word(w: Seq<char>) -> bool {
    w.len() >= 2 && w[0] == '/' && w[1] == '/' && forall|k: int| 2 <= k < w.len() ==> #[trigger] w[k] != '\n'
}

/// The one-character operators and punctuation, and the newline.
pub open spec fn punct1(c: char) -> Option<TokenKind> {
    if c == '!' {
        Some(TokenKind::Not)
    } else if c == '+' {
        Some(TokenKind::Plus)
    } else if c == '-' {
        Some(TokenKind::Minus)
    } else if c == '*' {
        Some(TokenKind::Star)
    } else if c == '/' {
        Some(TokenKind::Slash)
    } else if c == '%' {
        Some(TokenKind::Percent)
    } else if c == '<' {
        Some(TokenKind::Lt)
    } else if c == '>' {
        Some(TokenKind::Gt)
    } else if c == '&' {
        Some(TokenKind::Amp)
    } else if c == '|' {
        Some(TokenKind::Pipe)
    } else if c == '^' {
        Some(TokenKind::Caret)
    } else if c == '=' {
        Some(TokenKind::Assign)
    } else if c == '@' {
        Some(TokenKind::At)
    } else if c == ':' {
        Some(TokenKind::Colon)
    } else if c == ';' {
        Some(TokenKind::Semicolon)
    } else if c == ',' {
        Some(TokenKind::Comma)
    } else if c == '.' {
        Some(TokenKind::Dot)
    } else if c == '(' {
        Some(TokenKind::LParen)
    } else if c == ')' {
        Some(TokenKind::RParen)
    } else if c == '[' {
        Some(TokenKind::LBracket)
    } else if c == ']' {
        Some(TokenKind::RBracket)
    } else if c == '{' {
        Some(TokenKind::LBrace)
    } else if c == '}' {
        Some(TokenKind::RBrace)
    } else if c == '\n' {
        Some(TokenKind::Newline)
    } else {
        None
    }
}

/// The two-character operators.
pub open spec fn punct2(a: char, b: char) -> Option<TokenKind> {
    if a == '=' && b == '=' {
        Some(TokenKind::Eq)
    } else if a == '!' && b == '=' {
        Some(TokenKind::Ne)
    } else if a == '<' && b == '=' {
        Some(TokenKind::Le)
    } else if a == '>' && b == '=' {
        Some(TokenKind::Ge)
    } else if a == '&' && b == '&' {
        Some(TokenKind::AndAnd)
    } else if a == '|' && b == '|' {
        Some(TokenKind::OrOr)
    } else if a == '<' && b == '<' {
        Some(TokenKind::Shl)
    } else if a == '>' && b == '>' {
        Some(TokenKind::Shr)
    } else if a == '-' && b == '>' {
        Some(TokenKind::Arrow)
    } else if a == '=' && b == '>' {
        Some(TokenKind::FatArrow)
    } else if a == '.' && b == '.' {
        Some(TokenKind::DotDot)
    } else {
        None
    }
}

/// The operator, punctuation or quantity marker `[*]` that is exactly `w`.
pub open spec fn punct_kind(w: Seq<char>) -> Option<TokenKind> {
    if w.len() == 1 {
        punct1(w[0])
    } else if w.len() == 2 {
        punct2(w[0], w[1])
    } else if w.len() == 3 && w[0] == '[' && w[1] == '*' && w[2] == ']' {
        Some(TokenKind::QtyStar)
    } else {
        None
    }
}

/// Some token rule matches all of `w`. The first character decides which
/// rules can: a letter or `_` the identifiers and keywords, a digit the
/// integer and float literals, a quote the string or character literal,
/// `.` a fraction or `.` and `..`, `/` a comment or `/`, and any other
/// character the operators and punctuation.
pub open spec fn word_matches(w: Seq<char>) -> bool {
    if w.len() == 0 {
        false
    } else if is_ident_start(w[0]) {
        all_word(w)
    } else if is_digit(w[0]) {
        all_num(w) || float_word(w)
    } else if w[0] == '"' {
        string_word(w)
    } else if w[0] == '\'' {
        char_word(w)
    } else if w[0] == '.' {
        fraction_word(w) || punct_kind(w) is Some
    } else if w[0] == '/' {
        comment_word(w) || punct_kind(w) is Some
    } else {
        punct_kind(w) is Some
    }
}

/// ASCII lowercase of a character.
pub open spec fn ascii_lower(c: char) -> char {
    if is_upper(c) {
        ((c as u32) + 32) as char
    } else {
        c
    }
}

/// ASCII lowercase of a text.
pub open spec fn ascii_lowered(w: Seq<char>) -> Seq<char> {
    Seq::new(w.len(), |k: int| ascii_lower(w[k]))
}

/// The keyword or boolean literal spelled by a lowercase text.
pub open spec fn keyword_kind(l: Seq<char>) -> Option<TokenKind> {
    if l == "fn"@ {
        Some(TokenKind::Fn)
    } else if l == "let"@ {
        Some(TokenKind::Let)
    } else if l == "inout"@ {
        Some(TokenKind::InOut)
    } else if l == "consume"@ {
        Some(TokenKind::Consume)
    } else if l == "reversible"@ {
        Some(TokenKind::Reversible)
    } else if l == "return"@ {
        Some(TokenKind::Return)
    } else if l == "if"@ {
        Some(TokenKind::If)
    } else if l == "else"@ {
        Some(TokenKind::Else)
    } else if l == "match"@ {
        Some(TokenKind::Match)
    } else if l == "for"@ {
        Some(TokenKind::For)
    } else if l == "while"@ {
        Some(TokenKind::While)
    } else if l == "struct"@ {
        Some(TokenKind::Struct)
    } else if l == "enum"@ {
        Some(TokenKind::Enum)
    } else if l == "type"@ {
        Some(TokenKind::Type)
    } else if l == "mod"@ {
        Some(TokenKind::Mod)
    } else if l == "import"@ {
        Some(TokenKind::Import)
    } else if l == "const"@ {
        Some(TokenKind::Const)
    } else if l == "qubit"@ {
        Some(TokenKind::Qubit)
    } else if l == "qregister"@ {
        Some(TokenKind::QRegister)
    } else if l == "measure"@ {
        Some(TokenKind::Measure)
    } else if l == "gate"@ {
        Some(TokenKind::Gate)
    } else if l == "entangle"@ {
        Some(TokenKind::Entangle)
    } else if l == "hadamard"@ {
        Some(TokenKind::Hadamard)
    } else if l == "cnot"@ {
        Some(TokenKind::CNot)
    } else if l == "qalloc"@ {
        Some(TokenKind::QAlloc)
    } else if l == "nat"@ {
        Some(TokenKind::Nat)
    } else if l == "float"@ {
        Some(TokenKind::FloatKw)
    } else if l == "true"@ {
        Some(TokenKind::Bool(true))
    } else if l == "false"@ {
        Some(TokenKind::Bool(false))
    } else {
        None
    }
}

/// The value of an integer literal: its digits without underscores, or 0
/// where they do not fit in an `i64`.
pub open spec fn int_value(w: Seq<char>) -> i64 {
    match int_parse(without_underscores(w)) {
        Some(v) => v,
        None => 0,
    }
}

/// The value of a character literal: the first character of its decoded
/// text between the quotes.
pub open spec fn char_value(w: Seq<char>) -> char {
    let u = unescape_text(w.subrange(1, w.len() - 1));
    if u.len() > 0 {
        u[0]
    } else {
        '\0'
    }
}

/// `k` is the kind of the token whose text is `w`, for a `w` that some rule
/// matches: a keyword or boolean in any ASCII case, else an identifier
/// (a type name when it starts upper case); an integer, or a float held as
/// its text without underscores; a decoded string or character; a comment;
/// an operator or punctuation.
pub open spec fn word_has_kind(w: Seq<char>, k: TokenKind) -> bool {
    if is_ident_start(w[0]) {
        match keyword_kind(ascii_lowered(w)) {
            Some(kw) => k == kw,
            None => if is_upper(w[0]) {
                k matches TokenKind::TypeIdent(s) && s@ == w
            } else {
                k matches TokenKind::Ident(s) && s@ == w
            },
        }
    } else if is_digit(w[0]) {
        if all_num(w) {
            k == TokenKind::Int(int_value(w))
        } else {
            k matches TokenKind::Float(t) && t@ == without_underscores(w)
        }
    } else if w[0] == '"' {
        k matches TokenKind::Str(s) && s@ == unescape_text(w.subrange(1, w.len() - 1))
    } else if w[0] == '\'' {
        k == TokenKind::Char(char_value(w))
    } else if w[0] == '.' && fraction_word(w) {
        k matches TokenKind::Float(t) && t@ == without_underscores(w)
    } else if comment_word(w) {
        k == TokenKind::Comment
    } else {
        punct_kind(w) == Some(k)
    }
}

/// `l` is the length of the longest word at `i` that some rule matches.
pub open spec fn longest_at(cs: Seq<char>, i: int, l: int) -> bool {
    &&& 1 <= l
    &&& 0 <= i
    &&& i + l <= cs.len()
    &&& word_matches(cs.subrange(i, i + l))
    &&& forall|m: int| l < m && i + m <= cs.len() ==> !#[trigger] word_matches(cs.subrange(i, i + m))
}

/// No rule matches any word at `i`.
pub open spec fn no_match_at(cs: Seq<char>, i: int) -> bool {
    forall|m: int| 1 <= m && i + m <= cs.len() ==> !#[trigger] word_matches(cs.subrange(i, i + m))
}

/// Some rule matches a word at `i`.
pub open spec fn matched_at(cs: Seq<char>, i: int) -> bool {
    exists|l: int| longest_at(cs, i, l)
}

fn upper_char(c: char) -> (r: bool)
    ensures
        r == is_upper(c),
{
    'A' <= c && c <= 'Z'
}

fn lower_letter(c: char) -> (r: bool)
    ensures
        r == is_lower(c),
{
    'a' <= c && c <= 'z'
}

fn digit_char(c: char) -> (r: bool)
    ensures
        r == is_digit(c),
{
    '0' <= c && c <= '9'
}

fn ident_start_char(c: char) -> (r: bool)
    ensures
        r == is_ident_start(c),
{
    upper_char(c) || lower_letter(c) || c == '_'
}

fn word_char(c: char) -> (r: bool)
    ensures
        r == is_word_char(c),
{
    ident_start_char(c) || digit_char(c)
}

fn num_char(c: char) -> (r: bool)
    ensures
        r == is_num_char(c),
{
    digit_char(c) || c == '_'
}

/// Whether the character separates tokens without being one.
pub fn blank_char(c: char) -> (r: bool)
    ensures
        r == is_blank(c),
{
    c == ' ' || c == '\t' || c == '\r'
}

fn lower_char(c: char) -> (r: char)
    ensures
        r == ascii_lower(c),
{
    if upper_char(c) {
        let v: u8 = ((c as u32) + 32) as u8;
        v as char
    } else {
        c
    }
}

/// Whether the characters are exactly those of `s`.
fn chars_equal(v: &Vec<char>, s: &str) -> (r: bool)
    ensures
        r == (v@ == s@),
{
    let t = chars_of(s);
    if v.len() != t.len() {
        return false;
    }
    let mut k: usize = 0;
    while k < v.len()
        invariant
            t@ == s@,
            v@.len() == t@.len(),
            k <= v@.len(),
            forall|j: int| 0 <= j < k ==> v@[j] == t@[j],
        decreases v@.len() - k,
    {
        if v[k] != t[k] {
            return false;
        }
        k = k + 1;
    }
    assert(v@ =~= t@);
    true
}

/// The keyword or boolean spelled by a lowercase text.
fn keyword_of(l: &Vec<char>) -> (r: Option<TokenKind>)
    ensures
        r == keyword_kind(l@),
{
    if chars_equal(l, "fn") {
        return Some(TokenKind::Fn);
    }
    if chars_equal(l, "let") {
        return Some(TokenKind::Let);
    }
    if chars_equal(l, "inout") {
        return Some(TokenKind::InOut);
    }
    if chars_equal(l, "consume") {
        return Some(TokenKind::Consume);
    }
    if chars_equal(l, "reversible") {
        return Some(TokenKind::Reversible);
    }
    if chars_equal(l, "return") {
        return Some(TokenKind::Return);
    }
    if chars_equal(l, "if") {
        return Some(TokenKind::If);
    }
    if chars_equal(l, "else") {
        return Some(TokenKind::Else);
    }
    if chars_equal(l, "match") {
        return Some(TokenKind::Match);
    }
    if chars_equal(l, "for") {
        return Some(TokenKind::For);
    }
    if chars_equal(l, "while") {
        return Some(TokenKind::While);
    }
    if chars_equal(l, "struct") {
        return Some(TokenKind::Struct);
    }
    if chars_equal(l, "enum") {
        return Some(TokenKind::Enum);
    }
    if chars_equal(l, "type") {
        return Some(TokenKind::Type);
    }
    if chars_equal(l, "mod") {
        return Some(TokenKind::Mod);
    }
    if chars_equal(l, "import") {
        return Some(TokenKind::Import);
    }
    if chars_equal(l, "const") {
        return Some(TokenKind::Const);
    }
    if chars_equal(l, "qubit") {
        return Some(TokenKind::Qubit);
    }
    if chars_equal(l, "qregister") {
        return Some(TokenKind::QRegister);
    }
    if chars_equal(l, "measure") {
        return Some(TokenKind::Measure);
    }
    if chars_equal(l, "gate") {
        return Some(TokenKind::Gate);
    }
    if chars_equal(l, "entangle") {
        return Some(TokenKind::Entangle);
    }
    if chars_equal(l, "hadamard") {
        return Some(TokenKind::Hadamard);
    }
    if chars_equal(l, "cnot") {
        return Some(TokenKind::CNot);
    }
    if chars_equal(l, "qalloc") {
        return Some(TokenKind::QAlloc);
    }
    if chars_equal(l, "nat") {
        return Some(TokenKind::Nat);
    }
    if chars_equal(l, "float") {
        return Some(TokenKind::FloatKw);
    }
    if chars_equal(l, "true") {
        return Some(TokenKind::Bool(true));
    }
    if chars_equal(l, "false") {
        return Some(TokenKind::Bool(false));
    }
    None
}

/// The characters `from..to` as a string.
fn text_of(cs: &Vec<char>, from: usize, to: usize) -> (r: String)
    requires
        from <= to <= cs@.len(),
    ensures
        r@ == cs@.subrange(from as int, to as int),
{
    let mut out = String::new();
    let mut k: usize = from;
    while k < to
        invariant
            from <= k <= to <= cs@.len(),
            out@ == cs@.subrange(from as int, k as int),
        decreases to - k,
    {
        out = push_char(out, cs[k]);
        k = k + 1;
        assert(out@ =~= cs@.subrange(from as int, k as int));
    }
    out
}

/// The longest identifier or keyword at `i`, with its kind.
fn scan_word(cs: &Vec<char>, i: usize) -> (r: (usize, TokenKind))
    requires
        i < cs@.len(),
        is_ident_start(cs@[i as int]),
    ensures
        longest_at(cs@, i as int, r.0 as int),
        word_has_kind(cs@.subrange(i as int, i + r.0), r.1),
{
    let n = cs.len();
    let mut j: usize = i + 1;
    while j < cs.len() && word_char(cs[j])
        invariant
            i < j <= cs@.len(),
            is_ident_start(cs@[i as int]),
            forall|k: int| i <= k < j ==> is_word_char(#[trigger] cs@[k]),
        decreases cs@.len() - j,
    {
        j = j + 1;
    }
    let ghost w = cs@.subrange(i as int, j as int);
    assert(all_word(w)) by {
        assert forall|k: int| 0 <= k < w.len() implies is_word_char(#[trigger] w[k]) by {
            assert(w[k] == cs@[i + k]);
        }
    }
    assert forall|m: int| (j - i) < m && i + m <= cs@.len() implies !#[trigger] word_matches(cs@.subrange(i as int, i + m)) by {
        let v = cs@.subrange(i as int, i + m);
        assert(v[0] == cs@[i as int]);
        assert(v[j - i] == cs@[j as int]);
    }
    let mut lowered: Vec<char> = Vec::new();
    let mut k: usize = i;
    while k < j
        invariant
            i <= k <= j <= cs@.len(),
            lowered@ == ascii_lowered(cs@.subrange(i as int, k as int)),
        decreases j - k,
    {
        lowered.push(lower_char(cs[k]));
        k = k + 1;
        assert(lowered@ =~= ascii_lowered(cs@.subrange(i as int, k as int)));
    }
    let kind = match keyword_of(&lowered) {
        Some(kw) => kw,
        None => {
            let text = text_of(cs, i, j);
            if upper_char(cs[i]) {
                TokenKind::TypeIdent(text)
            } else {
                TokenKind::Ident(text)
            }
        },
    };
    assert(w[0] == cs@[i as int]);
    (j - i, kind)
}

/// The end of the run of digits and underscores that starts at `from`.
fn num_run_end(cs: &Vec<char>, from: usize) -> (e: usize)
    requires
        from <= cs@.len(),
    ensures
        from <= e <= cs@.len(),
        forall|k: int| from <= k < e ==> is_num_char(#[trigger] cs@[k]),
        e < cs@.len() ==> !is_num_char(cs@[e as int]),
{
    let mut e: usize = from;
    while e < cs.len() && num_char(cs[e])
        invariant
            from <= e <= cs@.len(),
            forall|k: int| from <= k < e ==> is_num_char(#[trigger] cs@[k]),
        decreases cs@.len() - e,
    {
        e = e + 1;
    }
    e
}

/// The end of the run of digits that starts at `from`.
fn digit_run_end(cs: &Vec<char>, from: usize) -> (e: usize)
    requires
        from <= cs@.len(),
    ensures
        from <= e <= cs@.len(),
        forall|k: int| from <= k < e ==> is_digit(#[trigger] cs@[k]),
        e < cs@.len() ==> !is_digit(cs@[e as int]),
{
    let mut e: usize = from;
    while e < cs.len() && digit_char(cs[e])
        invariant
            from <= e <= cs@.len(),
            forall|k: int| from <= k < e ==> is_digit(#[trigger] cs@[k]),
        decreases cs@.len() - e,
    {
        e = e + 1;
    }
    e
}

/// The end of the longest fraction (`.`, digits, an optional exponent) at
/// `d`, where a `.` and a digit stand.
fn scan_fraction(cs: &Vec<char>, d: usize) -> (e: usize)
    requires
        d + 1 < cs@.len(),
        cs@[d as int] == '.',
        is_digit(cs@[d + 1]),
    ensures
        d + 2 <= e <= cs@.len(),
        fraction_word(cs@.subrange(d as int, e as int)),
        forall|f: int| e < f <= cs@.len() ==> !#[trigger] fraction_word(cs@.subrange(d as int, f)),
{
    let n = cs.len();
    let b = num_run_end(cs, d + 2);
    let mut e = b;
    if b < n && (cs[b] == 'e' || cs[b] == 'E') {
        let s = if b + 1 < n && (cs[b + 1] == '+' || cs[b + 1] == '-') { b + 2 } else { b + 1 };
        if s < n && digit_char(cs[s]) {
            e = digit_run_end(cs, s);
        }
    }
    let ghost w = cs@.subrange(d as int, e as int);
    let ghost q = b - d;
    assert(w.subrange(2, q) =~= cs@.subrange(d + 2, b as int));
    assert(fraction_split(w, q)) by {
        assert(all_num(w.subrange(2, q)));
        let x = w.subrange(q, w.len() as int);
        assert(x =~= cs@.subrange(b as int, e as int));
        if e > b {
            if b + 1 < n && (cs@[b + 1] == '+' || cs@[b + 1] == '-') {
                assert(x.subrange(2, x.len() as int) =~= cs@.subrange(b + 2, e as int));
            } else {
                assert(x.subrange(1, x.len() as int) =~= cs@.subrange(b + 1, e as int));
            }
        }
    }
    assert forall|f: int| e < f <= cs@.len() implies !#[trigger] fraction_word(cs@.subrange(d as int, f)) by {
        let v = cs@.subrange(d as int, f);
        if fraction_word(v) {
            let q2 = choose|q2: int| fraction_split(v, q2);
            let y = v.subrange(2, q2);
            let x = v.subrange(q2, v.len() as int);
            if q2 > b - d {
                assert(y[b - d - 2] == cs@[b as int]);
            } else if q2 < b - d {
                assert(x[0] == cs@[d + q2]);
                assert(is_num_char(cs@[d + q2]));
            } else {
                assert(x[0] == cs@[b as int]);
                if x.len() >= 3 && (x[1] == '+' || x[1] == '-') && all_digits(x.subrange(2, x.len() as int)) {
                    assert(x[1] == cs@[b + 1]);
                    assert(x.subrange(2, x.len() as int)[0] == cs@[b + 2]);
                    let z = x.subrange(2, x.len() as int);
                    assert(z[e - b - 2] == cs@[e as int]);
                } else {
                    assert(x[1] == cs@[b + 1]);
                    let z = x.subrange(1, x.len() as int);
                    assert(z[0] == cs@[b + 1]);
                    assert(z[e - b - 1] == cs@[e as int]);
                }
            }
        }
    }
    e
}

/// The characters `from..to` other than `_`, as a string.
fn text_without_underscores(cs: &Vec<char>, from: usize, to: usize) -> (r: String)
    requires
        from <= to <= cs@.len(),
    ensures
        r@ == without_underscores(cs@.subrange(from as int, to as int)),
{
    let mut out = String::new();
    let mut k: usize = from;
    assert(cs@.subrange(from as int, from as int) =~= Seq::<char>::empty());
    while k < to
        invariant
            from <= k <= to <= cs@.len(),
            out@ == without_underscores(cs@.subrange(from as int, k as int)),
        decreases to - k,
    {
        let ghost t = cs@.subrange(from as int, k + 1);
        assert(t.drop_last() =~= cs@.subrange(from as int, k as int));
        if cs[k] != '_' {
            out = push_char(out, cs[k]);
        }
        k = k + 1;
    }
    out
}

/// The longest integer or float literal at `i`, with its kind.
fn scan_number(cs: &Vec<char>, i: usize) -> (r: (usize, TokenKind))
    requires
        i < cs@.len(),
        is_digit(cs@[i as int]),
    ensures
        longest_at(cs@, i as int, r.0 as int),
        word_has_kind(cs@.subrange(i as int, i + r.0), r.1),
{
    let n = cs.len();
    let a = num_run_end(cs, i + 1);
    if a < n && a + 1 < n && cs[a] == '.' && digit_char(cs[a + 1]) {
        let e = scan_fraction(cs, a);
        let ghost w = cs@.subrange(i as int, e as int);
        let ghost p = a - i;
        assert(w.subrange(p, w.len() as int) =~= cs@.subrange(a as int, e as int));
        assert(w.subrange(1, p) =~= cs@.subrange(i + 1, a as int));
        assert(float_split(w, p));
        assert(!all_num(w)) by {
            assert(w[p] == cs@[a as int]);
        }
        assert forall|m: int| (e - i) < m && i + m <= cs@.len() implies !#[trigger] word_matches(cs@.subrange(i as int, i + m)) by {
            let v = cs@.subrange(i as int, i + m);
            assert(v[0] == cs@[i as int]);
            assert(v[p] == cs@[a as int]);
            if float_word(v) {
                let p2 = choose|p2: int| float_split(v, p2);
                let y = v.subrange(1, p2);
                let x = v.subrange(p2, v.len() as int);
                if p2 > p {
                    assert(y[p - 1] == cs@[a as int]);
                } else if p2 < p {
                    let q2 = choose|q2: int| fraction_split(x, q2);
                    assert(x[0] == cs@[i + p2]);
                    assert(is_num_char(cs@[i + p2]));
                } else {
                    assert(x =~= cs@.subrange(a as int, i + m));
                }
            }
        }
        let text = text_without_underscores(cs, i, e);
        (e - i, TokenKind::Float(text))
    } else {
        let ghost w = cs@.subrange(i as int, a as int);
        assert(all_num(w)) by {
            assert forall|k: int| 0 <= k < w.len() implies is_num_char(#[trigger] w[k]) by {
                assert(w[k] == cs@[i + k]);
            }
        }
        assert forall|m: int| (a - i) < m && i + m <= cs@.len() implies !#[trigger] word_matches(cs@.subrange(i as int, i + m)) by {
            let v = cs@.subrange(i as int, i + m);
            assert(v[0] == cs@[i as int]);
            assert(v[a - i] == cs@[a as int]);
            if float_word(v) {
                let p2 = choose|p2: int| float_split(v, p2);
                let y = v.subrange(1, p2);
                let x = v.subrange(p2, v.len() as int);
                let q2 = choose|q2: int| fraction_split(x, q2);
                if p2 > a - i {
                    assert(y[a - i - 1] == cs@[a as int]);
                } else if p2 < a - i {
                    assert(x[0] == cs@[i + p2]);
                    assert(is_num_char(cs@[i + p2]));
                } else {
                    assert(x[0] == cs@[a as int]);
                    assert(x[1] == cs@[a + 1]);
                }
            }
        }
        let text = text_of(cs, i, a);
        let v = parse_int(text.as_str());
        (a - i, TokenKind::Int(v))
    }
}

/// The longest fraction, `..` or `.` at `i`, where a `.` stands.
fn scan_dot(cs: &Vec<char>, i: usize) -> (r: (usize, TokenKind))
    requires
        i < cs@.len(),
        cs@[i as int] == '.',
    ensures
        longest_at(cs@, i as int, r.0 as int),
        word_has_kind(cs@.subrange(i as int, i + r.0), r.1),
{
    let n = cs.len();
    if i + 1 < n && digit_char(cs[i + 1]) {
        let e = scan_fraction(cs, i);
        let ghost w = cs@.subrange(i as int, e as int);
        assert forall|m: int| (e - i) < m && i + m <= cs@.len() implies !#[trigger] word_matches(cs@.subrange(i as int, i + m)) by {
            let v = cs@.subrange(i as int, i + m);
            assert(v[0] == cs@[i as int]);
            assert(v[1] == cs@[i + 1]);
        }
        let text = text_without_underscores(cs, i, e);
        (e - i, TokenKind::Float(text))
    } else if i + 1 < n && cs[i + 1] == '.' {
        let ghost w = cs@.subrange(i as int, i + 2);
        assert(w[0] == '.' && w[1] == '.');
        assert(!fraction_word(w));
        assert forall|m: int| 2 < m && i + m <= cs@.len() implies !#[trigger] word_matches(cs@.subrange(i as int, i + m)) by {
            let v = cs@.subrange(i as int, i + m);
            assert(v[0] == cs@[i as int]);
            assert(v[1] == cs@[i + 1]);
            if fraction_word(v) {
                let q2 = choose|q2: int| fraction_split(v, q2);
            }
        }
        (2, TokenKind::DotDot)
    } else {
        let ghost w = cs@.subrange(i as int, i + 1);
        assert(w[0] == '.');
        assert(!fraction_word(w));
        assert forall|m: int| 1 < m && i + m <= cs@.len() implies !#[trigger] word_matches(cs@.subrange(i as int, i + m)) by {
            let v = cs@.subrange(i as int, i + m);
            assert(v[0] == cs@[i as int]);
            assert(v[1] == cs@[i + 1]);
            if fraction_word(v) {
                let q2 = choose|q2: int| fraction_split(v, q2);
            }
        }
        (1, TokenKind::Dot)
    }
}

/// A body followed by a plain character is a body.
proof fn lemma_body_push_plain(s: Seq<char>, c: char)
    requires
        string_body(s),
        c != '"' && c != '\n' && c != '\\',
    ensures
        string_body(s.push(c)),
    decreases s.len(),
{
    let t = s.push(c);
    if s.len() == 0 {
        assert(t.subrange(1, t.len() as int) =~= Seq::<char>::empty());
        reveal_with_fuel(string_body, 2);
    } else if s[0] == '\\' {
        assert(t[0] == s[0] && t[1] == s[1]);
        lemma_body_push_plain(s.subrange(2, s.len() as int), c);
        assert(t.subrange(2, t.len() as int) =~= s.subrange(2, s.len() as int).push(c));
    } else {
        assert(t[0] == s[0]);
        lemma_body_push_plain(s.subrange(1, s.len() as int), c);
        assert(t.subrange(1, t.len() as int) =~= s.subrange(1, s.len() as int).push(c));
    }
}

/// A body followed by an escape is a body.
proof fn lemma_body_push_escape(s: Seq<char>, c: char)
    requires
        string_body(s),
        c != '\n',
    ensures
        string_body(s.push('\\').push(c)),
    decreases s.len(),
{
    let t = s.push('\\').push(c);
    if s.len() == 0 {
        assert(t.subrange(2, t.len() as int) =~= Seq::<char>::empty());
        reveal_with_fuel(string_body, 2);
    } else if s[0] == '\\' {
        assert(t[0] == s[0] && t[1] == s[1]);
        lemma_body_push_escape(s.subrange(2, s.len() as int), c);
        assert(t.subrange(2, t.len() as int) =~= s.subrange(2, s.len() as int).push('\\').push(c));
    } else {
        assert(t[0] == s[0]);
        lemma_body_push_escape(s.subrange(1, s.len() as int), c);
        assert(t.subrange(1, t.len() as int) =~= s.subrange(1, s.len() as int).push('\\').push(c));
    }
}

/// The end of the string literal at `i`, where a `"` stands, if it is
/// closed on its line.
fn scan_string(cs: &Vec<char>, i: usize) -> (r: Option<usize>)
    requires
        i < cs@.len(),
        cs@[i as int] == '"',
    ensures
        match r {
            Some(e) => i < e <= cs@.len() && longest_at(cs@, i as int, e - i),
            None => no_match_at(cs@, i as int),
        },
{
    let n = cs.len();
    let mut j: usize = i + 1;
    assert(cs@.subrange(i + 1, i + 1) =~= Seq::<char>::empty());
    assert forall|m: int| 1 < m && i + m <= n && #[trigger] string_word(cs@.subrange(i as int, i + m))
        implies string_body(cs@.subrange(i + 1, i + m - 1)) by {
        let v = cs@.subrange(i as int, i + m);
        assert(v.subrange(1, v.len() - 1) =~= cs@.subrange(i + 1, i + m - 1));
    }
    while j < n
        invariant
            n == cs@.len(),
            i < j <= n,
            cs@[i as int] == '"',
            string_body(cs@.subrange(i + 1, j as int)),
            forall|m: int| 1 <= m <= j - i ==> !#[trigger] string_word(cs@.subrange(i as int, i + m)),
            forall|m: int| j - i < m && i + m <= n && #[trigger] string_word(cs@.subrange(i as int, i + m))
                ==> string_body(cs@.subrange(j as int, i + m - 1)),
        decreases n - j,
    {
        let c = cs[j];
        if c == '"' {
            let ghost w = cs@.subrange(i as int, j + 1);
            assert(w.subrange(1, w.len() - 1) =~= cs@.subrange(i + 1, j as int));
            assert(string_word(w));
            assert forall|m: int| (j + 1 - i) < m && i + m <= n implies !#[trigger] word_matches(cs@.subrange(i as int, i + m)) by {
                let v = cs@.subrange(i as int, i + m);
                assert(v[0] == cs@[i as int]);
                if string_word(v) {
                    let b = cs@.subrange(j as int, i + m - 1);
                    assert(b[0] == cs@[j as int]);
                }
            }
            assert(w[0] == cs@[i as int]);
            return Some(j + 1);
        } else if c == '\n' {
            assert forall|m: int| 1 <= m && i + m <= n implies !#[trigger] word_matches(cs@.subrange(i as int, i + m)) by {
                let v = cs@.subrange(i as int, i + m);
                assert(v[0] == cs@[i as int]);
                if m > j - i && string_word(v) {
                    if i + m - 1 == j {
                        assert(v[m - 1] == cs@[j as int]);
                    } else {
                        let b = cs@.subrange(j as int, i + m - 1);
                        assert(b[0] == cs@[j as int]);
                    }
                }
            }
            return None;
        } else if c == '\\' {
            if j + 1 < n && cs[j + 1] != '\n' {
                let d = cs[j + 1];
                proof {
                    lemma_body_push_escape(cs@.subrange(i + 1, j as int), d);
                    assert(cs@.subrange(i + 1, j as int).push('\\').push(d) =~= cs@.subrange(i + 1, j + 2));
                    assert forall|m: int| j - i < m && i + m <= n && #[trigger] string_word(cs@.subrange(i as int, i + m))
                        implies string_body(cs@.subrange(j + 2, i + m - 1)) && m > j + 2 - i by {
                        let v = cs@.subrange(i as int, i + m);
                        let b = cs@.subrange(j as int, i + m - 1);
                        assert(b[0] == cs@[j as int]);
                        if i + m - 1 == j {
                            assert(v[m - 1] == cs@[j as int]);
                        } else if i + m - 1 == j + 1 {
                        } else {
                            assert(b.subrange(2, b.len() as int) =~= cs@.subrange(j + 2, i + m - 1));
                        }
                    }
                }
                j = j + 2;
            } else {
                assert forall|m: int| 1 <= m && i + m <= n implies !#[trigger] word_matches(cs@.subrange(i as int, i + m)) by {
                    let v = cs@.subrange(i as int, i + m);
                    assert(v[0] == cs@[i as int]);
                    if m > j - i && string_word(v) {
                        let b = cs@.subrange(j as int, i + m - 1);
                        if i + m - 1 == j {
                            assert(v[m - 1] == cs@[j as int]);
                        } else {
                            assert(b[0] == cs@[j as int]);
                            assert(b[1] == cs@[j + 1]);
                        }
                    }
                }
                return None;
            }
        } else {
            proof {
                lemma_body_push_plain(cs@.subrange(i + 1, j as int), c);
                assert(cs@.subrange(i + 1, j as int).push(c) =~= cs@.subrange(i + 1, j + 1));
                assert forall|m: int| j - i < m && i + m <= n && #[trigger] string_word(cs@.subrange(i as int, i + m))
                    implies string_body(cs@.subrange(j + 1, i + m - 1)) && m > j + 1 - i by {
                    let v = cs@.subrange(i as int, i + m);
                    let b = cs@.subrange(j as int, i + m - 1);
                    if i + m - 1 == j {
                        assert(v[m - 1] == cs@[j as int]);
                    } else {
                        assert(b[0] == cs@[j as int]);
                        assert(b.subrange(1, b.len() as int) =~= cs@.subrange(j + 1, i + m - 1));
                    }
                }
            }
            j = j + 1;
        }
    }
    assert forall|m: int| 1 <= m && i + m <= n implies !#[trigger] word_matches(cs@.subrange(i as int, i + m)) by {
        let v = cs@.subrange(i as int, i + m);
        assert(v[0] == cs@[i as int]);
    }
    None
}

fn punct1_of(c: char) -> (r: Option<TokenKind>)
    ensures
        r == punct1(c),
{
    if c == '!' {
        return Some(TokenKind::Not);
    }
    if c == '+' {
        return Some(TokenKind::Plus);
    }
    if c == '-' {
        return Some(TokenKind::Minus);
    }
    if c == '*' {
        return Some(TokenKind::Star);
    }
    if c == '/' {
        return Some(TokenKind::Slash);
    }
    if c == '%' {
        return Some(TokenKind::Percent);
    }
    if c == '<' {
        return Some(TokenKind::Lt);
    }
    if c == '>' {
        return Some(TokenKind::Gt);
    }
    if c == '&' {
        return Some(TokenKind::Amp);
    }
    if c == '|' {
        return Some(TokenKind::Pipe);
    }
    if c == '^' {
        return Some(TokenKind::Caret);
    }
    if c == '=' {
        return Some(TokenKind::Assign);
    }
    if c == '@' {
        return Some(TokenKind::At);
    }
    if c == ':' {
        return Some(TokenKind::Colon);
    }
    if c == ';' {
        return Some(TokenKind::Semicolon);
    }
    if c == ',' {
        return Some(TokenKind::Comma);
    }
    if c == '.' {
        return Some(TokenKind::Dot);
    }
    if c == '(' {
        return Some(TokenKind::LParen);
    }
    if c == ')' {
        return Some(TokenKind::RParen);
    }
    if c == '[' {
        return Some(TokenKind::LBracket);
    }
    if c == ']' {
        return Some(TokenKind::RBracket);
    }
    if c == '{' {
        return Some(TokenKind::LBrace);
    }
    if c == '}' {
        return Some(TokenKind::RBrace);
    }
    if c == '\n' {
        return Some(TokenKind::Newline);
    }
    None
}

fn punct2_of(a: char, b: char) -> (r: Option<TokenKind>)
    ensures
        r == punct2(a, b),
{
    if a == '=' && b == '=' {
        return Some(TokenKind::Eq);
    }
    if a == '!' && b == '=' {
        return Some(TokenKind::Ne);
    }
    if a == '<' && b == '=' {
        return Some(TokenKind::Le);
    }
    if a == '>' && b == '=' {
        return Some(TokenKind::Ge);
    }
    if a == '&' && b == '&' {
        return Some(TokenKind::AndAnd);
    }
    if a == '|' && b == '|' {
        return Some(TokenKind::OrOr);
    }
    if a == '<' && b == '<' {
        return Some(TokenKind::Shl);
    }
    if a == '>' && b == '>' {
        return Some(TokenKind::Shr);
    }
    if a == '-' && b == '>' {
        return Some(TokenKind::Arrow);
    }
    if a == '=' && b == '>' {
        return Some(TokenKind::FatArrow);
    }
    if a == '.' && b == '.' {
        return Some(TokenKind::DotDot);
    }
    None
}

/// The length of the character literal at `i`, where a `'` stands, if one
/// is there.
fn scan_char_literal(cs: &Vec<char>, i: usize) -> (r: Option<usize>)
    requires
        i < cs@.len(),
        cs@[i as int] == '\'',
    ensures
        match r {
            Some(l) => longest_at(cs@, i as int, l as int),
            None => no_match_at(cs@, i as int),
        },
{
    let n = cs.len();
    let r = if n - i > 2 && cs[i + 1] != '\'' && cs[i + 1] != '\\' && cs[i + 1] != '\n' && cs[i + 2] == '\'' {
        Some(3)
    } else if n - i > 3 && cs[i + 1] == '\\' && cs[i + 2] != '\n' && cs[i + 3] == '\'' {
        Some(4)
    } else {
        None
    };
    assert forall|m: int| 1 <= m && i + m <= n implies (#[trigger] word_matches(cs@.subrange(i as int, i + m))
        <==> r == Some(m as usize)) by {
        let v = cs@.subrange(i as int, i + m);
        assert(v[0] == cs@[i as int]);
        if m >= 2 {
            assert(v[1] == cs@[i + 1]);
        }
        if m >= 3 {
            assert(v[2] == cs@[i + 2]);
        }
        if m >= 4 {
            assert(v[3] == cs@[i + 3]);
        }
    }
    r
}

/// The longest comment or `/` at `i`, where a `/` stands.
fn scan_slash(cs: &Vec<char>, i: usize) -> (r: (usize, TokenKind))
    requires
        i < cs@.len(),
        cs@[i as int] == '/',
    ensures
        longest_at(cs@, i as int, r.0 as int),
        word_has_kind(cs@.subrange(i as int, i + r.0), r.1),
{
    let n = cs.len();
    if i + 1 < n && cs[i + 1] == '/' {
        let mut e: usize = i + 2;
        while e < n && cs[e] != '\n'
            invariant
                n == cs@.len(),
                i + 2 <= e <= n,
                forall|k: int| i + 2 <= k < e ==> #[trigger] cs@[k] != '\n',
            decreases n - e,
        {
            e = e + 1;
        }
        let ghost w = cs@.subrange(i as int, e as int);
        assert(comment_word(w)) by {
            assert(w[0] == cs@[i as int] && w[1] == cs@[i + 1]);
            assert forall|k: int| 2 <= k < w.len() implies #[trigger] w[k] != '\n' by {
                assert(w[k] == cs@[i + k]);
            }
        }
        assert forall|m: int| (e - i) < m && i + m <= n implies !#[trigger] word_matches(cs@.subrange(i as int, i + m)) by {
            let v = cs@.subrange(i as int, i + m);
            assert(v[0] == cs@[i as int]);
            assert(v[e - i] == cs@[e as int]);
        }
        assert(w[0] == cs@[i as int]);
        (e - i, TokenKind::Comment)
    } else {
        let ghost w = cs@.subrange(i as int, i + 1);
        assert(w[0] == cs@[i as int]);
        assert forall|m: int| 1 < m && i + m <= n implies !#[trigger] word_matches(cs@.subrange(i as int, i + m)) by {
            let v = cs@.subrange(i as int, i + m);
            assert(v[0] == cs@[i as int]);
            assert(v[1] == cs@[i + 1]);
        }
        (1, TokenKind::Slash)
    }
}

/// The longest operator, punctuation, newline or `[*]` at `i`, if one is
/// there.
fn scan_punct(cs: &Vec<char>, i: usize) -> (r: Option<(usize, TokenKind)>)
    requires
        i < cs@.len(),
        !is_ident_start(cs@[i as int]),
        !is_digit(cs@[i as int]),
        cs@[i as int] != '"' && cs@[i as int] != '\'' && cs@[i as int] != '.' && cs@[i as int] != '/',
    ensures
        match r {
            Some((l, k)) => longest_at(cs@, i as int, l as int) && word_has_kind(cs@.subrange(i as int, i + l), k),
            None => no_match_at(cs@, i as int),
        },
{
    let n = cs.len();
    let c = cs[i];
    let r = if c == '[' && n - i > 2 && cs[i + 1] == '*' && cs[i + 2] == ']' {
        Some((3, TokenKind::QtyStar))
    } else {
        let two = if i + 1 < n { punct2_of(c, cs[i + 1]) } else { None };
        match two {
            Some(k) => Some((2, k)),
            None => match punct1_of(c) {
                Some(k) => Some((1, k)),
                None => None,
            },
        }
    };
    proof {
        assert forall|m: int| 1 <= m && i + m <= n && #[trigger] word_matches(cs@.subrange(i as int, i + m))
            implies (r matches Some((l, k)) && m <= l) by {
            let v = cs@.subrange(i as int, i + m);
            assert(v[0] == cs@[i as int]);
            if m >= 2 {
                assert(v[1] == cs@[i + 1]);
            }
            if m >= 3 {
                assert(v[2] == cs@[i + 2]);
            }
        }
        if r is Some {
            let l = (r->0).0;
            let k = (r->0).1;
            let w = cs@.subrange(i as int, i + l);
            assert(w[0] == cs@[i as int]);
            if l >= 2 {
                assert(w[1] == cs@[i + 1]);
            }
            if l >= 3 {
                assert(w[2] == cs@[i + 2]);
            }
            assert(punct_kind(w) == Some(k));
        }
    }
    r
}

/// The longest token at `i`, where no blank stands, with its kind; `None`
/// where no rule matches any word at `i`.
pub fn scan_at(cs: &Vec<char>, i: usize) -> (r: Option<(usize, TokenKind)>)
    requires
        i < cs@.len(),
        !is_blank(cs@[i as int]),
    ensures
        match r {
            Some((l, k)) => longest_at(cs@, i as int, l as int) && word_has_kind(cs@.subrange(i as int, i + l), k),
            None => no_match_at(cs@, i as int),
        },
{
    let n = cs.len();
    let c = cs[i];
    if ident_start_char(c) {
        Some(scan_word(cs, i))
    } else if digit_char(c) {
        Some(scan_number(cs, i))
    } else if c == '"' {
        match scan_string(cs, i) {
            Some(e) => {
                let text = text_of(cs, i, e);
                proof {
                    let w = cs@.subrange(i as int, e as int);
                    assert(w[0] == cs@[i as int]);
                }
                let value = parse_string(text.as_str());
                Some((e - i, TokenKind::Str(value)))
            },
            None => None,
        }
    } else if c == '\'' {
        match scan_char_literal(cs, i) {
            Some(l) => {
                let text = text_of(cs, i, i + l);
                proof {
                    let w = cs@.subrange(i as int, i + l);
                    assert(w[0] == cs@[i as int]);
                }
                let value = parse_char(text.as_str());
                Some((l, TokenKind::Char(value)))
            },
            None => None,
        }
    } else if c == '.' {
        Some(scan_dot(cs, i))
    } else if c == '/' {
        Some(scan_slash(cs, i))
    } else {
        scan_punct(cs, i)
    }
}

/// The extents, in characters, of the tokens of `cs` from `i` on: blanks
/// are passed over, each token is the longest match at its start, and
/// lexing ends after the first character at which no rule matches.
pub open spec fn lex_extents(cs: Seq<char>, i: int) -> Seq<(int, int)>
    decreases cs.len() - i,
{
    if i < 0 || i >= cs.len() {
        Seq::empty()
    } else if is_blank(cs[i]) {
        lex_extents(cs, i + 1)
    } else if matched_at(cs, i) {
        let l = choose|l: int| longest_at(cs, i, l);
        seq![(i, i + l)] + lex_extents(cs, i + l)
    } else {
        seq![(i, i + 1)]
    }
}

/// The byte offset of the character at `i`: the UTF-8 length of what
/// stands before it.
pub open spec fn byte_offset(cs: Seq<char>, i: int) -> int {
    vstd::utf8::encode_utf8(cs.subrange(0, i)).len() as int
}

/// The longest match at a position is unique.
proof fn lemma_longest_unique(cs: Seq<char>, i: int, a: int, b: int)
    requires
        longest_at(cs, i, a),
        longest_at(cs, i, b),
    ensures
        a == b,
{
    if a < b {
        assert(word_matches(cs.subrange(i, i + b)));
    } else if b < a {
        assert(word_matches(cs.subrange(i, i + a)));
    }
}

/// The extents from a blank on are those from the next character on.
pub proof fn lemma_extents_blank(cs: Seq<char>, i: int)
    requires
        0 <= i < cs.len(),
        is_blank(cs[i]),
    ensures
        lex_extents(cs, i) == lex_extents(cs, i + 1),
{
}

/// The extents from a matched position begin with its longest match.
pub proof fn lemma_extents_match(cs: Seq<char>, i: int, l: int)
    requires
        0 <= i < cs.len(),
        !is_blank(cs[i]),
        longest_at(cs, i, l),
    ensures
        lex_extents(cs, i) == seq![(i, i + l)] + lex_extents(cs, i + l),
        matched_at(cs, i),
{
    assert(matched_at(cs, i));
    let c = choose|c: int| longest_at(cs, i, c);
    lemma_longest_unique(cs, i, c, l);
}

/// The extents from an unmatched position are that one character.
pub proof fn lemma_extents_fail(cs: Seq<char>, i: int)
    requires
        0 <= i < cs.len(),
        !is_blank(cs[i]),
        no_match_at(cs, i),
    ensures
        lex_extents(cs, i) == seq![(i, i + 1)],
        !matched_at(cs, i),
{
    if matched_at(cs, i) {
        let c = choose|c: int| longest_at(cs, i, c);
        assert(word_matches(cs.subrange(i, i + c)));
    }
}

/// Encoding a text with one more character appends that character's
/// encoding.
proof fn lemma_encode_push(s: Seq<char>, c: char)
    ensures
        vstd::utf8::encode_utf8(s.push(c)) == vstd::utf8::encode_utf8(s) + vstd::utf8::encode_scalar(c as u32),
    decreases s.len(),
{
    let t = s.push(c);
    if s.len() == 0 {
        assert(t.drop_first() =~= Seq::<char>::empty());
        assert(vstd::utf8::encode_utf8(t.drop_first()) =~= Seq::<u8>::empty());
        assert(vstd::utf8::encode_utf8(s) =~= Seq::<u8>::empty());
        assert(vstd::utf8::encode_utf8(t) =~= vstd::utf8::encode_scalar(c as u32));
    } else {
        lemma_encode_push(s.drop_first(), c);
        assert(t.drop_first() =~= s.drop_first().push(c));
        assert(t[0] == s[0]);
        assert(vstd::utf8::encode_utf8(t) =~= vstd::utf8::encode_utf8(s) + vstd::utf8::encode_scalar(c as u32));
    }
}

/// The encoding of a text is at least as long as that of its prefix.
proof fn lemma_encode_prefix(s: Seq<char>, k: int)
    requires
        0 <= k <= s.len(),
    ensures
        vstd::utf8::encode_utf8(s.subrange(0, k)).len() <= vstd::utf8::encode_utf8(s).len(),
    decreases s.len() - k,
{
    if k < s.len() {
        lemma_encode_prefix(s, k + 1);
        lemma_encode_push(s.subrange(0, k), s[k]);
        assert(s.subrange(0, k).push(s[k]) =~= s.subrange(0, k + 1));
    } else {
        assert(s.subrange(0, k) =~= s);
    }
}

/// The number of bytes that encode the character.
fn utf8_width(c: char) -> (w: usize)
    ensures
        w == vstd::utf8::encode_scalar(c as u32).len(),
        1 <= w <= 4,
{
    proof {
        vstd::utf8::char_is_scalar(c);
    }
    let v = c as u32;
    if v < 0x80 {
        1
    } else if v < 0x800 {
        2
    } else if v < 0x10000 {
        3
    } else {
        4
    }
}

/// The byte offset of the character after `i`.
pub fn next_offset(cs: &Vec<char>, i: usize, byte: usize) -> (r: usize)
    requires
        i < cs@.len(),
        byte == byte_offset(cs@, i as int),
        vstd::utf8::encode_utf8(cs@).len() <= usize::MAX,
    ensures
        r == byte_offset(cs@, i + 1),
{
    let w = utf8_width(cs[i]);
    proof {
        lemma_encode_push(cs@.subrange(0, i as int), cs@[i as int]);
        assert(cs@.subrange(0, i as int).push(cs@[i as int]) =~= cs@.subrange(0, i + 1));
        lemma_encode_prefix(cs@, i + 1);
    }
    byte + w
}

/// The keyword kinds: the token kinds of the reserved words.
pub open spec fn is_keyword(k: TokenKind) -> bool {
    k is Fn ||
    k is Let ||
    k is InOut ||
    k is Consume ||
    k is Reversible ||
    k is Return ||
    k is If ||
    k is Else ||
    k is Match ||
    k is For ||
    k is While ||
    k is Struct ||
    k is Enum ||
    k is Type ||
    k is Mod ||
    k is Import ||
    k is Const ||
    k is Qubit ||
    k is QRegister ||
    k is Measure ||
    k is Gate ||
    k is Entangle ||
    k is Hadamard ||
    k is CNot ||
    k is QAlloc ||
    k is Nat ||
    k is FloatKw
}

/// The word a keyword is spelled with: its diagnostic name without the
/// quotes around it.
pub open spec fn keyword_word(k: TokenKind) -> Seq<char> {
    display_name_text(k).subrange(1, display_name_text(k).len() - 1)
}

/// A lowercase word that names a keyword names the one whose diagnostic
/// name is that word in quotes (`while` is `'while'`); one that names a
/// boolean literal is that literal's text.
pub proof fn lemma_keyword_text(l: Seq<char>)
    ensures
        keyword_kind(l) matches Some(k) ==> (k is Bool && token_text(k) == l) || (is_keyword(k)
            && display_name_text(k) == seq!['\''] + l + seq!['\'']),
{
    reveal_strlit("fn");
    reveal_strlit("'fn'");
    reveal_strlit("let");
    reveal_strlit("'let'");
    reveal_strlit("inout");
    reveal_strlit("'inout'");
    reveal_strlit("consume");
    reveal_strlit("'consume'");
    reveal_strlit("reversible");
    reveal_strlit("'reversible'");
    reveal_strlit("return");
    reveal_strlit("'return'");
    reveal_strlit("if");
    reveal_strlit("'if'");
    reveal_strlit("else");
    reveal_strlit("'else'");
    reveal_strlit("match");
    reveal_strlit("'match'");
    reveal_strlit("for");
    reveal_strlit("'for'");
    reveal_strlit("while");
    reveal_strlit("'while'");
    reveal_strlit("struct");
    reveal_strlit("'struct'");
    reveal_strlit("enum");
    reveal_strlit("'enum'");
    reveal_strlit("type");
    reveal_strlit("'type'");
    reveal_strlit("mod");
    reveal_strlit("'mod'");
    reveal_strlit("import");
    reveal_strlit("'import'");
    reveal_strlit("const");
    reveal_strlit("'const'");
    reveal_strlit("qubit");
    reveal_strlit("'qubit'");
    reveal_strlit("qregister");
    reveal_strlit("'qregister'");
    reveal_strlit("measure");
    reveal_strlit("'measure'");
    reveal_strlit("gate");
    reveal_strlit("'gate'");
    reveal_strlit("entangle");
    reveal_strlit("'entangle'");
    reveal_strlit("hadamard");
    reveal_strlit("'hadamard'");
    reveal_strlit("cnot");
    reveal_strlit("'cnot'");
    reveal_strlit("qalloc");
    reveal_strlit("'qalloc'");
    reveal_strlit("nat");
    reveal_strlit("'nat'");
    reveal_strlit("float");
    reveal_strlit("'float'");
    reveal_strlit("true");
    reveal_strlit("false");
    if l == "fn"@ {
        assert(display_name_text(TokenKind::Fn) =~= seq!['\''] + l + seq!['\'']);
    } else if l == "let"@ {
        assert(display_name_text(TokenKind::Let) =~= seq!['\''] + l + seq!['\'']);
    } else if l == "inout"@ {
        assert(display_name_text(TokenKind::InOut) =~= seq!['\''] + l + seq!['\'']);
    } else if l == "consume"@ {
        assert(display_name_text(TokenKind::Consume) =~= seq!['\''] + l + seq!['\'']);
    } else if l == "reversible"@ {
        assert(display_name_text(TokenKind::Reversible) =~= seq!['\''] + l + seq!['\'']);
    } else if l == "return"@ {
        assert(display_name_text(TokenKind::Return) =~= seq!['\''] + l + seq!['\'']);
    } else if l == "if"@ {
        assert(display_name_text(TokenKind::If) =~= seq!['\''] + l + seq!['\'']);
    } else if l == "else"@ {
        assert(display_name_text(TokenKind::Else) =~= seq!['\''] + l + seq!['\'']);
    } else if l == "match"@ {
        assert(display_name_text(TokenKind::Match) =~= seq!['\''] + l + seq!['\'']);
    } else if l == "for"@ {
        assert(display_name_text(TokenKind::For) =~= seq!['\''] + l + seq!['\'']);
    } else if l == "while"@ {
        assert(display_name_text(TokenKind::While) =~= seq!['\''] + l + seq!['\'']);
    } else if l == "struct"@ {
        assert(display_name_text(TokenKind::Struct) =~= seq!['\''] + l + seq!['\'']);
    } else if l == "enum"@ {
        assert(display_name_text(TokenKind::Enum) =~= seq!['\''] + l + seq!['\'']);
    } else if l == "type"@ {
        assert(display_name_text(TokenKind::Type) =~= seq!['\''] + l + seq!['\'']);
    } else if l == "mod"@ {
        assert(display_name_text(TokenKind::Mod) =~= seq!['\''] + l + seq!['\'']);
    } else if l == "import"@ {
        assert(display_name_text(TokenKind::Import) =~= seq!['\''] + l + seq!['\'']);
    } else if l == "const"@ {
        assert(display_name_text(TokenKind::Const) =~= seq!['\''] + l + seq!['\'']);
    } else if l == "qubit"@ {
        assert(display_name_text(TokenKind::Qubit) =~= seq!['\''] + l + seq!['\'']);
    } else if l == "qregister"@ {
        assert(display_name_text(TokenKind::QRegister) =~= seq!['\''] + l + seq!['\'']);
    } else if l == "measure"@ {
        assert(display_name_text(TokenKind::Measure) =~= seq!['\''] + l + seq!['\'']);
    } else if l == "gate"@ {
        assert(display_name_text(TokenKind::Gate) =~= seq!['\''] + l + seq!['\'']);
    } else if l == "entangle"@ {
        assert(display_name_text(TokenKind::Entangle) =~= seq!['\''] + l + seq!['\'']);
    } else if l == "hadamard"@ {
        assert(display_name_text(TokenKind::Hadamard) =~= seq!['\''] + l + seq!['\'']);
    } else if l == "cnot"@ {
        assert(display_name_text(TokenKind::CNot) =~= seq!['\''] + l + seq!['\'']);
    } else if l == "qalloc"@ {
        assert(display_name_text(TokenKind::QAlloc) =~= seq!['\''] + l + seq!['\'']);
    } else if l == "nat"@ {
        assert(display_name_text(TokenKind::Nat) =~= seq!['\''] + l + seq!['\'']);
    } else if l == "float"@ {
        assert(display_name_text(TokenKind::FloatKw) =~= seq!['\''] + l + seq!['\'']);
    } else if l == "true"@ {
        assert(token_text(TokenKind::Bool(true)) =~= l);
    } else if l == "false"@ {
        assert(token_text(TokenKind::Bool(false)) =~= l);
    }
}

/// Each keyword is what its own word names: its diagnostic name is its word
/// in quotes, and that word, in lowercase, is the keyword.
pub proof fn lemma_keyword_word(k: TokenKind)
    requires
        is_keyword(k),
    ensures
        display_name_text(k) == seq!['\''] + keyword_word(k) + seq!['\''],
        keyword_kind(keyword_word(k)) == Some(k),
{
    reveal_strlit("fn");
    reveal_strlit("'fn'");
    reveal_strlit("let");
    reveal_strlit("'let'");
    reveal_strlit("inout");
    reveal_strlit("'inout'");
    reveal_strlit("consume");
    reveal_strlit("'consume'");
    reveal_strlit("reversible");
    reveal_strlit("'reversible'");
    reveal_strlit("return");
    reveal_strlit("'return'");
    reveal_strlit("if");
    reveal_strlit("'if'");
    reveal_strlit("else");
    reveal_strlit("'else'");
    reveal_strlit("match");
    reveal_strlit("'match'");
    reveal_strlit("for");
    reveal_strlit("'for'");
    reveal_strlit("while");
    reveal_strlit("'while'");
    reveal_strlit("struct");
    reveal_strlit("'struct'");
    reveal_strlit("enum");
    reveal_strlit("'enum'");
    reveal_strlit("type");
    reveal_strlit("'type'");
    reveal_strlit("mod");
    reveal_strlit("'mod'");
    reveal_strlit("import");
    reveal_strlit("'import'");
    reveal_strlit("const");
    reveal_strlit("'const'");
    reveal_strlit("qubit");
    reveal_strlit("'qubit'");
    reveal_strlit("qregister");
    reveal_strlit("'qregister'");
    reveal_strlit("measure");
    reveal_strlit("'measure'");
    reveal_strlit("gate");
    reveal_strlit("'gate'");
    reveal_strlit("entangle");
    reveal_strlit("'entangle'");
    reveal_strlit("hadamard");
    reveal_strlit("'hadamard'");
    reveal_strlit("cnot");
    reveal_strlit("'cnot'");
    reveal_strlit("qalloc");
    reveal_strlit("'qalloc'");
    reveal_strlit("nat");
    reveal_strlit("'nat'");
    reveal_strlit("float");
    reveal_strlit("'float'");
    reveal_strlit("true");
    reveal_strlit("false");
    match k {
        TokenKind::Fn => {
            assert(keyword_word(k) =~= "fn"@);
            assert(keyword_kind("fn"@) == Some(k));
        },
        TokenKind::Let => {
            assert(keyword_word(k) =~= "let"@);
            assert(keyword_kind("let"@) == Some(k));
        },
        TokenKind::InOut => {
            assert(keyword_word(k) =~= "inout"@);
            assert(keyword_kind("inout"@) == Some(k));
        },
        TokenKind::Consume => {
            assert(keyword_word(k) =~= "consume"@);
            assert(keyword_kind("consume"@) == Some(k));
        },
        TokenKind::Reversible => {
            assert(keyword_word(k) =~= "reversible"@);
            assert(keyword_kind("reversible"@) == Some(k));
        },
        TokenKind::Return => {
            assert(keyword_word(k) =~= "return"@);
            assert(keyword_kind("return"@) == Some(k));
        },
        TokenKind::If => {
            assert(keyword_word(k) =~= "if"@);
            assert("if"@[0] != "fn"@[0]);
            assert(keyword_kind("if"@) == Some(k));
        },
        TokenKind::Else => {
            assert(keyword_word(k) =~= "else"@);
            assert(keyword_kind("else"@) == Some(k));
        },
        TokenKind::Match => {
            assert(keyword_word(k) =~= "match"@);
            assert("match"@[0] != "inout"@[0]);
            assert(keyword_kind("match"@) == Some(k));
        },
        TokenKind::For => {
            assert(keyword_word(k) =~= "for"@);
            assert("for"@[0] != "let"@[0]);
            assert(keyword_kind("for"@) == Some(k));
        },
        TokenKind::While => {
            assert(keyword_word(k) =~= "while"@);
            assert("while"@[0] != "inout"@[0]);
            assert("while"@[0] != "match"@[0]);
            assert(keyword_kind("while"@) == Some(k));
        },
        TokenKind::Struct => {
            assert(keyword_word(k) =~= "struct"@);
            assert("struct"@[0] != "return"@[0]);
            assert(keyword_kind("struct"@) == Some(k));
        },
        TokenKind::Enum => {
            assert(keyword_word(k) =~= "enum"@);
            assert("enum"@[1] != "else"@[1]);
            assert(keyword_kind("enum"@) == Some(k));
        },
        TokenKind::Type => {
            assert(keyword_word(k) =~= "type"@);
            assert("type"@[0] != "else"@[0]);
            assert("type"@[0] != "enum"@[0]);
            assert(keyword_kind("type"@) == Some(k));
        },
        TokenKind::Mod => {
            assert(keyword_word(k) =~= "mod"@);
            assert("mod"@[0] != "let"@[0]);
            assert("mod"@[0] != "for"@[0]);
            assert(keyword_kind("mod"@) == Some(k));
        },
        TokenKind::Import => {
            assert(keyword_word(k) =~= "import"@);
            assert("import"@[0] != "return"@[0]);
            assert("import"@[0] != "struct"@[0]);
            assert(keyword_kind("import"@) == Some(k));
        },
        TokenKind::Const => {
            assert(keyword_word(k) =~= "const"@);
            assert("const"@[0] != "inout"@[0]);
            assert("const"@[0] != "match"@[0]);
            assert("const"@[0] != "while"@[0]);
            assert(keyword_kind("const"@) == Some(k));
        },
        TokenKind::Qubit => {
            assert(keyword_word(k) =~= "qubit"@);
            assert("qubit"@[0] != "inout"@[0]);
            assert("qubit"@[0] != "match"@[0]);
            assert("qubit"@[0] != "while"@[0]);
            assert("qubit"@[0] != "const"@[0]);
            assert(keyword_kind("qubit"@) == Some(k));
        },
        TokenKind::QRegister => {
            assert(keyword_word(k) =~= "qregister"@);
            assert(keyword_kind("qregister"@) == Some(k));
        },
        TokenKind::Measure => {
            assert(keyword_word(k) =~= "measure"@);
            assert("measure"@[0] != "consume"@[0]);
            assert(keyword_kind("measure"@) == Some(k));
        },
        TokenKind::Gate => {
            assert(keyword_word(k) =~= "gate"@);
            assert("gate"@[0] != "else"@[0]);
            assert("gate"@[0] != "enum"@[0]);
            assert("gate"@[0] != "type"@[0]);
            assert(keyword_kind("gate"@) == Some(k));
        },
        TokenKind::Entangle => {
            assert(keyword_word(k) =~= "entangle"@);
            assert(keyword_kind("entangle"@) == Some(k));
        },
        TokenKind::Hadamard => {
            assert(keyword_word(k) =~= "hadamard"@);
            assert("hadamard"@[0] != "entangle"@[0]);
            assert(keyword_kind("hadamard"@) == Some(k));
        },
        TokenKind::CNot => {
            assert(keyword_word(k) =~= "cnot"@);
            assert("cnot"@[0] != "else"@[0]);
            assert("cnot"@[0] != "enum"@[0]);
            assert("cnot"@[0] != "type"@[0]);
            assert("cnot"@[0] != "gate"@[0]);
            assert(keyword_kind("cnot"@) == Some(k));
        },
        TokenKind::QAlloc => {
            assert(keyword_word(k) =~= "qalloc"@);
            assert("qalloc"@[0] != "return"@[0]);
            assert("qalloc"@[0] != "struct"@[0]);
            assert("qalloc"@[0] != "import"@[0]);
            assert(keyword_kind("qalloc"@) == Some(k));
        },
        TokenKind::Nat => {
            assert(keyword_word(k) =~= "nat"@);
            assert("nat"@[0] != "let"@[0]);
            assert("nat"@[0] != "for"@[0]);
            assert("nat"@[0] != "mod"@[0]);
            assert(keyword_kind("nat"@) == Some(k));
        },
        TokenKind::FloatKw => {
            assert(keyword_word(k) =~= "float"@);
            assert("float"@[0] != "inout"@[0]);
            assert("float"@[0] != "match"@[0]);
            assert("float"@[0] != "while"@[0]);
            assert("float"@[0] != "const"@[0]);
            assert("float"@[0] != "qubit"@[0]);
            assert(keyword_kind("float"@) == Some(k));
        },
        _ => {},
    }
    assert(display_name_text(k) =~= seq!['\''] + keyword_word(k) + seq!['\'']);
}

/// A keyword's word written in any ASCII case is a token of that keyword.
pub proof fn lemma_keyword_any_case(k: TokenKind, w: Seq<char>)
    requires
        is_keyword(k),
        ascii_lowered(w) == keyword_word(k),
    ensures
        word_has_kind(w, k),
{
    lemma_keyword_word(k);
    assert(keyword_word(k).len() > 0 && is_lower(keyword_word(k)[0])) by {
        reveal_strlit("fn");
        reveal_strlit("'fn'");
        reveal_strlit("let");
        reveal_strlit("'let'");
        reveal_strlit("inout");
        reveal_strlit("'inout'");
        reveal_strlit("consume");
        reveal_strlit("'consume'");
        reveal_strlit("reversible");
        reveal_strlit("'reversible'");
        reveal_strlit("return");
        reveal_strlit("'return'");
        reveal_strlit("if");
        reveal_strlit("'if'");
        reveal_strlit("else");
        reveal_strlit("'else'");
        reveal_strlit("match");
        reveal_strlit("'match'");
        reveal_strlit("for");
        reveal_strlit("'for'");
        reveal_strlit("while");
        reveal_strlit("'while'");
        reveal_strlit("struct");
        reveal_strlit("'struct'");
        reveal_strlit("enum");
        reveal_strlit("'enum'");
        reveal_strlit("type");
        reveal_strlit("'type'");
        reveal_strlit("mod");
        reveal_strlit("'mod'");
        reveal_strlit("import");
        reveal_strlit("'import'");
        reveal_strlit("const");
        reveal_strlit("'const'");
        reveal_strlit("qubit");
        reveal_strlit("'qubit'");
        reveal_strlit("qregister");
        reveal_strlit("'qregister'");
        reveal_strlit("measure");
        reveal_strlit("'measure'");
        reveal_strlit("gate");
        reveal_strlit("'gate'");
        reveal_strlit("entangle");
        reveal_strlit("'entangle'");
        reveal_strlit("hadamard");
        reveal_strlit("'hadamard'");
        reveal_strlit("cnot");
        reveal_strlit("'cnot'");
        reveal_strlit("qalloc");
        reveal_strlit("'qalloc'");
        reveal_strlit("nat");
        reveal_strlit("'nat'");
        reveal_strlit("float");
        reveal_strlit("'float'");
        reveal_strlit("true");
        reveal_strlit("false");
        match k {
            TokenKind::Fn => {
                assert(keyword_word(k) =~= "fn"@);
            },
            TokenKind::Let => {
                assert(keyword_word(k) =~= "let"@);
            },
            TokenKind::InOut => {
                assert(keyword_word(k) =~= "inout"@);
            },
            TokenKind::Consume => {
                assert(keyword_word(k) =~= "consume"@);
            },
            TokenKind::Reversible => {
                assert(keyword_word(k) =~= "reversible"@);
            },
            TokenKind::Return => {
                assert(keyword_word(k) =~= "return"@);
            },
            TokenKind::If => {
                assert(keyword_word(k) =~= "if"@);
            },
            TokenKind::Else => {
                assert(keyword_word(k) =~= "else"@);
            },
            TokenKind::Match => {
                assert(keyword_word(k) =~= "match"@);
            },
            TokenKind::For => {
                assert(keyword_word(k) =~= "for"@);
            },
            TokenKind::While => {
                assert(keyword_word(k) =~= "while"@);
            },
            TokenKind::Struct => {
                assert(keyword_word(k) =~= "struct"@);
            },
            TokenKind::Enum => {
                assert(keyword_word(k) =~= "enum"@);
            },
            TokenKind::Type => {
                assert(keyword_word(k) =~= "type"@);
            },
            TokenKind::Mod => {
                assert(keyword_word(k) =~= "mod"@);
            },
            TokenKind::Import => {
                assert(keyword_word(k) =~= "import"@);
            },
            TokenKind::Const => {
                assert(keyword_word(k) =~= "const"@);
            },
            TokenKind::Qubit => {
                assert(keyword_word(k) =~= "qubit"@);
            },
            TokenKind::QRegister => {
                assert(keyword_word(k) =~= "qregister"@);
            },
            TokenKind::Measure => {
                assert(keyword_word(k) =~= "measure"@);
            },
            TokenKind::Gate => {
                assert(keyword_word(k) =~= "gate"@);
            },
            TokenKind::Entangle => {
                assert(keyword_word(k) =~= "entangle"@);
            },
            TokenKind::Hadamard => {
                assert(keyword_word(k) =~= "hadamard"@);
            },
            TokenKind::CNot => {
                assert(keyword_word(k) =~= "cnot"@);
            },
            TokenKind::QAlloc => {
                assert(keyword_word(k) =~= "qalloc"@);
            },
            TokenKind::Nat => {
                assert(keyword_word(k) =~= "nat"@);
            },
            TokenKind::FloatKw => {
                assert(keyword_word(k) =~= "float"@);
            },
            _ => {},
        }
    }
    assert(ascii_lower(w[0]) == keyword_word(k)[0]);
    assert(is_ident_start(w[0]));
}

} // verus!
