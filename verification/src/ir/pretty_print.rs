//! Human-readable text of the PIR, for debugging and golden fixtures.

use vstd::prelude::*;
use crate::ast::{Mutability, Quantity};
use crate::ir::pir_types::{issues_view,
    BinaryOp, ExternFunction, ExternParam, PirExpr, PirModule, PirStatement, QuantityMap, UnaryOp,
    ValidationError, ValidationIssue,
};
use crate::ir::schedule_tree::{ScheduleNode, ScheduleTree};
use crate::ir::access_relation::{AccessRelation, AccessRelations, AccessType};
use crate::ir::affine_domain::{AffineDomain, DomainModel};
use crate::ir::affine_map::{AffineMap, Matrix, MatrixModel, PieceModel, lemma_index_in_range};
use crate::text::{concat, decimal, u64_to_decimal};

verus! {

/// The text that `{:?}` gives a string: quoted, with escapes.
pub uninterp spec fn debug_text(s: Seq<char>) -> Seq<char>;

/// Calls `<str as Debug>::fmt`: the string quoted, with its special
/// characters escaped; the result is named `debug_text` of the string and
/// nothing more is claimed of it.
#[verifier::external_body]
pub(crate) fn debug_string(s: &str) -> (r: String)
    ensures
        r@ == debug_text(s@),
{
    format!("{:?}", s)
}

/// Decimal text of a signed integer.
pub open spec fn int_text(v: i64) -> Seq<char> {
    if v < 0 {
        "-"@ + decimal((-v) as nat)
    } else {
        decimal(v as nat)
    }
}

/// The decimal text of a signed integer.
pub fn i64_to_decimal(v: i64) -> (r: String)
    ensures
        r@ == int_text(v),
{
    if v < 0 {
        let m: u64 = (0i128 - (v as i128)) as u64;
        let d = u64_to_decimal(m);
        concat("-", d.as_str())
    } else {
        u64_to_decimal(v as u64)
    }
}

/// Texts separated by `sep`.
pub open spec fn join_texts(ts: Seq<Seq<char>>, sep: Seq<char>) -> Seq<char>
    decreases ts.len(),
{
    if ts.len() == 0 {
        Seq::empty()
    } else if ts.len() == 1 {
        ts[0]
    } else {
        join_texts(ts.drop_last(), sep) + sep + ts.last()
    }
}

/// One step of a join: the join of one more text.
pub proof fn lemma_join_step(ts: Seq<Seq<char>>, sep: Seq<char>, k: int)
    requires
        0 <= k < ts.len(),
    ensures
        join_texts(ts.subrange(0, k + 1), sep) == if k == 0 {
            ts[0]
        } else {
            join_texts(ts.subrange(0, k), sep) + sep + ts[k]
        },
{
    let s = ts.subrange(0, k + 1);
    assert(s.drop_last() =~= ts.subrange(0, k));
    assert(s.last() == ts[k]);
    if k == 0 {
        assert(s.len() == 1);
        assert(s[0] == ts[0]);
    }
}

/// `[` texts separated by `, ` `]`: the `{:?}` of a list.
pub open spec fn list_text(ts: Seq<Seq<char>>) -> Seq<char> {
    "["@ + join_texts(ts, ", "@) + "]"@
}

/// The `{:?}` of a list of integers.
pub open spec fn ints_text(v: Seq<i64>) -> Seq<char> {
    list_text(v.map_values(|x: i64| int_text(x)))
}

/// The `{:?}` of a list of sizes.
pub open spec fn sizes_text(v: Seq<usize>) -> Seq<char> {
    list_text(v.map_values(|x: usize| decimal(x as nat)))
}

/// The `{:?}` of a list of strings.
pub open spec fn strings_debug_text(v: Seq<String>) -> Seq<char> {
    list_text(v.map_values(|x: String| debug_text(x@)))
}

/// The `{:?}` of an optional string.
pub open spec fn option_debug_text(n: Option<Seq<char>>) -> Seq<char> {
    match n {
        Some(s) => "Some("@ + debug_text(s) + ")"@,
        None => "None"@,
    }
}

/// The `{:?}` of a quantity.
pub open spec fn quantity_debug(q: Quantity) -> Seq<char> {
    match q {
        Quantity::Zero => "Zero"@,
        Quantity::One => "One"@,
        Quantity::Bounded(n) => "Bounded("@ + decimal(n as nat) + ")"@,
        Quantity::Many => "Many"@,
    }
}

/// The `{:?}` of a mode.
pub open spec fn mutability_debug(m: Mutability) -> Seq<char> {
    match m {
        Mutability::Immutable => "Immutable"@,
        Mutability::InOut => "InOut"@,
        Mutability::Consume => "Consume"@,
    }
}

/// The `{:?}` of a quantity.
pub fn quantity_debug_string(q: Quantity) -> (r: String)
    ensures
        r@ == quantity_debug(q),
{
    match q {
        Quantity::Zero => "Zero".to_string(),
        Quantity::One => "One".to_string(),
        Quantity::Bounded(n) => {
            let d = u64_to_decimal(n as u64);
            let a = concat("Bounded(", d.as_str());
            concat(a.as_str(), ")")
        },
        Quantity::Many => "Many".to_string(),
    }
}

/// The `{:?}` of a mode.
pub fn mutability_debug_string(m: Mutability) -> (r: String)
    ensures
        r@ == mutability_debug(m),
{
    match m {
        Mutability::Immutable => "Immutable".to_string(),
        Mutability::InOut => "InOut".to_string(),
        Mutability::Consume => "Consume".to_string(),
    }
}

/// The `{:?}` of a list of strings.
pub fn strings_debug(v: &Vec<String>) -> (r: String)
    ensures
        r@ == strings_debug_text(v@),
{
    let ghost ts = v@.map_values(|x: String| debug_text(x@));
    let mut out = String::new();
    let mut k: usize = 0;
    assert(out@ =~= join_texts(ts.subrange(0, 0), ", "@));
    while k < v.len()
        invariant
            k <= v@.len(),
            ts == v@.map_values(|x: String| debug_text(x@)),
            out@ == join_texts(ts.subrange(0, k as int), ", "@),
        decreases v@.len() - k,
    {
        proof {
            lemma_join_step(ts, ", "@, k as int);
        }
        let d = debug_string(v[k].as_str());
        if k == 0 {
            out = d;
        } else {
            let a = concat(out.as_str(), ", ");
            out = concat(a.as_str(), d.as_str());
        }
        k = k + 1;
    }
    assert(ts.subrange(0, ts.len() as int) =~= ts);
    let a = concat("[", out.as_str());
    concat(a.as_str(), "]")
}

/// The `{:?}` of a list of sizes.
pub fn sizes_debug(v: &Vec<usize>) -> (r: String)
    ensures
        r@ == sizes_text(v@),
{
    let ghost ts = v@.map_values(|x: usize| decimal(x as nat));
    let mut out = String::new();
    let mut k: usize = 0;
    assert(out@ =~= join_texts(ts.subrange(0, 0), ", "@));
    while k < v.len()
        invariant
            k <= v@.len(),
            ts == v@.map_values(|x: usize| decimal(x as nat)),
            out@ == join_texts(ts.subrange(0, k as int), ", "@),
        decreases v@.len() - k,
    {
        proof {
            lemma_join_step(ts, ", "@, k as int);
        }
        let d = u64_to_decimal(v[k] as u64);
        if k == 0 {
            out = d;
        } else {
            let a = concat(out.as_str(), ", ");
            out = concat(a.as_str(), d.as_str());
        }
        k = k + 1;
    }
    assert(ts.subrange(0, ts.len() as int) =~= ts);
    let a = concat("[", out.as_str());
    concat(a.as_str(), "]")
}

/// The `{:?}` of a list of integers.
pub fn ints_debug(v: &Vec<i64>) -> (r: String)
    ensures
        r@ == ints_text(v@),
{
    let ghost ts = v@.map_values(|x: i64| int_text(x));
    let mut out = String::new();
    let mut k: usize = 0;
    assert(out@ =~= join_texts(ts.subrange(0, 0), ", "@));
    while k < v.len()
        invariant
            k <= v@.len(),
            ts == v@.map_values(|x: i64| int_text(x)),
            out@ == join_texts(ts.subrange(0, k as int), ", "@),
        decreases v@.len() - k,
    {
        proof {
            lemma_join_step(ts, ", "@, k as int);
        }
        let d = i64_to_decimal(v[k]);
        if k == 0 {
            out = d;
        } else {
            let a = concat(out.as_str(), ", ");
            out = concat(a.as_str(), d.as_str());
        }
        k = k + 1;
    }
    assert(ts.subrange(0, ts.len() as int) =~= ts);
    let a = concat("[", out.as_str());
    concat(a.as_str(), "]")
}

/// The `{:?}` of an optional string.
pub fn option_debug(n: &Option<String>) -> (r: String)
    ensures
        r@ == option_debug_text(match n {
            Some(s) => Some(s@),
            None => None,
        }),
{
    match n {
        Some(s) => {
            let d = debug_string(s.as_str());
            let a = concat("Some(", d.as_str());
            concat(a.as_str(), ")")
        },
        None => "None".to_string(),
    }
}

/// A name, or nothing.
pub open spec fn name_or_empty(n: Option<Seq<char>>) -> Seq<char> {
    match n {
        Some(s) => s,
        None => Seq::empty(),
    }
}

/// The name of a domain, or the empty string.
pub fn domain_name(d: &AffineDomain) -> (r: String)
    ensures
        r@ == name_or_empty(d@.name),
{
    match &d.name {
        Some(s) => s.clone(),
        None => String::new(),
    }
}

/// `{ name iterators=n, params=p, constraints=c }`, each count shown when
/// positive but the constraints.
pub open spec fn domain_text(d: DomainModel) -> Seq<char> {
    "{ "@ + name_or_empty(d.name) + " "@
        + (if d.n_iter > 0 { "iterators="@ + decimal(d.n_iter) + ", "@ } else { Seq::empty() })
        + (if d.n_param > 0 { "params="@ + decimal(d.n_param) + ", "@ } else { Seq::empty() })
        + "constraints="@ + decimal(d.constraints.len()) + " }"@
}

/// Formats an affine domain.
pub fn format_domain(domain: &AffineDomain) -> (r: String)
    ensures
        r@ == domain_text(domain@),
{
    let name = domain_name(domain);
    let mut s = concat("{ ", name.as_str());
    s = concat(s.as_str(), " ");
    if domain.n_iter > 0 {
        let d = u64_to_decimal(domain.n_iter as u64);
        s = concat(s.as_str(), "iterators=");
        s = concat(s.as_str(), d.as_str());
        s = concat(s.as_str(), ", ");
    }
    if domain.n_param > 0 {
        let d = u64_to_decimal(domain.n_param as u64);
        s = concat(s.as_str(), "params=");
        s = concat(s.as_str(), d.as_str());
        s = concat(s.as_str(), ", ");
    }
    let d = u64_to_decimal(domain.constraints.len() as u64);
    s = concat(s.as_str(), "constraints=");
    s = concat(s.as_str(), d.as_str());
    let r = concat(s.as_str(), " }");
    assert(r@ =~= domain_text(domain@));
    r
}

/// `AffineMap(n pieces)`.
pub open spec fn map_summary(m: Seq<PieceModel>) -> Seq<char> {
    "AffineMap("@ + decimal(m.len()) + " pieces)"@
}

/// Formats an affine map by its number of pieces.
pub fn format_map(map: &AffineMap) -> (r: String)
    ensures
        r@ == map_summary(map@),
{
    let d = u64_to_decimal(map.pieces.len() as u64);
    let a = concat("AffineMap(", d.as_str());
    concat(a.as_str(), " pieces)")
}

/// The matrix holds an entry for every row and column.
pub open spec fn matrix_shaped(m: MatrixModel) -> bool {
    m.rows * m.cols <= m.data.len()
}

/// Row `i` of a matrix: `[a, b, ...]`.
pub open spec fn row_text(m: MatrixModel, i: int) -> Seq<char> {
    list_text(Seq::new(m.cols, |j: int| int_text(m.data[i * m.cols + j])))
}

/// `[[row]; [row]; ...]`, then ` + [c, ...]` when a translation is not zero.
pub open spec fn matrix_text(m: MatrixModel) -> Seq<char> {
    "["@ + join_texts(Seq::new(m.rows, |i: int| row_text(m, i)), "; "@) + "]"@
        + if exists|k: int| 0 <= k < m.constant.len() && m.constant[k] != 0 {
            " + "@ + ints_text(m.constant)
        } else {
            Seq::empty()
        }
}

fn row_string(m: &Matrix, i: usize) -> (r: String)
    requires
        i < m.rows,
        matrix_shaped(m@),
    ensures
        r@ == row_text(m@, i as int),
{
    let ghost ts = Seq::new(m@.cols, |j: int| int_text(m@.data[i * m@.cols + j]));
    let mut out = String::new();
    let mut j: usize = 0;
    assert(out@ =~= join_texts(ts.subrange(0, 0), ", "@));
    while j < m.cols
        invariant
            i < m.rows,
            matrix_shaped(m@),
            j <= m.cols,
            ts == Seq::new(m@.cols, |j: int| int_text(m@.data[i * m@.cols + j])),
            out@ == join_texts(ts.subrange(0, j as int), ", "@),
        decreases m.cols - j,
    {
        proof {
            lemma_join_step(ts, ", "@, j as int);
            lemma_index_in_range(i as int, j as int, m.rows as int, m.cols as int);
        }
        let d = i64_to_decimal(m.get(i, j));
        if j == 0 {
            out = d;
        } else {
            let a = concat(out.as_str(), ", ");
            out = concat(a.as_str(), d.as_str());
        }
        j = j + 1;
    }
    assert(ts.subrange(0, ts.len() as int) =~= ts);
    let a = concat("[", out.as_str());
    concat(a.as_str(), "]")
}

/// Formats a matrix, as its `Display` shows it.
pub fn format_matrix(m: &Matrix) -> (r: String)
    requires
        matrix_shaped(m@),
    ensures
        r@ == matrix_text(m@),
{
    let ghost ts = Seq::new(m@.rows, |i: int| row_text(m@, i));
    let mut out = String::new();
    let mut i: usize = 0;
    assert(out@ =~= join_texts(ts.subrange(0, 0), "; "@));
    while i < m.rows
        invariant
            matrix_shaped(m@),
            i <= m.rows,
            ts == Seq::new(m@.rows, |i: int| row_text(m@, i)),
            out@ == join_texts(ts.subrange(0, i as int), "; "@),
        decreases m.rows - i,
    {
        proof {
            lemma_join_step(ts, "; "@, i as int);
        }
        let row = row_string(m, i);
        if i == 0 {
            out = row;
        } else {
            let a = concat(out.as_str(), "; ");
            out = concat(a.as_str(), row.as_str());
        }
        i = i + 1;
    }
    assert(ts.subrange(0, ts.len() as int) =~= ts);
    let a = concat("[", out.as_str());
    let mut s = concat(a.as_str(), "]");
    let mut nonzero = false;
    let mut k: usize = 0;
    while k < m.constant.len() && !nonzero
        invariant
            k <= m.constant@.len(),
            nonzero ==> exists|t: int| 0 <= t < m@.constant.len() && m@.constant[t] != 0,
            !nonzero ==> forall|t: int| 0 <= t < k ==> m@.constant[t] == 0,
        decreases m.constant@.len() - k,
    {
        if m.constant[k] != 0 {
            assert(m@.constant[k as int] != 0);
            nonzero = true;
        }
        k = k + 1;
    }
    if nonzero {
        let c = ints_debug(&m.constant);
        s = concat(s.as_str(), " + ");
        s = concat(s.as_str(), c.as_str());
    }
    assert(s@ =~= matrix_text(m@));
    s
}

/// Every matrix of the map is shaped.
pub open spec fn map_shaped(m: Seq<PieceModel>) -> bool {
    forall|k: int| 0 <= k < m.len() ==> matrix_shaped(#[trigger] m[k].matrix)
}

/// The line of one piece: its domain name and its matrix.
pub open spec fn piece_text(p: PieceModel, k: int) -> Seq<char> {
    "\n  Piece "@ + decimal(k as nat) + ": domain="@ + option_debug_text(p.domain.name) + ", matrix="@ + matrix_text(p.matrix)
}

/// The pieces' lines, in order.
pub open spec fn pieces_text(m: Seq<PieceModel>, n: int) -> Seq<char>
    decreases n,
{
    if n <= 0 {
        Seq::empty()
    } else {
        pieces_text(m, n - 1) + piece_text(m[n - 1], n - 1)
    }
}

/// The text of an affine map: its size, then a line per piece.
pub open spec fn map_text(m: Seq<PieceModel>) -> Seq<char> {
    map_summary(m) + pieces_text(m, m.len() as int)
}

fn piece_string(p: &crate::ir::affine_map::AffineMapPiece, k: usize) -> (r: String)
    requires
        matrix_shaped(p@.matrix),
    ensures
        r@ == piece_text(p@, k as int),
{
    let kd = u64_to_decimal(k as u64);
    let name = option_debug(&p.domain.name);
    let mt = format_matrix(&p.matrix);
    let mut s = concat("\n  Piece ", kd.as_str());
    s = concat(s.as_str(), ": domain=");
    s = concat(s.as_str(), name.as_str());
    s = concat(s.as_str(), ", matrix=");
    let r = concat(s.as_str(), mt.as_str());
    assert(r@ =~= piece_text(p@, k as int));
    r
}

/// Formats an affine map with its pieces, as its `Display` shows it.
pub fn map_to_string(map: &AffineMap) -> (r: String)
    requires
        map_shaped(map@),
    ensures
        r@ == map_text(map@),
{
    let mut s = format_map(map);
    let mut k: usize = 0;
    assert(s@ =~= map_summary(map@) + pieces_text(map@, 0));
    while k < map.pieces.len()
        invariant
            k <= map.pieces@.len(),
            map_shaped(map@),
            s@ == map_summary(map@) + pieces_text(map@, k as int),
        decreases map.pieces@.len() - k,
    {
        let p = &map.pieces[k];
        assert(map@[k as int] == p@);
        assert(matrix_shaped(map@[k as int].matrix));
        let t = piece_string(p, k);
        s = concat(s.as_str(), t.as_str());
        k = k + 1;
        assert(s@ =~= map_summary(map@) + pieces_text(map@, k as int));
    }
    s
}

/// The name of an access type.
pub open spec fn access_type_text(t: AccessType) -> Seq<char> {
    match t {
        AccessType::Read => "Read"@,
        AccessType::Write => "Write"@,
        AccessType::ReadWrite => "ReadWrite"@,
        AccessType::Reduction => "Reduction"@,
    }
}

impl AccessType {
    pub fn to_string(&self) -> (r: String)
        ensures
            r@ == access_type_text(*self),
    {
        match self {
            AccessType::Read => "Read".to_string(),
            AccessType::Write => "Write".to_string(),
            AccessType::ReadWrite => "ReadWrite".to_string(),
            AccessType::Reduction => "Reduction".to_string(),
        }
    }
}

/// `type name: S<id> -> map (domain)`, the array named `mem` when unnamed.
pub open spec fn access_text(a: AccessRelation) -> Seq<char> {
    access_type_text(a.access_type) + " "@ + (match a.array_name {
        Some(n) => n@,
        None => "mem"@,
    }) + ": S"@ + decimal(a.stmt_id.0 as nat) + " -> "@ + map_text(a.access_map@) + " ("@
        + name_or_empty(a.stmt_domain@.name) + ")"@
}

impl AccessRelation {
    /// The relation's text, as its `Display` shows it.
    pub fn to_string(&self) -> (r: String)
        requires
            map_shaped(self.access_map@),
        ensures
            r@ == access_text(*self),
    {
        let t = self.access_type.to_string();
        let name = match &self.array_name {
            Some(n) => n.clone(),
            None => "mem".to_string(),
        };
        let id = u64_to_decimal(self.stmt_id.0 as u64);
        let m = map_to_string(&self.access_map);
        let d = domain_name(&self.stmt_domain);
        let mut s = concat(t.as_str(), " ");
        s = concat(s.as_str(), name.as_str());
        s = concat(s.as_str(), ": S");
        s = concat(s.as_str(), id.as_str());
        s = concat(s.as_str(), " -> ");
        s = concat(s.as_str(), m.as_str());
        s = concat(s.as_str(), " (");
        s = concat(s.as_str(), d.as_str());
        let r = concat(s.as_str(), ")");
        assert(r@ =~= access_text(*self));
        r
    }
}

/// Every access map is shaped.
pub open spec fn accesses_shaped(rs: Seq<AccessRelation>) -> bool {
    forall|k: int| 0 <= k < rs.len() ==> map_shaped((#[trigger] rs[k]).access_map@)
}

/// A line per access, indented.
pub open spec fn accesses_text(rs: Seq<AccessRelation>, n: int) -> Seq<char>
    decreases n,
{
    if n <= 0 {
        Seq::empty()
    } else {
        accesses_text(rs, n - 1) + "  "@ + access_text(rs[n - 1]) + "\n"@
    }
}

/// Formats access relations, one per line.
pub fn format_accesses(accesses: &AccessRelations) -> (r: String)
    requires
        accesses_shaped(accesses.relations@),
    ensures
        r@ == accesses_text(accesses.relations@, accesses.relations@.len() as int),
{
    let mut s = String::new();
    let mut k: usize = 0;
    assert(s@ =~= accesses_text(accesses.relations@, 0));
    while k < accesses.relations.len()
        invariant
            k <= accesses.relations@.len(),
            accesses_shaped(accesses.relations@),
            s@ == accesses_text(accesses.relations@, k as int),
        decreases accesses.relations@.len() - k,
    {
        let a = accesses.relations[k].to_string();
        s = concat(s.as_str(), "  ");
        s = concat(s.as_str(), a.as_str());
        s = concat(s.as_str(), "\n");
        k = k + 1;
        assert(s@ =~= accesses_text(accesses.relations@, k as int));
    }
    s
}


/// Joining one more text.
pub proof fn lemma_join_push(ts: Seq<Seq<char>>, x: Seq<char>, sep: Seq<char>)
    ensures
        join_texts(ts.push(x), sep) == if ts.len() == 0 { x } else { join_texts(ts, sep) + sep + x },
{
    assert(ts.push(x).drop_last() =~= ts);
    if ts.len() == 0 {
        assert(ts.push(x).len() == 1);
    }
}

/// The symbol of a PIR binary operator.
pub open spec fn binary_op_text(op: BinaryOp) -> Seq<char> {
    match op {
        BinaryOp::Add => "+"@,
        BinaryOp::Sub => "-"@,
        BinaryOp::Mul => "*"@,
        BinaryOp::Div => "/"@,
        BinaryOp::Mod => "%"@,
        BinaryOp::And => "&&"@,
        BinaryOp::Or => "||"@,
        BinaryOp::Xor => "^"@,
        BinaryOp::Eq => "=="@,
        BinaryOp::Ne => "!="@,
        BinaryOp::Lt => "<"@,
        BinaryOp::Le => "<="@,
        BinaryOp::Gt => ">"@,
        BinaryOp::Ge => ">="@,
        BinaryOp::Shl => "<<"@,
        BinaryOp::Shr => ">>"@,
    }
}

/// The symbol of a PIR unary operator.
pub open spec fn unary_op_text(op: UnaryOp) -> Seq<char> {
    match op {
        UnaryOp::Neg => "-"@,
        UnaryOp::Not => "!"@,
    }
}

fn binary_op_str(op: BinaryOp) -> (r: &'static str)
    ensures
        r@ == binary_op_text(op),
{
    match op {
        BinaryOp::Add => "+",
        BinaryOp::Sub => "-",
        BinaryOp::Mul => "*",
        BinaryOp::Div => "/",
        BinaryOp::Mod => "%",
        BinaryOp::And => "&&",
        BinaryOp::Or => "||",
        BinaryOp::Xor => "^",
        BinaryOp::Eq => "==",
        BinaryOp::Ne => "!=",
        BinaryOp::Lt => "<",
        BinaryOp::Le => "<=",
        BinaryOp::Gt => ">",
        BinaryOp::Ge => ">=",
        BinaryOp::Shl => "<<",
        BinaryOp::Shr => ">>",
    }
}

fn unary_op_str(op: UnaryOp) -> (r: &'static str)
    ensures
        r@ == unary_op_text(op),
{
    match op {
        UnaryOp::Neg => "-",
        UnaryOp::Not => "!",
    }
}

/// The text of an expression.
pub open spec fn expr_text(e: PirExpr) -> Seq<char>
    decreases e,
{
    match e {
        PirExpr::IntLit(v) => int_text(v),
        PirExpr::FloatLit(s) => s@,
        PirExpr::BoolLit(b) => if b { "true"@ } else { "false"@ },
        PirExpr::Var(v) => v@,
        PirExpr::Binary { op, left, right } =>
            "("@ + expr_text(*left) + " "@ + binary_op_text(op) + " "@ + expr_text(*right) + ")"@,
        PirExpr::Unary { op, expr } => unary_op_text(op) + expr_text(*expr),
        PirExpr::Call { name, args } => name@ + "("@ + join_texts(exprs_texts(args@), ", "@) + ")"@,
        PirExpr::Index { base, indices } => expr_text(*base) + "["@ + join_texts(exprs_texts(indices@), ", "@) + "]"@,
        PirExpr::Field { base, field } => expr_text(*base) + "."@ + field@,
        PirExpr::Let { name, qty, mutability, value, body } =>
            "let "@ + quantity_debug(qty) + " "@ + mutability_debug(mutability) + " "@ + name@ + " = "@
                + expr_text(*value) + "; "@ + expr_text(*body),
        PirExpr::If { cond, then_branch, else_branch } =>
            "if "@ + expr_text(*cond) + " then "@ + expr_text(*then_branch) + " else "@ + expr_text(*else_branch),
        PirExpr::Reversible { body, inverse } => "reversible "@ + expr_text(*body) + " inv "@ + expr_text(*inverse),
        PirExpr::QuantumOp { op, args, qubits } =>
            "quantum "@ + op@ + "("@ + join_texts(exprs_texts(args@), ", "@) + ", qubits="@
                + join_texts(exprs_texts(qubits@), ", "@) + ")"@,
    }
}

/// The texts of a list of expressions.
pub open spec fn exprs_texts(es: Seq<PirExpr>) -> Seq<Seq<char>>
    decreases es,
{
    if es.len() == 0 {
        Seq::empty()
    } else {
        exprs_texts(es.drop_last()).push(expr_text(es.last()))
    }
}

proof fn lemma_exprs_texts_len(es: Seq<PirExpr>)
    ensures
        exprs_texts(es).len() == es.len(),
    decreases es.len(),
{
    if es.len() > 0 {
        lemma_exprs_texts_len(es.drop_last());
    }
}

/// Concatenates the strings in order.
pub(crate) fn cat(parts: &[&str]) -> (r: String)
    ensures
        r@ == parts@.fold_left(Seq::<char>::empty(), |acc: Seq<char>, p: &str| acc + p@),
{
    let mut s = String::new();
    let mut k: usize = 0;
    assert(parts@.subrange(0, 0) =~= Seq::<&str>::empty());
    while k < parts.len()
        invariant
            k <= parts@.len(),
            s@ == parts@.subrange(0, k as int).fold_left(Seq::<char>::empty(), |acc: Seq<char>, p: &str| acc + p@),
        decreases parts@.len() - k,
    {
        proof {
            let t = parts@.subrange(0, k + 1);
            assert(t.drop_last() =~= parts@.subrange(0, k as int));
            t.lemma_fold_left_split(Seq::<char>::empty(), |acc: Seq<char>, p: &str| acc + p@, k as int);
            assert(t.subrange(0, k as int) =~= parts@.subrange(0, k as int));
            assert(t.subrange(k as int, k + 1) =~= seq![parts@[k as int]]);
            reveal_with_fuel(Seq::fold_left, 2);
        }
        s = concat(s.as_str(), parts[k]);
        k = k + 1;
    }
    assert(parts@.subrange(0, parts@.len() as int) =~= parts@);
    s
}

/// The texts of a list of expressions, separated by `, `.
fn exprs_to_string(v: &Vec<PirExpr>) -> (r: String)
    ensures
        r@ == join_texts(exprs_texts(v@), ", "@),
    decreases v,
{
    let mut out = String::new();
    let mut k: usize = 0;
    assert(v@.subrange(0, 0) =~= Seq::<PirExpr>::empty());
    assert(out@ =~= join_texts(exprs_texts(v@.subrange(0, 0)), ", "@));
    while k < v.len()
        invariant
            k <= v@.len(),
            out@ == join_texts(exprs_texts(v@.subrange(0, k as int)), ", "@),
        decreases v@.len() - k,
    {
        proof {
            assert(decreases_to!(v => v@));
            assert(decreases_to!(v@ => v@[k as int]));
            let t = v@.subrange(0, k + 1);
            assert(t.drop_last() =~= v@.subrange(0, k as int));
            assert(t.last() == v@[k as int]);
            lemma_exprs_texts_len(v@.subrange(0, k as int));
            lemma_join_push(exprs_texts(v@.subrange(0, k as int)), expr_text(v@[k as int]), ", "@);
        }
        let d = expr_to_string(&v[k]);
        if k == 0 {
            out = d;
        } else {
            let a = concat(out.as_str(), ", ");
            out = concat(a.as_str(), d.as_str());
        }
        k = k + 1;
    }
    assert(v@.subrange(0, v@.len() as int) =~= v@);
    out
}

/// The text of an expression.
fn expr_to_string(e: &PirExpr) -> (r: String)
    ensures
        r@ == expr_text(*e),
    decreases e,
{
    let r = match e {
        PirExpr::IntLit(v) => i64_to_decimal(*v),
        PirExpr::FloatLit(s) => s.clone(),
        PirExpr::BoolLit(b) => if *b { "true".to_string() } else { "false".to_string() },
        PirExpr::Var(v) => v.clone(),
        PirExpr::Binary { op, left, right } => {
            let l = expr_to_string(left);
            let r = expr_to_string(right);
            cat(&["(", l.as_str(), " ", binary_op_str(*op), " ", r.as_str(), ")"])
        },
        PirExpr::Unary { op, expr } => {
            let x = expr_to_string(expr);
            concat(unary_op_str(*op), x.as_str())
        },
        PirExpr::Call { name, args } => {
            let a = exprs_to_string(args);
            cat(&[name.as_str(), "(", a.as_str(), ")"])
        },
        PirExpr::Index { base, indices } => {
            let b = expr_to_string(base);
            let i = exprs_to_string(indices);
            cat(&[b.as_str(), "[", i.as_str(), "]"])
        },
        PirExpr::Field { base, field } => {
            let b = expr_to_string(base);
            cat(&[b.as_str(), ".", field.as_str()])
        },
        PirExpr::Let { name, qty, mutability, value, body } => {
            let q = quantity_debug_string(*qty);
            let m = mutability_debug_string(*mutability);
            let v = expr_to_string(value);
            let b = expr_to_string(body);
            cat(&["let ", q.as_str(), " ", m.as_str(), " ", name.as_str(), " = ", v.as_str(), "; ", b.as_str()])
        },
        PirExpr::If { cond, then_branch, else_branch } => {
            let c = expr_to_string(cond);
            let t = expr_to_string(then_branch);
            let x = expr_to_string(else_branch);
            cat(&["if ", c.as_str(), " then ", t.as_str(), " else ", x.as_str()])
        },
        PirExpr::Reversible { body, inverse } => {
            let b = expr_to_string(body);
            let i = expr_to_string(inverse);
            cat(&["reversible ", b.as_str(), " inv ", i.as_str()])
        },
        PirExpr::QuantumOp { op, args, qubits } => {
            let a = exprs_to_string(args);
            let q = exprs_to_string(qubits);
            cat(&["quantum ", op.as_str(), "(", a.as_str(), ", qubits=", q.as_str(), ")"])
        },
    };
    proof {
        reveal_with_fuel(Seq::fold_left, 11);
    }
    assert(r@ =~= expr_text(*e));
    r
}

/// Formats an expression.
pub fn format_pir_expr(expr: &PirExpr) -> (r: String)
    ensures
        r@ == expr_text(*expr),
{
    expr_to_string(expr)
}


/// `n` levels of two-space indentation.
pub open spec fn indent_text(n: nat) -> Seq<char>
    decreases n,
{
    if n == 0 {
        Seq::empty()
    } else {
        indent_text((n - 1) as nat) + "  "@
    }
}

fn indent_string(n: usize) -> (r: String)
    ensures
        r@ == indent_text(n as nat),
{
    let mut s = String::new();
    let mut i: usize = 0;
    assert(s@ =~= indent_text(0));
    while i < n
        invariant
            i <= n,
            s@ == indent_text(i as nat),
        decreases n - i,
    {
        s = concat(s.as_str(), "  ");
        i = i + 1;
    }
    s
}

/// Nesting depth of a schedule subtree.
pub open spec fn node_depth(n: ScheduleNode) -> nat
    decreases n,
{
    match n {
        ScheduleNode::Band { child, .. } => 1 + node_depth(*child),
        ScheduleNode::Filter { child, .. } => 1 + node_depth(*child),
        ScheduleNode::Sequence { children } => 1 + nodes_depth(children@),
        ScheduleNode::Context { child, .. } => 1 + node_depth(*child),
        ScheduleNode::Extension { child, .. } => 1 + node_depth(*child),
        ScheduleNode::Domain { .. } => 0,
        ScheduleNode::Empty => 0,
    }
}

/// The greatest depth among subtrees.
pub open spec fn nodes_depth(cs: Seq<ScheduleNode>) -> nat
    decreases cs,
{
    if cs.len() == 0 {
        0
    } else {
        let a = nodes_depth(cs.drop_last());
        let b = node_depth(cs.last());
        if a >= b { a } else { b }
    }
}

/// Every band map of a subtree is shaped.
pub open spec fn node_shaped(n: ScheduleNode) -> bool
    decreases n,
{
    match n {
        ScheduleNode::Band { members, child, .. } =>
            (forall|k: int| 0 <= k < members@.len() ==> map_shaped((#[trigger] members@[k])@)) && node_shaped(*child),
        ScheduleNode::Filter { child, .. } => node_shaped(*child),
        ScheduleNode::Sequence { children } => nodes_shaped(children@),
        ScheduleNode::Context { child, .. } => node_shaped(*child),
        ScheduleNode::Extension { child, .. } => node_shaped(*child),
        ScheduleNode::Domain { .. } => true,
        ScheduleNode::Empty => true,
    }
}

/// Every band map of the subtrees is shaped.
pub open spec fn nodes_shaped(cs: Seq<ScheduleNode>) -> bool
    decreases cs,
{
    if cs.len() == 0 {
        true
    } else {
        nodes_shaped(cs.drop_last()) && node_shaped(cs.last())
    }
}

proof fn lemma_nodes_index(cs: Seq<ScheduleNode>, i: int)
    requires
        0 <= i < cs.len(),
    ensures
        nodes_shaped(cs) ==> node_shaped(cs[i]),
        node_depth(cs[i]) <= nodes_depth(cs),
    decreases cs.len(),
{
    if i < cs.len() - 1 {
        lemma_nodes_index(cs.drop_last(), i);
    }
}

/// A band member's line: its index, whether it is coincident, its map.
pub open spec fn member_line(p: Seq<char>, k: int, c: bool, m: Seq<PieceModel>) -> Seq<char> {
    p + "  ["@ + decimal(k as nat) + "] "@ + (if c { "coincident"@ } else { "sequential"@ }) + " "@ + map_text(m) + "\n"@
}

/// The lines of the first `n` members.
pub open spec fn member_lines(p: Seq<char>, ms: Seq<AffineMap>, cs: Seq<bool>, n: int) -> Seq<char>
    decreases n,
{
    if n <= 0 {
        Seq::empty()
    } else {
        member_lines(p, ms, cs, n - 1) + member_line(p, n - 1, cs[n - 1], ms[n - 1]@)
    }
}

/// The text of a schedule subtree at an indentation: a line per node, its
/// children one level deeper.
pub open spec fn node_text(n: ScheduleNode, indent: nat) -> Seq<char>
    decreases n,
{
    let p = indent_text(indent);
    match n {
        ScheduleNode::Band { members, coincident, child } =>
            p + "Band ("@ + decimal(members@.len()) + " dims):\n"@
                + member_lines(p, members@, coincident@,
                    if members@.len() <= coincident@.len() { members@.len() as int } else { coincident@.len() as int })
                + node_text(*child, indent + 1),
        ScheduleNode::Filter { domain, child } => p + "Filter: "@ + name_or_empty(domain@.name) + "\n"@ + node_text(*child, indent + 1),
        ScheduleNode::Sequence { children } => p + "Sequence:\n"@ + nodes_text(children@, indent + 1),
        ScheduleNode::Context { domain, child } => p + "Context: "@ + name_or_empty(domain@.name) + "\n"@ + node_text(*child, indent + 1),
        ScheduleNode::Domain { stmt_id, domain } => p + "Domain S"@ + decimal(stmt_id.0 as nat) + ": "@ + name_or_empty(domain@.name) + "\n"@,
        ScheduleNode::Extension { sizes, child } => p + "Extension (sizes="@ + sizes_text(sizes@) + "):\n"@ + node_text(*child, indent + 1),
        ScheduleNode::Empty => p + "Empty\n"@,
    }
}

/// The texts of subtrees, one after the other.
pub open spec fn nodes_text(cs: Seq<ScheduleNode>, indent: nat) -> Seq<char>
    decreases cs,
{
    if cs.len() == 0 {
        Seq::empty()
    } else {
        nodes_text(cs.drop_last(), indent) + node_text(cs.last(), indent)
    }
}

fn member_lines_string(p: &str, members: &Vec<AffineMap>, coincident: &Vec<bool>) -> (r: String)
    requires
        forall|k: int| 0 <= k < members@.len() ==> map_shaped((#[trigger] members@[k])@),
    ensures
        r@ == member_lines(p@, members@, coincident@,
            if members@.len() <= coincident@.len() { members@.len() as int } else { coincident@.len() as int }),
{
    let n = if members.len() <= coincident.len() { members.len() } else { coincident.len() };
    let mut s = String::new();
    let mut k: usize = 0;
    assert(s@ =~= member_lines(p@, members@, coincident@, 0));
    while k < n
        invariant
            k <= n,
            n <= members@.len(),
            n <= coincident@.len(),
            forall|j: int| 0 <= j < members@.len() ==> map_shaped((#[trigger] members@[j])@),
            s@ == member_lines(p@, members@, coincident@, k as int),
        decreases n - k,
    {
        assert(map_shaped(members@[k as int]@));
        let kd = u64_to_decimal(k as u64);
        let m = map_to_string(&members[k]);
        let c = if coincident[k] { "coincident" } else { "sequential" };
        let line = cat(&[p, "  [", kd.as_str(), "] ", c, " ", m.as_str(), "\n"]);
        proof {
            reveal_with_fuel(Seq::fold_left, 9);
        }
        assert(line@ =~= member_line(p@, k as int, coincident@[k as int], members@[k as int]@));
        s = concat(s.as_str(), line.as_str());
        k = k + 1;
    }
    s
}

fn children_text(children: &Vec<ScheduleNode>, indent: usize) -> (r: String)
    requires
        nodes_shaped(children@),
        indent + nodes_depth(children@) <= usize::MAX,
    ensures
        r@ == nodes_text(children@, indent as nat),
    decreases children,
{
    let mut s = String::new();
    let mut k: usize = 0;
    assert(children@.subrange(0, 0) =~= Seq::<ScheduleNode>::empty());
    assert(s@ =~= nodes_text(children@.subrange(0, 0), indent as nat));
    while k < children.len()
        invariant
            k <= children@.len(),
            nodes_shaped(children@),
            indent + nodes_depth(children@) <= usize::MAX,
            s@ == nodes_text(children@.subrange(0, k as int), indent as nat),
        decreases children@.len() - k,
    {
        proof {
            assert(decreases_to!(children => children@));
            assert(decreases_to!(children@ => children@[k as int]));
            lemma_nodes_index(children@, k as int);
            let t = children@.subrange(0, k + 1);
            assert(t.drop_last() =~= children@.subrange(0, k as int));
            assert(t.last() == children@[k as int]);
        }
        let c = children[k].pretty_print(indent);
        s = concat(s.as_str(), c.as_str());
        k = k + 1;
    }
    assert(children@.subrange(0, children@.len() as int) =~= children@);
    s
}

impl ScheduleNode {
    /// The subtree's text at an indentation.
    pub fn pretty_print(&self, indent: usize) -> (r: String)
        requires
            node_shaped(*self),
            indent + node_depth(*self) <= usize::MAX,
        ensures
            r@ == node_text(*self, indent as nat),
        decreases self,
    {
        let p = indent_string(indent);
        let r = match self {
            ScheduleNode::Band { members, coincident, child } => {
                let d = u64_to_decimal(members.len() as u64);
                let lines = member_lines_string(p.as_str(), members, coincident);
                let c = child.pretty_print(indent + 1);
                cat(&[p.as_str(), "Band (", d.as_str(), " dims):\n", lines.as_str(), c.as_str()])
            },
            ScheduleNode::Filter { domain, child } => {
                let n = domain_name(domain);
                let c = child.pretty_print(indent + 1);
                cat(&[p.as_str(), "Filter: ", n.as_str(), "\n", c.as_str()])
            },
            ScheduleNode::Sequence { children } => {
                let cs = children_text(children, indent + 1);
                cat(&[p.as_str(), "Sequence:\n", cs.as_str()])
            },
            ScheduleNode::Context { domain, child } => {
                let n = domain_name(domain);
                let c = child.pretty_print(indent + 1);
                cat(&[p.as_str(), "Context: ", n.as_str(), "\n", c.as_str()])
            },
            ScheduleNode::Domain { stmt_id, domain } => {
                let n = domain_name(domain);
                let id = u64_to_decimal(stmt_id.0 as u64);
                cat(&[p.as_str(), "Domain S", id.as_str(), ": ", n.as_str(), "\n"])
            },
            ScheduleNode::Extension { sizes, child } => {
                let z = sizes_debug(sizes);
                let c = child.pretty_print(indent + 1);
                cat(&[p.as_str(), "Extension (sizes=", z.as_str(), "):\n", c.as_str()])
            },
            ScheduleNode::Empty => cat(&[p.as_str(), "Empty\n"]),
        };
        proof {
            reveal_with_fuel(Seq::fold_left, 7);
        }
        assert(r@ =~= node_text(*self, indent as nat));
        r
    }
}

/// `Parameters: [...]` and the tree's text.
pub open spec fn tree_text(t: ScheduleTree) -> Seq<char> {
    "Parameters: "@ + strings_debug_text(t.parameters@) + "\n"@ + node_text(t.root, 0)
}

impl ScheduleTree {
    /// The tree's text: its parameters, then its nodes.
    pub fn pretty_print(&self) -> (r: String)
        requires
            node_shaped(self.root),
            node_depth(self.root) <= usize::MAX,
        ensures
            r@ == tree_text(*self),
    {
        let ps = strings_debug(&self.parameters);
        let root = self.root.pretty_print(0);
        let r = cat(&["Parameters: ", ps.as_str(), "\n", root.as_str()]);
        proof {
            reveal_with_fuel(Seq::fold_left, 5);
        }
        assert(r@ =~= tree_text(*self));
        r
    }
}

/// Formats a schedule tree.
pub fn format_schedule(tree: &ScheduleTree) -> (r: String)
    requires
        node_shaped(tree.root),
        node_depth(tree.root) <= usize::MAX,
    ensures
        r@ == tree_text(*tree),
{
    tree.pretty_print()
}


/// The `{:?}` of the quantities: `{"name": Quantity, ...}`.
pub open spec fn quantities_debug(q: Seq<(Seq<char>, Quantity)>) -> Seq<char> {
    "{"@ + join_texts(q.map_values(|e: (Seq<char>, Quantity)| debug_text(e.0) + ": "@ + quantity_debug(e.1)), ", "@) + "}"@
}

fn quantities_debug_string(q: &QuantityMap) -> (r: String)
    ensures
        r@ == quantities_debug(q@),
{
    let ghost ts = q@.map_values(|e: (Seq<char>, Quantity)| debug_text(e.0) + ": "@ + quantity_debug(e.1));
    let mut out = String::new();
    let mut k: usize = 0;
    assert(out@ =~= join_texts(ts.subrange(0, 0), ", "@));
    while k < q.len()
        invariant
            k <= q@.len(),
            ts == q@.map_values(|e: (Seq<char>, Quantity)| debug_text(e.0) + ": "@ + quantity_debug(e.1)),
            out@ == join_texts(ts.subrange(0, k as int), ", "@),
        decreases q@.len() - k,
    {
        proof {
            lemma_join_step(ts, ", "@, k as int);
        }
        let (name, qty) = q.entry(k);
        let d = debug_string(name.as_str());
        let qd = quantity_debug_string(qty);
        let item = cat(&[d.as_str(), ": ", qd.as_str()]);
        proof {
            reveal_with_fuel(Seq::fold_left, 4);
        }
        assert(item@ =~= ts[k as int]);
        if k == 0 {
            out = item;
        } else {
            out = cat(&[out.as_str(), ", ", item.as_str()]);
        }
        k = k + 1;
    }
    assert(ts.subrange(0, ts.len() as int) =~= ts);
    let r = cat(&["{", out.as_str(), "}"]);
    proof {
        reveal_with_fuel(Seq::fold_left, 4);
    }
    r
}

/// The lines of a statement in the module text.
pub open spec fn stmt_summary(s: PirStatement) -> Seq<char> {
    "  S"@ + decimal(s.id.0 as nat) + ": qty="@ + quantity_debug(s.quantity) + ", mut="@ + mutability_debug(s.mutability) + "\n"@
        + "    Domain: "@ + name_or_empty(s.domain@.name) + "\n"@ + "    Body: "@ + expr_text(s.body) + "\n"@
}

/// The lines of the first `n` statements.
pub open spec fn stmts_summary(ss: Seq<PirStatement>, n: int) -> Seq<char>
    decreases n,
{
    if n <= 0 {
        Seq::empty()
    } else {
        stmts_summary(ss, n - 1) + stmt_summary(ss[n - 1])
    }
}

/// The schedule and accesses of the module can be printed.
pub open spec fn module_printable(m: PirModule) -> bool {
    &&& node_shaped(m.schedule.root)
    &&& node_depth(m.schedule.root) <= usize::MAX
    &&& accesses_shaped(m.accesses.relations@)
}

/// The text of a module: parameters, quantities, statements, schedule, accesses.
pub open spec fn module_text(m: PirModule) -> Seq<char> {
    "=== PIR Module ===\n"@ + "Parameters: "@ + strings_debug_text(m.parameters@) + "\n"@
        + "Quantities: "@ + quantities_debug(m.quantities@) + "\n"@
        + "\n--- Statements ---\n"@ + stmts_summary(m.statements@, m.statements@.len() as int)
        + "\n--- Schedule ---\n"@ + tree_text(m.schedule)
        + "\n--- Accesses ---\n"@ + accesses_text(m.accesses.relations@, m.accesses.relations@.len() as int)
}

fn stmt_summary_string(s: &PirStatement) -> (r: String)
    ensures
        r@ == stmt_summary(*s),
{
    let id = u64_to_decimal(s.id.0 as u64);
    let q = quantity_debug_string(s.quantity);
    let m = mutability_debug_string(s.mutability);
    let n = domain_name(&s.domain);
    let b = format_pir_expr(&s.body);
    let r = cat(&["  S", id.as_str(), ": qty=", q.as_str(), ", mut=", m.as_str(), "\n", "    Domain: ", n.as_str(), "\n",
        "    Body: ", b.as_str(), "\n"]);
    proof {
        reveal_with_fuel(Seq::fold_left, 14);
    }
    assert(r@ =~= stmt_summary(*s));
    r
}

impl PirModule {
    /// The module's text: parameters, quantities, statements, schedule and
    /// accesses.
    pub fn pretty_print(&self) -> (r: String)
        requires
            module_printable(*self),
        ensures
            r@ == module_text(*self),
    {
        let ps = strings_debug(&self.parameters);
        let qs = quantities_debug_string(&self.quantities);
        let mut body = String::new();
        let mut k: usize = 0;
        assert(body@ =~= stmts_summary(self.statements@, 0));
        while k < self.statements.len()
            invariant
                k <= self.statements@.len(),
                body@ == stmts_summary(self.statements@, k as int),
            decreases self.statements@.len() - k,
        {
            let t = stmt_summary_string(&self.statements[k]);
            body = concat(body.as_str(), t.as_str());
            k = k + 1;
        }
        let sched = self.schedule.pretty_print();
        let acc = format_accesses(&self.accesses);
        let r = cat(&["=== PIR Module ===\n", "Parameters: ", ps.as_str(), "\n", "Quantities: ", qs.as_str(), "\n",
            "\n--- Statements ---\n", body.as_str(), "\n--- Schedule ---\n", sched.as_str(), "\n--- Accesses ---\n",
            acc.as_str()]);
        proof {
            reveal_with_fuel(Seq::fold_left, 14);
        }
        assert(r@ =~= module_text(*self));
        r
    }
}

/// The module's text.
pub fn pir_to_string(module: &PirModule) -> (r: String)
    requires
        module_printable(*module),
    ensures
        r@ == module_text(*module),
{
    module.pretty_print()
}

/// Indented lines, one per text.
pub open spec fn indented_lines(ts: Seq<Seq<char>>) -> Seq<char>
    decreases ts.len(),
{
    if ts.len() == 0 {
        Seq::empty()
    } else {
        indented_lines(ts.drop_last()) + "  "@ + ts.last() + "\n"@
    }
}

/// The fixture block of a statement.
pub open spec fn stmt_fixture(s: PirStatement) -> Seq<char> {
    "  S"@ + decimal(s.id.0 as nat) + " {\n"@ + "    quantity = "@ + quantity_debug(s.quantity) + "\n"@
        + "    mutability = "@ + mutability_debug(s.mutability) + "\n"@ + "    domain = "@ + domain_text(s.domain@) + "\n"@
        + "    body = "@ + expr_text(s.body) + "\n"@ + "  }\n"@
}

/// The fixture text of an external parameter.
pub open spec fn extern_param_text(p: ExternParam) -> Seq<char> {
    p.name@ + ": "@ + p.ty@ + " ["@ + quantity_debug(p.quantity) + " "@ + mutability_debug(p.mutability) + "]"@
}

/// The fixture line of an external function.
pub open spec fn extern_text(f: ExternFunction) -> Seq<char> {
    "  "@ + f.name@ + "("@ + join_texts(f.params@.map_values(|p: ExternParam| extern_param_text(p)), ", "@) + ")"@
        + (match f.return_type {
            Some(t) => " -> "@ + t@,
            None => Seq::empty(),
        }) + "\n"@
}

/// The texts of the first `n` items.
pub open spec fn concat_upto<A>(xs: Seq<A>, f: spec_fn(A) -> Seq<char>, n: int) -> Seq<char>
    decreases n,
{
    if n <= 0 {
        Seq::empty()
    } else {
        concat_upto(xs, f, n - 1) + f(xs[n - 1])
    }
}

/// The parameters section: a line per parameter.
pub open spec fn params_section(m: PirModule) -> Seq<char> {
    indented_lines(m.parameters@.map_values(|p: String| p@))
}

/// The quantities section: `name = Quantity` per line.
pub open spec fn quantities_section(m: PirModule) -> Seq<char> {
    indented_lines(m.quantities@.map_values(|e: (Seq<char>, Quantity)| e.0 + " = "@ + quantity_debug(e.1)))
}

/// The statements section: a block per statement.
pub open spec fn statements_section(m: PirModule) -> Seq<char> {
    concat_upto(m.statements@, |s: PirStatement| stmt_fixture(s), m.statements@.len() as int)
}

/// The external functions section, present when there are any.
pub open spec fn externs_section(m: PirModule) -> Seq<char> {
    if m.extern_functions@.len() == 0 {
        Seq::empty()
    } else {
        "[extern_functions]\n"@ + concat_upto(m.extern_functions@, |f: ExternFunction| extern_text(f), m.extern_functions@.len() as int) + "\n"@
    }
}

/// The golden fixture text of a module: its sections, in order.
pub open spec fn fixture_text(m: PirModule) -> Seq<char> {
    "# Naso PIR Golden Fixture\n"@ + "# Generated by Naso Compiler\n\n"@
        + "[parameters]\n"@ + params_section(m) + "\n"@
        + "[quantities]\n"@ + quantities_section(m) + "\n"@
        + "[statements]\n"@ + statements_section(m) + "\n"@
        + "[schedule]\n"@ + tree_text(m.schedule) + "\n"@
        + "[accesses]\n"@ + accesses_text(m.accesses.relations@, m.accesses.relations@.len() as int) + "\n"@
        + externs_section(m)
}

fn stmt_fixture_string(s: &PirStatement) -> (r: String)
    ensures
        r@ == stmt_fixture(*s),
{
    let id = u64_to_decimal(s.id.0 as u64);
    let q = quantity_debug_string(s.quantity);
    let m = mutability_debug_string(s.mutability);
    let d = format_domain(&s.domain);
    let b = format_pir_expr(&s.body);
    let r = cat(&["  S", id.as_str(), " {\n", "    quantity = ", q.as_str(), "\n", "    mutability = ", m.as_str(), "\n",
        "    domain = ", d.as_str(), "\n", "    body = ", b.as_str(), "\n", "  }\n"]);
    proof {
        reveal_with_fuel(Seq::fold_left, 17);
    }
    assert(r@ =~= stmt_fixture(*s));
    r
}

fn extern_string(f: &ExternFunction) -> (r: String)
    ensures
        r@ == extern_text(*f),
{
    let ghost ts = f.params@.map_values(|p: ExternParam| extern_param_text(p));
    let mut ps = String::new();
    let mut k: usize = 0;
    assert(ps@ =~= join_texts(ts.subrange(0, 0), ", "@));
    while k < f.params.len()
        invariant
            k <= f.params@.len(),
            ts == f.params@.map_values(|p: ExternParam| extern_param_text(p)),
            ps@ == join_texts(ts.subrange(0, k as int), ", "@),
        decreases f.params@.len() - k,
    {
        proof {
            lemma_join_step(ts, ", "@, k as int);
        }
        let p = &f.params[k];
        let q = quantity_debug_string(p.quantity);
        let m = mutability_debug_string(p.mutability);
        let item = cat(&[p.name.as_str(), ": ", p.ty.as_str(), " [", q.as_str(), " ", m.as_str(), "]"]);
        proof {
            reveal_with_fuel(Seq::fold_left, 9);
        }
        assert(item@ =~= ts[k as int]);
        if k == 0 {
            ps = item;
        } else {
            ps = cat(&[ps.as_str(), ", ", item.as_str()]);
            proof {
                reveal_with_fuel(Seq::fold_left, 4);
            }
        }
        k = k + 1;
    }
    assert(ts.subrange(0, ts.len() as int) =~= ts);
    let ret = match &f.return_type {
        Some(t) => concat(" -> ", t.as_str()),
        None => String::new(),
    };
    let r = cat(&["  ", f.name.as_str(), "(", ps.as_str(), ")", ret.as_str(), "\n"]);
    proof {
        reveal_with_fuel(Seq::fold_left, 8);
    }
    assert(r@ =~= extern_text(*f));
    r
}

fn params_section_string(module: &PirModule) -> (r: String)
    ensures
        r@ == params_section(*module),
{
    let mut s = String::new();
    let ghost pv = module.parameters@.map_values(|p: String| p@);
    let mut k: usize = 0;
    assert(pv.subrange(0, 0) =~= Seq::<Seq<char>>::empty());
    assert(s@ =~= indented_lines(pv.subrange(0, 0)));
    while k < module.parameters.len()
        invariant
            k <= module.parameters@.len(),
            pv == module.parameters@.map_values(|p: String| p@),
            s@ == indented_lines(pv.subrange(0, k as int)),
        decreases module.parameters@.len() - k,
    {
        proof {
            let t = pv.subrange(0, k + 1);
            assert(t.drop_last() =~= pv.subrange(0, k as int));
            reveal_with_fuel(Seq::fold_left, 5);
        }
        s = cat(&[s.as_str(), "  ", module.parameters[k].as_str(), "\n"]);
        k = k + 1;
    }
    assert(pv.subrange(0, pv.len() as int) =~= pv);
    s
}

fn quantities_section_string(module: &PirModule) -> (r: String)
    ensures
        r@ == quantities_section(*module),
{
    let mut s = String::new();
    let ghost qv = module.quantities@.map_values(|e: (Seq<char>, Quantity)| e.0 + " = "@ + quantity_debug(e.1));
    let mut k: usize = 0;
    assert(qv.subrange(0, 0) =~= Seq::<Seq<char>>::empty());
    assert(s@ =~= indented_lines(qv.subrange(0, 0)));
    while k < module.quantities.len()
        invariant
            k <= module.quantities@.len(),
            qv == module.quantities@.map_values(|e: (Seq<char>, Quantity)| e.0 + " = "@ + quantity_debug(e.1)),
            s@ == indented_lines(qv.subrange(0, k as int)),
        decreases module.quantities@.len() - k,
    {
        proof {
            let t = qv.subrange(0, k + 1);
            assert(t.drop_last() =~= qv.subrange(0, k as int));
        }
        let ghost before = s@;
        let (name, qty) = module.quantities.entry(k);
        let qd = quantity_debug_string(qty);
        s = cat(&[s.as_str(), "  ", name.as_str(), " = ", qd.as_str(), "\n"]);
        proof {
            reveal_with_fuel(Seq::fold_left, 7);
        }
        assert(s@ =~= indented_lines(qv.subrange(0, k + 1)));
        k = k + 1;
    }
    assert(qv.subrange(0, qv.len() as int) =~= qv);
    s
}

fn statements_section_string(module: &PirModule) -> (r: String)
    ensures
        r@ == statements_section(*module),
{
    let mut s = String::new();
    let mut k: usize = 0;
    assert(s@ =~= concat_upto(module.statements@, |x: PirStatement| stmt_fixture(x), 0));
    while k < module.statements.len()
        invariant
            k <= module.statements@.len(),
            s@ == concat_upto(module.statements@, |x: PirStatement| stmt_fixture(x), k as int),
        decreases module.statements@.len() - k,
    {
        let t = stmt_fixture_string(&module.statements[k]);
        s = concat(s.as_str(), t.as_str());
        k = k + 1;
        assert(s@ =~= concat_upto(module.statements@, |x: PirStatement| stmt_fixture(x), k as int));
    }
    s
}

fn externs_section_string(module: &PirModule) -> (r: String)
    ensures
        r@ == externs_section(*module),
{
    if module.extern_functions.len() == 0 {
        return String::new();
    }
    let mut s = String::new();
    let mut k: usize = 0;
    assert(s@ =~= concat_upto(module.extern_functions@, |f: ExternFunction| extern_text(f), 0));
    while k < module.extern_functions.len()
        invariant
            k <= module.extern_functions@.len(),
            s@ == concat_upto(module.extern_functions@, |f: ExternFunction| extern_text(f), k as int),
        decreases module.extern_functions@.len() - k,
    {
        let t = extern_string(&module.extern_functions[k]);
        s = concat(s.as_str(), t.as_str());
        k = k + 1;
        assert(s@ =~= concat_upto(module.extern_functions@, |f: ExternFunction| extern_text(f), k as int));
    }
    let r = cat(&["[extern_functions]\n", s.as_str(), "\n"]);
    proof {
        reveal_with_fuel(Seq::fold_left, 4);
    }
    r
}

/// The golden fixture text of a module.
pub fn format_golden_fixture(module: &PirModule) -> (r: String)
    requires
        module_printable(*module),
    ensures
        r@ == fixture_text(*module),
{
    let params = params_section_string(module);
    let quantities = quantities_section_string(module);
    let statements = statements_section_string(module);
    let sched = format_schedule(&module.schedule);
    let acc = format_accesses(&module.accesses);
    let ext = externs_section_string(module);
    let r = cat(&["# Naso PIR Golden Fixture\n", "# Generated by Naso Compiler\n\n", "[parameters]\n", params.as_str(), "\n",
        "[quantities]\n", quantities.as_str(), "\n", "[statements]\n", statements.as_str(), "\n", "[schedule]\n",
        sched.as_str(), "\n", "[accesses]\n", acc.as_str(), "\n", ext.as_str()]);
    proof {
        reveal_with_fuel(Seq::fold_left, 19);
    }
    assert(r@ =~= fixture_text(*module));
    r
}


/// The `{:?}` of a validation error.
pub open spec fn issue_debug(i: ValidationIssue) -> Seq<char> {
    match i {
        ValidationIssue::ScheduleError(s) => "ScheduleError("@ + debug_text(s) + ")"@,
        ValidationIssue::UnscheduledStatement(id) => "UnscheduledStatement(StmtId("@ + decimal(id as nat) + "))"@,
        ValidationIssue::ZeroQuantityInRuntime(v, id) =>
            "ZeroQuantityInRuntime("@ + debug_text(v) + ", StmtId("@ + decimal(id as nat) + "))"@,
        ValidationIssue::LinearVarNotUsed(v) => "LinearVarNotUsed("@ + debug_text(v) + ")"@,
        ValidationIssue::LinearVarUsedMultipleTimes(v, n) =>
            "LinearVarUsedMultipleTimes("@ + debug_text(v) + ", "@ + decimal(n) + ")"@,
        ValidationIssue::AccessDomainMismatch(id) => "AccessDomainMismatch(StmtId("@ + decimal(id as nat) + "))"@,
        ValidationIssue::DuplicateStatementId(id) => "DuplicateStatementId(StmtId("@ + decimal(id as nat) + "))"@,
    }
}

/// The `{:?}` of a list of validation errors.
pub open spec fn issues_debug(is: Seq<ValidationIssue>) -> Seq<char> {
    list_text(is.map_values(|i: ValidationIssue| issue_debug(i)))
}

fn issue_debug_string(e: &ValidationError) -> (r: String)
    ensures
        r@ == issue_debug(e@),
{
    let r = match e {
        ValidationError::ScheduleError(s) => {
            let d = debug_string(s.as_str());
            cat(&["ScheduleError(", d.as_str(), ")"])
        },
        ValidationError::UnscheduledStatement(id) => {
            let n = u64_to_decimal(id.0 as u64);
            cat(&["UnscheduledStatement(StmtId(", n.as_str(), "))"])
        },
        ValidationError::ZeroQuantityInRuntime(v, id) => {
            let d = debug_string(v.as_str());
            let n = u64_to_decimal(id.0 as u64);
            cat(&["ZeroQuantityInRuntime(", d.as_str(), ", StmtId(", n.as_str(), "))"])
        },
        ValidationError::LinearVarNotUsed(v) => {
            let d = debug_string(v.as_str());
            cat(&["LinearVarNotUsed(", d.as_str(), ")"])
        },
        ValidationError::LinearVarUsedMultipleTimes(v, k) => {
            let d = debug_string(v.as_str());
            let n = u64_to_decimal(*k as u64);
            cat(&["LinearVarUsedMultipleTimes(", d.as_str(), ", ", n.as_str(), ")"])
        },
        ValidationError::AccessDomainMismatch(id) => {
            let n = u64_to_decimal(id.0 as u64);
            cat(&["AccessDomainMismatch(StmtId(", n.as_str(), "))"])
        },
        ValidationError::DuplicateStatementId(id) => {
            let n = u64_to_decimal(id.0 as u64);
            cat(&["DuplicateStatementId(StmtId(", n.as_str(), "))"])
        },
    };
    proof {
        reveal_with_fuel(Seq::fold_left, 6);
    }
    assert(r@ =~= issue_debug(e@));
    r
}

/// The `{:?}` of a list of validation errors.
pub fn validation_errors_debug(es: &Vec<ValidationError>) -> (r: String)
    ensures
        r@ == issues_debug(issues_view(es@)),
{
    let ghost ts = issues_view(es@).map_values(|i: ValidationIssue| issue_debug(i));
    let mut out = String::new();
    let mut k: usize = 0;
    assert(out@ =~= join_texts(ts.subrange(0, 0), ", "@));
    while k < es.len()
        invariant
            k <= es@.len(),
            ts == issues_view(es@).map_values(|i: ValidationIssue| issue_debug(i)),
            ts.len() == es@.len(),
            out@ == join_texts(ts.subrange(0, k as int), ", "@),
        decreases es@.len() - k,
    {
        proof {
            lemma_join_step(ts, ", "@, k as int);
        }
        let d = issue_debug_string(&es[k]);
        assert(d@ == ts[k as int]);
        if k == 0 {
            out = d;
        } else {
            let a = concat(out.as_str(), ", ");
            out = concat(a.as_str(), d.as_str());
        }
        k = k + 1;
    }
    assert(ts.subrange(0, ts.len() as int) =~= ts);
    let a = concat("[", out.as_str());
    concat(a.as_str(), "]")
}

} // verus!
