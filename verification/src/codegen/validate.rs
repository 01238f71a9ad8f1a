//! Validation reports for emitted modules and the structural checks of a
//! QIR module's text, and the structural comparison of PIR text with the
//! LLVM IR or QIR emitted for it.

use vstd::prelude::*;
use crate::lines::{
    before_char, lines, second_piece, segments, split_first, split_second, text_lines, trim, trim_seq,
};
use crate::codegen::error::CodegenError;
use crate::text::{concat, contains_seq, decimal, lowercase, push_char, str_contains, to_lowercase, u64_to_decimal};

verus! {

/// Validation report for an LLVM module.
#[derive(Debug)]
pub struct ValidationReport {
    pub passed_checks: Vec<String>,
    pub warnings: Vec<ValidationWarning>,
    pub errors: Vec<ValidationError>,
}

#[derive(Debug)]
pub struct ValidationWarning {
    pub check: String,
    pub message: String,
}

#[derive(Debug)]
pub struct ValidationError {
    pub check: String,
    pub message: String,
    pub severity: ValidationSeverity,
}

#[derive(Debug, Clone, Copy, PartialEq, Eq, Structural)]
pub enum ValidationSeverity {
    Warning,
    Error,
    Fatal,
}

/// `"<title>: <p> passed, <w> warnings, <e> errors"`.
pub open spec fn summary_text(title: Seq<char>, p: nat, w: nat, e: nat) -> Seq<char> {
    title + ": "@ + decimal(p) + " passed, "@ + decimal(w) + " warnings, "@ + decimal(e) + " errors"@
}

fn counts_summary(title: &str, p: usize, w: usize, e: usize) -> (r: String)
    ensures
        r@ == summary_text(title@, p as nat, w as nat, e as nat),
{
    let s = concat(title, ": ");
    let d = u64_to_decimal(p as u64);
    let s = concat(s.as_str(), d.as_str());
    let s = concat(s.as_str(), " passed, ");
    let d = u64_to_decimal(w as u64);
    let s = concat(s.as_str(), d.as_str());
    let s = concat(s.as_str(), " warnings, ");
    let d = u64_to_decimal(e as u64);
    let s = concat(s.as_str(), d.as_str());
    concat(s.as_str(), " errors")
}

impl ValidationReport {
    pub fn new() -> (r: Self)
        ensures
            r.passed_checks@.len() == 0,
            r.warnings@.len() == 0,
            r.errors@.len() == 0,
    {
        ValidationReport { passed_checks: Vec::new(), warnings: Vec::new(), errors: Vec::new() }
    }

    /// Whether the report holds a fatal error.
    pub fn has_errors(&self) -> (r: bool)
        ensures
            r == exists|i: int| 0 <= i < self.errors@.len() && (#[trigger] self.errors@[i]).severity == ValidationSeverity::Fatal,
    {
        let mut i: usize = 0;
        while i < self.errors.len()
            invariant
                i <= self.errors@.len(),
                forall|j: int| 0 <= j < i ==> (#[trigger] self.errors@[j]).severity != ValidationSeverity::Fatal,
            decreases self.errors@.len() - i,
        {
            if self.errors[i].severity == ValidationSeverity::Fatal {
                return true;
            }
            i = i + 1;
        }
        false
    }

    pub fn has_warnings(&self) -> (r: bool)
        ensures
            r == (self.warnings@.len() > 0),
    {
        self.warnings.len() > 0
    }

    pub fn summary(&self) -> (r: String)
        ensures
            r@ == summary_text("Validation Report"@, self.passed_checks@.len(), self.warnings@.len(), self.errors@.len()),
    {
        counts_summary("Validation Report", self.passed_checks.len(), self.warnings.len(), self.errors.len())
    }
}

/// QIR validation report.
#[derive(Debug)]
pub struct QirValidationReport {
    pub passed_checks: Vec<String>,
    pub warnings: Vec<QirValidationWarning>,
    pub errors: Vec<QirValidationError>,
}

#[derive(Debug)]
pub struct QirValidationWarning {
    pub check: String,
    pub message: String,
}

#[derive(Debug)]
pub struct QirValidationError {
    pub check: String,
    pub message: String,
    pub severity: ValidationSeverity,
}

impl QirValidationReport {
    pub fn new() -> (r: Self)
        ensures
            r.passed_checks@.len() == 0,
            r.warnings@.len() == 0,
            r.errors@.len() == 0,
    {
        QirValidationReport { passed_checks: Vec::new(), warnings: Vec::new(), errors: Vec::new() }
    }

    pub fn has_errors(&self) -> (r: bool)
        ensures
            r == (self.errors@.len() > 0),
    {
        self.errors.len() > 0
    }

    pub fn summary(&self) -> (r: String)
        ensures
            r@ == summary_text("QIR Validation"@, self.passed_checks@.len(), self.warnings@.len(), self.errors@.len()),
    {
        counts_summary("QIR Validation", self.passed_checks.len(), self.warnings.len(), self.errors.len())
    }
}

/// The checks made on each line, by number.
pub open spec fn line_check(k: int, l: Seq<char>) -> bool {
    if k == 0 {
        contains_seq(l, "target triple"@) || contains_seq(l, "target datalayout"@)
    } else if k == 1 {
        contains_seq(l, "__quantum__"@)
    } else if k == 2 {
        contains_seq(l, "define"@) && (contains_seq(l, "main"@) || contains_seq(l, "entry"@))
    } else if k == 3 {
        contains_seq(l, "__quantum__rt__qubit_allocate"@) || contains_seq(l, "__quantum__rt__qubit_allocate_array"@)
    } else {
        contains_seq(l, "__quantum__rt__result_get_one"@) || contains_seq(l, "__quantum__rt__measure"@)
    }
}

/// Some line of the text passes check `k`. A pattern without line breaks
/// lies in a line of `str::lines` exactly when it lies in one of these
/// segments.
pub open spec fn some_line(text: Seq<char>, k: int) -> bool {
    exists|i: int| 0 <= i < segments(text).len() && line_check(k, #[trigger] segments(text)[i])
}

fn check_line(k: usize, l: &str) -> (r: bool)
    requires
        k < 5,
    ensures
        r == line_check(k as int, l@),
{
    if k == 0 {
        str_contains(l, "target triple") || str_contains(l, "target datalayout")
    } else if k == 1 {
        str_contains(l, "__quantum__")
    } else if k == 2 {
        str_contains(l, "define") && (str_contains(l, "main") || str_contains(l, "entry"))
    } else if k == 3 {
        str_contains(l, "__quantum__rt__qubit_allocate") || str_contains(l, "__quantum__rt__qubit_allocate_array")
    } else {
        str_contains(l, "__quantum__rt__result_get_one") || str_contains(l, "__quantum__rt__measure")
    }
}

/// Whether some line of the text passes check `k`.
fn any_line(text: &str, k: usize) -> (r: bool)
    requires
        k < 5,
    ensures
        r == some_line(text@, k as int),
{
    let chars = crate::text::chars_of(text);
    let mut current = String::new();
    let mut found = false;
    let mut i: usize = 0;
    assert(text@.subrange(0, 0) =~= Seq::<char>::empty());
    assert(current@ =~= Seq::<char>::empty());
    while i < chars.len()
        invariant
            k < 5,
            chars@ == text@,
            i <= chars@.len(),
            segments(text@.subrange(0, i as int)).len() >= 1,
            current@ == segments(text@.subrange(0, i as int)).last(),
            found == exists|t: int| 0 <= t < segments(text@.subrange(0, i as int)).len() - 1
                && line_check(k as int, #[trigger] segments(text@.subrange(0, i as int))[t]),
        decreases chars@.len() - i,
    {
        let c = chars[i];
        let ghost pre = text@.subrange(0, i as int);
        let ghost next = text@.subrange(0, i + 1);
        proof {
            assert(next.drop_last() =~= pre);
            assert(next.last() == c);
        }
        if c == '\n' {
            let hit = check_line(k, current.as_str());
            proof {
                let sp = segments(pre);
                let sn = segments(next);
                assert(sn == sp.push(Seq::<char>::empty()));
                if hit {
                    assert(sn[sp.len() - 1] == sp.last());
                }
                if found {
                    let t = choose|t: int| 0 <= t < sp.len() - 1 && line_check(k as int, #[trigger] sp[t]);
                    assert(sn[t] == sp[t]);
                }
                if (exists|t: int| 0 <= t < sn.len() - 1 && line_check(k as int, #[trigger] sn[t])) {
                    let t = choose|t: int| 0 <= t < sn.len() - 1 && line_check(k as int, #[trigger] sn[t]);
                    if t < sp.len() - 1 {
                        assert(sp[t] == sn[t]);
                    }
                }
            }
            found = found || hit;
            current = String::new();
            assert(current@ =~= Seq::<char>::empty());
        } else {
            proof {
                let sp = segments(pre);
                let sn = segments(next);
                assert(sn == sp.update(sp.len() - 1, sp.last().push(c)));
                if found {
                    let t = choose|t: int| 0 <= t < sp.len() - 1 && line_check(k as int, #[trigger] sp[t]);
                    assert(sn[t] == sp[t]);
                }
                if (exists|t: int| 0 <= t < sn.len() - 1 && line_check(k as int, #[trigger] sn[t])) {
                    let t = choose|t: int| 0 <= t < sn.len() - 1 && line_check(k as int, #[trigger] sn[t]);
                    assert(sp[t] == sn[t]);
                }
            }
            current = push_char(current, c);
        }
        i = i + 1;
    }
    let last = check_line(k, current.as_str());
    proof {
        assert(text@.subrange(0, chars@.len() as int) =~= text@);
        let s = segments(text@);
        if last {
            assert(line_check(k as int, s[s.len() - 1]));
        }
        if some_line(text@, k as int) {
            let t = choose|t: int| 0 <= t < s.len() && line_check(k as int, #[trigger] s[t]);
            if t < s.len() - 1 {
            } else {
                assert(s[t] == s.last());
            }
        }
    }
    found || last
}

/// The names, messages and order of the QIR module checks.
pub open spec fn check_name(k: int) -> Seq<char> {
    if k == 0 { "QIR module declaration"@ }
    else if k == 1 { "Quantum intrinsics present"@ }
    else if k == 2 { "Entry point found"@ }
    else if k == 3 { "Qubit allocation present"@ }
    else { "Measurement present"@ }
}

pub open spec fn warning_check(k: int) -> Seq<char> {
    if k == 0 { "QIR module declaration"@ }
    else if k == 1 { "Quantum intrinsics"@ }
    else if k == 2 { "Entry point"@ }
    else if k == 3 { "Qubit allocation"@ }
    else { "Measurement"@ }
}

pub open spec fn warning_message(k: int) -> Seq<char> {
    if k == 0 { "Missing target triple/datalayout"@ }
    else if k == 1 { "No quantum intrinsics found"@ }
    else if k == 2 { "No main/entry function found"@ }
    else if k == 3 { "No qubit allocation found"@ }
    else { "No measurement operations found"@ }
}

/// Passed checks among the first `k`, in order.
pub open spec fn qir_passed(text: Seq<char>, k: int) -> Seq<Seq<char>>
    decreases k,
{
    if k <= 0 {
        Seq::empty()
    } else if some_line(text, k - 1) {
        qir_passed(text, k - 1).push(check_name(k - 1))
    } else {
        qir_passed(text, k - 1)
    }
}

/// Warnings (check, message) among the first `k` checks, in order.
pub open spec fn qir_warnings(text: Seq<char>, k: int) -> Seq<(Seq<char>, Seq<char>)>
    decreases k,
{
    if k <= 0 {
        Seq::empty()
    } else if !some_line(text, k - 1) {
        qir_warnings(text, k - 1).push((warning_check(k - 1), warning_message(k - 1)))
    } else {
        qir_warnings(text, k - 1)
    }
}

/// A list of strings as values.
pub open spec fn texts(v: Seq<String>) -> Seq<Seq<char>> {
    v.map_values(|s: String| s@)
}

/// Warnings as values.
pub open spec fn qir_warnings_view(v: Seq<QirValidationWarning>) -> Seq<(Seq<char>, Seq<char>)> {
    v.map_values(|w: QirValidationWarning| (w.check@, w.message@))
}

fn check_name_of(k: usize) -> (r: String)
    requires
        k < 5,
    ensures
        r@ == check_name(k as int),
{
    if k == 0 { "QIR module declaration".to_string() }
    else if k == 1 { "Quantum intrinsics present".to_string() }
    else if k == 2 { "Entry point found".to_string() }
    else if k == 3 { "Qubit allocation present".to_string() }
    else { "Measurement present".to_string() }
}

fn warning_of(k: usize) -> (r: QirValidationWarning)
    requires
        k < 5,
    ensures
        r.check@ == warning_check(k as int),
        r.message@ == warning_message(k as int),
{
    if k == 0 {
        QirValidationWarning { check: "QIR module declaration".to_string(), message: "Missing target triple/datalayout".to_string() }
    } else if k == 1 {
        QirValidationWarning { check: "Quantum intrinsics".to_string(), message: "No quantum intrinsics found".to_string() }
    } else if k == 2 {
        QirValidationWarning { check: "Entry point".to_string(), message: "No main/entry function found".to_string() }
    } else if k == 3 {
        QirValidationWarning { check: "Qubit allocation".to_string(), message: "No qubit allocation found".to_string() }
    } else {
        QirValidationWarning { check: "Measurement".to_string(), message: "No measurement operations found".to_string() }
    }
}

/// Checks a QIR module's text line by line: module declaration, quantum
/// intrinsics, entry point, qubit allocation and measurement. Each check
/// either passes or leaves a warning, in that order.
pub fn validate_qir_module(qir_module: &str) -> (r: QirValidationReport)
    ensures
        texts(r.passed_checks@) == qir_passed(qir_module@, 5),
        qir_warnings_view(r.warnings@) == qir_warnings(qir_module@, 5),
        r.errors@.len() == 0,
{
    let mut report = QirValidationReport::new();
    let mut k: usize = 0;
    assert(texts(report.passed_checks@) =~= qir_passed(qir_module@, 0));
    assert(qir_warnings_view(report.warnings@) =~= qir_warnings(qir_module@, 0));
    while k < 5
        invariant
            k <= 5,
            texts(report.passed_checks@) == qir_passed(qir_module@, k as int),
            qir_warnings_view(report.warnings@) == qir_warnings(qir_module@, k as int),
            report.errors@.len() == 0,
        decreases 5 - k,
    {
        if any_line(qir_module, k) {
            let name = check_name_of(k);
            let ghost before = report.passed_checks@;
            report.passed_checks.push(name);
            assert(texts(report.passed_checks@) =~= texts(before).push(name@));
        } else {
            let w = warning_of(k);
            let ghost before = report.warnings@;
            report.warnings.push(w);
            assert(qir_warnings_view(report.warnings@) =~= qir_warnings_view(before).push((w.check@, w.message@)));
        }
        k = k + 1;
    }
    report
}

/// Report of a structural comparison of PIR with emitted code.
#[derive(Debug)]
pub struct StructuralReport {
    pub matched_elements: Vec<String>,
    pub mismatched_elements: Vec<String>,
}

impl StructuralReport {
    pub fn new() -> (r: Self)
        ensures
            r.matched_elements@.len() == 0,
            r.mismatched_elements@.len() == 0,
    {
        StructuralReport { matched_elements: Vec::new(), mismatched_elements: Vec::new() }
    }

    pub fn all_matched(&self) -> (r: bool)
        ensures
            r == (self.mismatched_elements@.len() == 0),
    {
        self.mismatched_elements.len() == 0
    }

    pub fn summary(&self) -> (r: String)
        ensures
            r@ == "Structural Verification: "@ + decimal(self.matched_elements@.len()) + " matched, "@
                + decimal(self.mismatched_elements@.len()) + " mismatched"@,
    {
        let s = concat("Structural Verification: ", u64_to_decimal(self.matched_elements.len() as u64).as_str());
        let s = concat(s.as_str(), " matched, ");
        let d = u64_to_decimal(self.mismatched_elements.len() as u64);
        let s = concat(s.as_str(), d.as_str());
        concat(s.as_str(), " mismatched")
    }
}


/// The outline of a PIR text: its statement, domain and array names.
#[derive(Debug)]
pub struct PirStructure {
    pub statements: Vec<String>,
    pub domains: Vec<String>,
    pub arrays: Vec<String>,
}

/// An outline as values.
#[verifier::ext_equal]
pub struct StructureModel {
    pub statements: Seq<Seq<char>>,
    pub domains: Seq<Seq<char>>,
    pub arrays: Seq<Seq<char>>,
}

impl View for PirStructure {
    type V = StructureModel;

    open spec fn view(&self) -> StructureModel {
        StructureModel { statements: texts(self.statements@), domains: texts(self.domains@), arrays: texts(self.arrays@) }
    }
}

impl Default for PirStructure {
    fn default() -> (r: Self)
        ensures
            r@.statements.len() == 0,
            r@.domains.len() == 0,
            r@.arrays.len() == 0,
    {
        PirStructure { statements: Vec::new(), domains: Vec::new(), arrays: Vec::new() }
    }
}

/// What one line adds to an outline, once trimmed: a line starting with `S`
/// and holding `=` names a statement (what precedes the `=`); one holding
/// `domain` and `=` names a domain; one holding `array_name` names the array
/// in its first pair of double quotes.
pub open spec fn outline_line(st: StructureModel, line: Seq<char>) -> StructureModel {
    let l = trim_seq(line);
    if l.len() > 0 && l[0] == 'S' && l.contains('=') {
        StructureModel { statements: st.statements.push(trim_seq(before_char(l, '='))), ..st }
    } else if contains_seq(l, "domain"@) && l.contains('=') {
        StructureModel { domains: st.domains.push(trim_seq(before_char(l, '='))), ..st }
    } else if contains_seq(l, "array_name"@) {
        match second_piece(l, '"') {
            Some(a) => StructureModel { arrays: st.arrays.push(a), ..st },
            None => st,
        }
    } else {
        st
    }
}

/// The outline of a sequence of lines.
pub open spec fn outline(ls: Seq<Seq<char>>) -> StructureModel
    decreases ls.len(),
{
    if ls.len() == 0 {
        StructureModel { statements: Seq::empty(), domains: Seq::empty(), arrays: Seq::empty() }
    } else {
        outline_line(outline(ls.drop_last()), ls.last())
    }
}

/// Each item that passes the test, after the prefix, in order.
pub open spec fn messages_where(xs: Seq<Seq<char>>, keep: spec_fn(Seq<char>) -> bool, prefix: Seq<char>) -> Seq<Seq<char>>
    decreases xs.len(),
{
    if xs.len() == 0 {
        Seq::empty()
    } else {
        let prev = messages_where(xs.drop_last(), keep, prefix);
        if keep(xs.last()) {
            prev.push(prefix + xs.last())
        } else {
            prev
        }
    }
}

proof fn lemma_messages_step(xs: Seq<Seq<char>>, keep: spec_fn(Seq<char>) -> bool, prefix: Seq<char>, i: int)
    requires
        0 <= i < xs.len(),
    ensures
        messages_where(xs.subrange(0, i + 1), keep, prefix) == if keep(xs[i]) {
            messages_where(xs.subrange(0, i), keep, prefix).push(prefix + xs[i])
        } else {
            messages_where(xs.subrange(0, i), keep, prefix)
        },
{
    assert(xs.subrange(0, i + 1).drop_last() =~= xs.subrange(0, i));
}

/// Whether the character occurs in the text.
fn has_char(s: &str, c: char) -> (r: bool)
    ensures
        r == s@.contains(c),
{
    let chars = crate::text::chars_of(s);
    let mut i: usize = 0;
    while i < chars.len()
        invariant
            chars@ == s@,
            i <= chars@.len(),
            forall|j: int| 0 <= j < i ==> s@[j] != c,
        decreases chars@.len() - i,
    {
        if chars[i] == c {
            assert(s@[i as int] == c);
            return true;
        }
        i = i + 1;
    }
    false
}

/// A statement has its function in LLVM IR: `fn_` and its lowercase name,
/// or the text `define.*` and its name.
pub open spec fn has_function(s: Seq<char>, llvm: Seq<char>) -> bool {
    contains_seq(llvm, "fn_"@ + lowercase(s)) || contains_seq(llvm, "define.*"@ + s)
}

/// An array is a global (`@name`) or a value (`%name`) in LLVM IR.
pub open spec fn has_allocation(a: Seq<char>, llvm: Seq<char>) -> bool {
    contains_seq(llvm, "@"@ + a) || contains_seq(llvm, "%"@ + a)
}

/// Some domain name holds `Band`.
pub open spec fn some_band(ds: Seq<Seq<char>>) -> bool {
    exists|i: int| 0 <= i < ds.len() && contains_seq(#[trigger] ds[i], "Band"@)
}

/// LLVM IR has a loop: a branch to a label, or the word `loop`.
pub open spec fn has_loop(llvm: Seq<char>) -> bool {
    contains_seq(llvm, "br label"@) || contains_seq(llvm, "loop"@)
}

/// The test of a statement's function, for a given LLVM IR.
pub open spec fn with_function(llvm: Seq<char>) -> spec_fn(Seq<char>) -> bool {
    |s: Seq<char>| has_function(s, llvm)
}

/// The test of a statement without a function.
pub open spec fn without_function(llvm: Seq<char>) -> spec_fn(Seq<char>) -> bool {
    |s: Seq<char>| !has_function(s, llvm)
}

/// The test of an array's allocation.
pub open spec fn with_allocation(llvm: Seq<char>) -> spec_fn(Seq<char>) -> bool {
    |a: Seq<char>| has_allocation(a, llvm)
}

/// The test of an array without allocation.
pub open spec fn without_allocation(llvm: Seq<char>) -> spec_fn(Seq<char>) -> bool {
    |a: Seq<char>| !has_allocation(a, llvm)
}

/// The test of a quantum statement that the QIR serves.
pub open spec fn quantum_served(qir: Seq<char>) -> spec_fn(Seq<char>) -> bool {
    |s: Seq<char>| is_quantum_stmt(s) && contains_seq(qir, "__quantum__"@)
}

/// The test of a quantum statement that the QIR does not serve.
pub open spec fn quantum_unserved(qir: Seq<char>) -> spec_fn(Seq<char>) -> bool {
    |s: Seq<char>| is_quantum_stmt(s) && !contains_seq(qir, "__quantum__"@)
}

/// What the comparison with LLVM IR finds present: the functions of the
/// statements, the allocations of the arrays, and the loops where a domain
/// is a band.
pub open spec fn llvm_matched(p: StructureModel, llvm: Seq<char>) -> Seq<Seq<char>> {
    messages_where(p.statements, with_function(llvm), "Statement -> Function: "@)
        + messages_where(p.arrays, with_allocation(llvm), "Array -> Global/Value: "@)
        + if some_band(p.domains) && has_loop(llvm) { seq!["Loop structure"@] } else { Seq::empty() }
}

/// What the comparison with LLVM IR finds missing.
pub open spec fn llvm_mismatched(p: StructureModel, llvm: Seq<char>) -> Seq<Seq<char>> {
    messages_where(p.statements, without_function(llvm), "Missing function for statement: "@)
        + messages_where(p.arrays, without_allocation(llvm), "Missing allocation for array: "@)
        + if some_band(p.domains) && !has_loop(llvm) { seq!["Missing loop structure"@] } else { Seq::empty() }
}

/// A statement name that denotes a quantum operation.
pub open spec fn is_quantum_stmt(s: Seq<char>) -> bool {
    contains_seq(s, "quantum"@) || contains_seq(s, "H "@) || contains_seq(s, "CNOT"@) || contains_seq(s, "measure"@)
}

/// An array that holds qubits: its name holds `q` (and so `qubit`).
pub open spec fn some_qubit_array(arrays: Seq<Seq<char>>) -> bool {
    exists|i: int| 0 <= i < arrays.len() && ((#[trigger] arrays[i]).contains('q') || contains_seq(arrays[i], "qubit"@))
}

/// What the comparison with QIR finds present: the quantum statements when
/// the QIR calls the quantum runtime, and the qubit allocation.
pub open spec fn qir_matched(p: StructureModel, qir: Seq<char>) -> Seq<Seq<char>> {
    messages_where(p.statements, quantum_served(qir), "Quantum statement -> QIR: "@)
        + if some_qubit_array(p.arrays) && contains_seq(qir, "__quantum__rt__qubit_allocate"@) {
            seq!["Qubit register allocation"@]
        } else {
            Seq::empty()
        }
}

/// What the comparison with QIR finds missing.
pub open spec fn qir_mismatched(p: StructureModel, qir: Seq<char>) -> Seq<Seq<char>> {
    messages_where(p.statements, quantum_unserved(qir), "Missing QIR for quantum statement: "@)
        + if some_qubit_array(p.arrays) && !contains_seq(qir, "__quantum__rt__qubit_allocate"@) {
            seq!["Missing qubit allocation in QIR"@]
        } else {
            Seq::empty()
        }
}

/// Compares PIR text with the code emitted for it.
pub struct StructuralVerifier;

impl StructuralVerifier {
    /// Compares PIR text with LLVM IR.
    pub fn verify_pir_to_llvm(pir_module: &str, llvm_ir: &str) -> (r: Result<StructuralReport, CodegenError>)
        ensures
            r matches Ok(rep) && texts(rep.matched_elements@) == llvm_matched(outline(text_lines(pir_module@)), llvm_ir@)
                && texts(rep.mismatched_elements@) == llvm_mismatched(outline(text_lines(pir_module@)), llvm_ir@),
    {
        let mut report = StructuralReport::new();
        let pir_structure = match Self::parse_pir_structure(pir_module) {
            Ok(p) => p,
            Err(e) => {
                return Err(e);
            },
        };
        proof {
            assert(texts(report.matched_elements@) =~= Seq::<Seq<char>>::empty());
            assert(texts(report.mismatched_elements@) =~= Seq::<Seq<char>>::empty());
        }
        match Self::verify_llvm_matches_pir(&pir_structure, llvm_ir, &mut report) {
            Ok(()) => {},
            Err(e) => {
                return Err(e);
            },
        }
        proof {
            assert(texts(report.matched_elements@) =~= llvm_matched(outline(text_lines(pir_module@)), llvm_ir@));
            assert(texts(report.mismatched_elements@) =~= llvm_mismatched(outline(text_lines(pir_module@)), llvm_ir@));
        }
        Ok(report)
    }

    /// Compares PIR text with QIR.
    pub fn verify_pir_to_qir(pir_module: &str, qir: &str) -> (r: Result<StructuralReport, CodegenError>)
        ensures
            r matches Ok(rep) && texts(rep.matched_elements@) == qir_matched(outline(text_lines(pir_module@)), qir@)
                && texts(rep.mismatched_elements@) == qir_mismatched(outline(text_lines(pir_module@)), qir@),
    {
        let mut report = StructuralReport::new();
        let pir_structure = match Self::parse_pir_structure(pir_module) {
            Ok(p) => p,
            Err(e) => {
                return Err(e);
            },
        };
        proof {
            assert(texts(report.matched_elements@) =~= Seq::<Seq<char>>::empty());
            assert(texts(report.mismatched_elements@) =~= Seq::<Seq<char>>::empty());
        }
        match Self::verify_qir_matches_pir(&pir_structure, qir, &mut report) {
            Ok(()) => {},
            Err(e) => {
                return Err(e);
            },
        }
        proof {
            assert(texts(report.matched_elements@) =~= qir_matched(outline(text_lines(pir_module@)), qir@));
            assert(texts(report.mismatched_elements@) =~= qir_mismatched(outline(text_lines(pir_module@)), qir@));
        }
        Ok(report)
    }

    /// The outline of a PIR text, line by line.
    fn parse_pir_structure(pir: &str) -> (r: Result<PirStructure, CodegenError>)
        ensures
            r matches Ok(p) && p@ == outline(text_lines(pir@)),
    {
        let mut structure = PirStructure::default();
        let ls = lines(pir);
        let ghost lv = ls@.map_values(|l: String| l@);
        let mut i: usize = 0;
        assert(lv.subrange(0, 0) =~= Seq::<Seq<char>>::empty());
        assert(structure@ =~= outline(lv.subrange(0, 0)));
        while i < ls.len()
            invariant
                i <= ls@.len(),
                lv == ls@.map_values(|l: String| l@),
                structure@ == outline(lv.subrange(0, i as int)),
            decreases ls@.len() - i,
        {
            let line = trim(ls[i].as_str());
            let lst = line.as_str();
            let ghost st0 = structure@;
            proof {
                assert(lv.subrange(0, i + 1).drop_last() =~= lv.subrange(0, i as int));
                assert(lv[i as int] == ls@[i as int]@);
            }
            let first_is_s = line.as_str().unicode_len() > 0 && line.as_str().get_char(0) == 'S';
            if first_is_s && has_char(lst, '=') {
                let name = trim(split_first(lst, '=').as_str());
                structure.statements.push(name);
                proof {
                    assert(structure@ =~= outline_line(st0, lv[i as int]));
                }
            } else if str_contains(lst, "domain") && has_char(lst, '=') {
                let name = trim(split_first(lst, '=').as_str());
                structure.domains.push(name);
                proof {
                    assert(structure@ =~= outline_line(st0, lv[i as int]));
                }
            } else if str_contains(lst, "array_name") {
                match split_second(lst, '"') {
                    Some(arr) => {
                        structure.arrays.push(arr);
                        proof {
                            assert(structure@ =~= outline_line(st0, lv[i as int]));
                        }
                    },
                    None => {},
                }
            }
            i = i + 1;
        }
        proof {
            assert(lv.subrange(0, lv.len() as int) =~= lv);
        }
        Ok(structure)
    }

    /// Adds to the report what LLVM IR holds of the outline and what it lacks.
    fn verify_llvm_matches_pir(pir: &PirStructure, llvm: &str, report: &mut StructuralReport) -> (r: Result<(), CodegenError>)
        ensures
            r is Ok,
            texts(final(report).matched_elements@) == texts(old(report).matched_elements@) + llvm_matched(pir@, llvm@),
            texts(final(report).mismatched_elements@) == texts(old(report).mismatched_elements@) + llvm_mismatched(pir@, llvm@),
    {
        let ghost p = pir@;
        let ghost m0 = texts(report.matched_elements@);
        let ghost x0 = texts(report.mismatched_elements@);
        let ghost yes_s = with_function(llvm@);
        let ghost no_s = without_function(llvm@);
        let mut i: usize = 0;
        assert(p.statements.subrange(0, 0) =~= Seq::<Seq<char>>::empty());
        assert(m0 + Seq::<Seq<char>>::empty() =~= m0);
        assert(x0 + Seq::<Seq<char>>::empty() =~= x0);
        while i < pir.statements.len()
            invariant
                i <= pir.statements@.len(),
                p == pir@,
                yes_s == with_function(llvm@),
                no_s == without_function(llvm@),
                texts(report.matched_elements@) == m0 + messages_where(p.statements.subrange(0, i as int), yes_s, "Statement -> Function: "@),
                texts(report.mismatched_elements@) == x0 + messages_where(p.statements.subrange(0, i as int), no_s, "Missing function for statement: "@),
            decreases pir.statements@.len() - i,
        {
            let stmt = pir.statements[i].as_str();
            proof {
                assert(p.statements[i as int] == stmt@);
                lemma_messages_step(p.statements, yes_s, "Statement -> Function: "@, i as int);
                lemma_messages_step(p.statements, no_s, "Missing function for statement: "@, i as int);
            }
            let lower = to_lowercase(stmt);
            let fn_name = concat("fn_", lower.as_str());
            let pattern = concat("define.*", stmt);
            let ghost a = texts(report.matched_elements@);
            let ghost b = texts(report.mismatched_elements@);
            let found = str_contains(llvm, fn_name.as_str()) || str_contains(llvm, pattern.as_str());
            proof {
                assert(found == has_function(stmt@, llvm@));
                assert(yes_s(p.statements[i as int]) == found);
                assert(no_s(p.statements[i as int]) == !found);
            }
            if found {
                report.matched_elements.push(concat("Statement -> Function: ", stmt));
                assert(texts(report.matched_elements@) =~= a.push("Statement -> Function: "@ + stmt@));
            } else {
                report.mismatched_elements.push(concat("Missing function for statement: ", stmt));
                assert(texts(report.mismatched_elements@) =~= b.push("Missing function for statement: "@ + stmt@));
            }
            assert(texts(report.matched_elements@) =~= m0 + messages_where(p.statements.subrange(0, i + 1), yes_s, "Statement -> Function: "@));
            assert(texts(report.mismatched_elements@) =~= x0 + messages_where(p.statements.subrange(0, i + 1), no_s, "Missing function for statement: "@));
            i = i + 1;
        }
        proof {
            assert(p.statements.subrange(0, p.statements.len() as int) =~= p.statements);
        }
        let ghost m1 = texts(report.matched_elements@);
        let ghost x1 = texts(report.mismatched_elements@);
        let ghost yes_a = with_allocation(llvm@);
        let ghost no_a = without_allocation(llvm@);
        let mut i: usize = 0;
        assert(p.arrays.subrange(0, 0) =~= Seq::<Seq<char>>::empty());
        assert(m1 + Seq::<Seq<char>>::empty() =~= m1);
        assert(x1 + Seq::<Seq<char>>::empty() =~= x1);
        while i < pir.arrays.len()
            invariant
                i <= pir.arrays@.len(),
                p == pir@,
                yes_a == with_allocation(llvm@),
                no_a == without_allocation(llvm@),
                texts(report.matched_elements@) == m1 + messages_where(p.arrays.subrange(0, i as int), yes_a, "Array -> Global/Value: "@),
                texts(report.mismatched_elements@) == x1 + messages_where(p.arrays.subrange(0, i as int), no_a, "Missing allocation for array: "@),
            decreases pir.arrays@.len() - i,
        {
            let arr = pir.arrays[i].as_str();
            proof {
                assert(p.arrays[i as int] == arr@);
                lemma_messages_step(p.arrays, yes_a, "Array -> Global/Value: "@, i as int);
                lemma_messages_step(p.arrays, no_a, "Missing allocation for array: "@, i as int);
            }
            let global_name = concat("@", arr);
            let value_name = concat("%", arr);
            let ghost a = texts(report.matched_elements@);
            let ghost b = texts(report.mismatched_elements@);
            let found = str_contains(llvm, global_name.as_str()) || str_contains(llvm, value_name.as_str());
            proof {
                assert(found == has_allocation(arr@, llvm@));
                assert(yes_a(p.arrays[i as int]) == found);
                assert(no_a(p.arrays[i as int]) == !found);
            }
            if found {
                report.matched_elements.push(concat("Array -> Global/Value: ", arr));
                assert(texts(report.matched_elements@) =~= a.push("Array -> Global/Value: "@ + arr@));
            } else {
                report.mismatched_elements.push(concat("Missing allocation for array: ", arr));
                assert(texts(report.mismatched_elements@) =~= b.push("Missing allocation for array: "@ + arr@));
            }
            assert(texts(report.matched_elements@) =~= m1 + messages_where(p.arrays.subrange(0, i + 1), yes_a, "Array -> Global/Value: "@));
            assert(texts(report.mismatched_elements@) =~= x1 + messages_where(p.arrays.subrange(0, i + 1), no_a, "Missing allocation for array: "@));
            i = i + 1;
        }
        proof {
            assert(p.arrays.subrange(0, p.arrays.len() as int) =~= p.arrays);
        }
        let ghost m2 = texts(report.matched_elements@);
        let ghost x2 = texts(report.mismatched_elements@);
        let mut band = false;
        let mut k: usize = 0;
        while k < pir.domains.len() && !band
            invariant
                k <= pir.domains@.len(),
                p == pir@,
                band ==> some_band(p.domains),
                !band ==> forall|j: int| 0 <= j < k ==> !contains_seq(#[trigger] p.domains[j], "Band"@),
            decreases pir.domains@.len() - k,
        {
            assert(p.domains[k as int] == pir.domains@[k as int]@);
            if str_contains(pir.domains[k].as_str(), "Band") {
                band = true;
            }
            k = k + 1;
        }
        if band {
            if str_contains(llvm, "br label") || str_contains(llvm, "loop") {
                report.matched_elements.push("Loop structure".to_string());
                assert(texts(report.matched_elements@) =~= m2.push("Loop structure"@));
            } else {
                report.mismatched_elements.push("Missing loop structure".to_string());
                assert(texts(report.mismatched_elements@) =~= x2.push("Missing loop structure"@));
            }
        }
        proof {
            assert(texts(report.matched_elements@) =~= m0 + llvm_matched(p, llvm@));
            assert(texts(report.mismatched_elements@) =~= x0 + llvm_mismatched(p, llvm@));
        }
        Ok(())
    }

    /// Adds to the report what QIR holds of the outline and what it lacks.
    fn verify_qir_matches_pir(pir: &PirStructure, qir: &str, report: &mut StructuralReport) -> (r: Result<(), CodegenError>)
        ensures
            r is Ok,
            texts(final(report).matched_elements@) == texts(old(report).matched_elements@) + qir_matched(pir@, qir@),
            texts(final(report).mismatched_elements@) == texts(old(report).mismatched_elements@) + qir_mismatched(pir@, qir@),
    {
        let ghost p = pir@;
        let ghost m0 = texts(report.matched_elements@);
        let ghost x0 = texts(report.mismatched_elements@);
        let ghost yes_s = quantum_served(qir@);
        let ghost no_s = quantum_unserved(qir@);
        let mut i: usize = 0;
        assert(p.statements.subrange(0, 0) =~= Seq::<Seq<char>>::empty());
        assert(m0 + Seq::<Seq<char>>::empty() =~= m0);
        assert(x0 + Seq::<Seq<char>>::empty() =~= x0);
        while i < pir.statements.len()
            invariant
                i <= pir.statements@.len(),
                p == pir@,
                yes_s == quantum_served(qir@),
                no_s == quantum_unserved(qir@),
                texts(report.matched_elements@) == m0 + messages_where(p.statements.subrange(0, i as int), yes_s, "Quantum statement -> QIR: "@),
                texts(report.mismatched_elements@) == x0 + messages_where(p.statements.subrange(0, i as int), no_s, "Missing QIR for quantum statement: "@),
            decreases pir.statements@.len() - i,
        {
            let stmt = pir.statements[i].as_str();
            proof {
                assert(p.statements[i as int] == stmt@);
                lemma_messages_step(p.statements, yes_s, "Quantum statement -> QIR: "@, i as int);
                lemma_messages_step(p.statements, no_s, "Missing QIR for quantum statement: "@, i as int);
            }
            let ghost a = texts(report.matched_elements@);
            let ghost b = texts(report.mismatched_elements@);
            let quantum = str_contains(stmt, "quantum") || str_contains(stmt, "H ") || str_contains(stmt, "CNOT") || str_contains(stmt, "measure");
            let runtime = str_contains(qir, "__quantum__");
            proof {
                assert(quantum == is_quantum_stmt(stmt@));
                assert(yes_s(p.statements[i as int]) == (quantum && runtime));
                assert(no_s(p.statements[i as int]) == (quantum && !runtime));
            }
            if quantum {
                if runtime {
                    report.matched_elements.push(concat("Quantum statement -> QIR: ", stmt));
                    assert(texts(report.matched_elements@) =~= a.push("Quantum statement -> QIR: "@ + stmt@));
                } else {
                    report.mismatched_elements.push(concat("Missing QIR for quantum statement: ", stmt));
                    assert(texts(report.mismatched_elements@) =~= b.push("Missing QIR for quantum statement: "@ + stmt@));
                }
            }
            assert(texts(report.matched_elements@) =~= m0 + messages_where(p.statements.subrange(0, i + 1), yes_s, "Quantum statement -> QIR: "@));
            assert(texts(report.mismatched_elements@) =~= x0 + messages_where(p.statements.subrange(0, i + 1), no_s, "Missing QIR for quantum statement: "@));
            i = i + 1;
        }
        proof {
            assert(p.statements.subrange(0, p.statements.len() as int) =~= p.statements);
        }
        let ghost m1 = texts(report.matched_elements@);
        let ghost x1 = texts(report.mismatched_elements@);
        let mut qubits = false;
        let mut k: usize = 0;
        while k < pir.arrays.len() && !qubits
            invariant
                k <= pir.arrays@.len(),
                p == pir@,
                qubits ==> some_qubit_array(p.arrays),
                !qubits ==> forall|j: int| 0 <= j < k ==> !((#[trigger] p.arrays[j]).contains('q') || contains_seq(p.arrays[j], "qubit"@)),
            decreases pir.arrays@.len() - k,
        {
            assert(p.arrays[k as int] == pir.arrays@[k as int]@);
            if has_char(pir.arrays[k].as_str(), 'q') || str_contains(pir.arrays[k].as_str(), "qubit") {
                qubits = true;
            }
            k = k + 1;
        }
        if qubits {
            if str_contains(qir, "__quantum__rt__qubit_allocate") {
                report.matched_elements.push("Qubit register allocation".to_string());
                assert(texts(report.matched_elements@) =~= m1.push("Qubit register allocation"@));
            } else {
                report.mismatched_elements.push("Missing qubit allocation in QIR".to_string());
                assert(texts(report.mismatched_elements@) =~= x1.push("Missing qubit allocation in QIR"@));
            }
        }
        proof {
            assert(texts(report.matched_elements@) =~= m0 + qir_matched(p, qir@));
            assert(texts(report.mismatched_elements@) =~= x0 + qir_mismatched(p, qir@));
        }
        Ok(())
    }
}

} // verus!
