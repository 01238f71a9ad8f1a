//! Code generation errors, diagnostics and the source map that locates
//! spans in source files.

use vstd::prelude::*;
use crate::ast::Span;
use crate::text::{concat, decimal, u64_to_decimal};

verus! {

/// Errors of code generation.
#[derive(Debug)]
pub enum CodegenError {
    /// Invalid or unsupported target.
    TargetError(String),
    /// Unsupported type, quantity mismatch.
    TypeLoweringError(String),
    /// Duplicate symbols, invalid IR.
    ModuleBuildError(String),
    /// Signature mismatch, invalid body.
    FunctionBuildError(String),
    /// Invalid operands, type mismatch.
    InstructionError(String),
    /// Invalid profile, missing intrinsics.
    QirError(String),
    CraneliftError(String),
    /// Failure while writing the output.
    EmissionError(String),
    /// Invalid IR after construction.
    VerificationError(String),
    /// Internal compiler error.
    InternalError(String),
    /// Feature the target does not support.
    UnsupportedFeature(String),
}

/// The message carried by an error.
pub open spec fn error_message(e: CodegenError) -> Seq<char> {
    match e {
        CodegenError::TargetError(m) => m@,
        CodegenError::TypeLoweringError(m) => m@,
        CodegenError::ModuleBuildError(m) => m@,
        CodegenError::FunctionBuildError(m) => m@,
        CodegenError::InstructionError(m) => m@,
        CodegenError::QirError(m) => m@,
        CodegenError::CraneliftError(m) => m@,
        CodegenError::EmissionError(m) => m@,
        CodegenError::VerificationError(m) => m@,
        CodegenError::InternalError(m) => m@,
        CodegenError::UnsupportedFeature(m) => m@,
    }
}

/// The displayed text of an error: its kind, then its message.
pub open spec fn error_text(e: CodegenError) -> Seq<char> {
    match e {
        CodegenError::TargetError(m) => "Target error: "@ + m@,
        CodegenError::TypeLoweringError(m) => "Type lowering error: "@ + m@,
        CodegenError::ModuleBuildError(m) => "Module build error: "@ + m@,
        CodegenError::FunctionBuildError(m) => "Function build error: "@ + m@,
        CodegenError::InstructionError(m) => "Instruction emission error: "@ + m@,
        CodegenError::QirError(m) => "QIR error: "@ + m@,
        CodegenError::CraneliftError(m) => "Cranelift error: "@ + m@,
        CodegenError::EmissionError(m) => "Emission error: "@ + m@,
        CodegenError::VerificationError(m) => "Verification error: "@ + m@,
        CodegenError::InternalError(m) => "Internal error: "@ + m@,
        CodegenError::UnsupportedFeature(m) => "Unsupported feature for target: "@ + m@,
    }
}

/// `msg at line:column`.
pub open spec fn with_position(msg: Seq<char>, span: Span) -> Seq<char> {
    msg + " at "@ + decimal(span.line as nat) + ":"@ + decimal(span.column as nat)
}

fn at_position(msg: &str, span: Span) -> (r: String)
    ensures
        r@ == with_position(msg@, span),
{
    let a = concat(msg, " at ");
    let line = u64_to_decimal(span.line as u64);
    let b = concat(a.as_str(), line.as_str());
    let c = concat(b.as_str(), ":");
    let col = u64_to_decimal(span.column as u64);
    concat(c.as_str(), col.as_str())
}

impl CodegenError {
    /// A type lowering error located at a span.
    pub fn type_lowering_with_span(msg: &str, span: Span) -> (r: Self)
        ensures
            r matches CodegenError::TypeLoweringError(m) && m@ == with_position(msg@, span),
    {
        CodegenError::TypeLoweringError(at_position(msg, span))
    }

    /// A module build error located at a span.
    pub fn module_build_with_span(msg: &str, span: Span) -> (r: Self)
        ensures
            r matches CodegenError::ModuleBuildError(m) && m@ == with_position(msg@, span),
    {
        CodegenError::ModuleBuildError(at_position(msg, span))
    }

    /// An instruction error located at a span.
    pub fn instruction_with_span(msg: &str, span: Span) -> (r: Self)
        ensures
            r matches CodegenError::InstructionError(m) && m@ == with_position(msg@, span),
    {
        CodegenError::InstructionError(at_position(msg, span))
    }

    /// A feature the target does not support.
    pub fn unsupported_feature(feature: &str, target: &str) -> (r: Self)
        ensures
            r matches CodegenError::UnsupportedFeature(m) && m@ == feature@ + " not supported on target "@ + target@,
    {
        let a = concat(feature, " not supported on target ");
        CodegenError::UnsupportedFeature(concat(a.as_str(), target))
    }

    /// The displayed text of the error.
    pub fn to_string(&self) -> (r: String)
        ensures
            r@ == error_text(*self),
    {
        match self {
            CodegenError::TargetError(m) => concat("Target error: ", m.as_str()),
            CodegenError::TypeLoweringError(m) => concat("Type lowering error: ", m.as_str()),
            CodegenError::ModuleBuildError(m) => concat("Module build error: ", m.as_str()),
            CodegenError::FunctionBuildError(m) => concat("Function build error: ", m.as_str()),
            CodegenError::InstructionError(m) => concat("Instruction emission error: ", m.as_str()),
            CodegenError::QirError(m) => concat("QIR error: ", m.as_str()),
            CodegenError::CraneliftError(m) => concat("Cranelift error: ", m.as_str()),
            CodegenError::EmissionError(m) => concat("Emission error: ", m.as_str()),
            CodegenError::VerificationError(m) => concat("Verification error: ", m.as_str()),
            CodegenError::InternalError(m) => concat("Internal error: ", m.as_str()),
            CodegenError::UnsupportedFeature(m) => concat("Unsupported feature for target: ", m.as_str()),
        }
    }
}

/// Diagnostic severity levels, from least to most severe.
#[derive(Debug, Clone, Copy, PartialEq, Eq, Structural, PartialOrd, Ord)]
pub enum Severity {
    Note,
    Warning,
    Error,
    Fatal,
}

/// Rank of a severity in the order `Note < Warning < Error < Fatal`.
pub open spec fn severity_rank(s: Severity) -> int {
    match s {
        Severity::Note => 0,
        Severity::Warning => 1,
        Severity::Error => 2,
        Severity::Fatal => 3,
    }
}

/// The name of a severity.
pub open spec fn severity_name(s: Severity) -> Seq<char> {
    match s {
        Severity::Note => "note"@,
        Severity::Warning => "warning"@,
        Severity::Error => "error"@,
        Severity::Fatal => "fatal"@,
    }
}

impl Severity {
    /// Whether this severity is at least `Error`.
    pub fn is_error(&self) -> (r: bool)
        ensures
            r == (severity_rank(*self) >= severity_rank(Severity::Error)),
    {
        match self {
            Severity::Error | Severity::Fatal => true,
            _ => false,
        }
    }

    /// The name of the severity.
    pub fn as_str(&self) -> (r: &'static str)
        ensures
            r@ == severity_name(*self),
    {
        match self {
            Severity::Note => "note",
            Severity::Warning => "warning",
            Severity::Error => "error",
            Severity::Fatal => "fatal",
        }
    }
}

/// Something that can be reported as a diagnostic.
pub trait Diagnostic {
    /// The primary message, as values.
    spec fn diag_message(&self) -> Seq<char>;

    /// The severity, as a value.
    spec fn diag_severity(&self) -> Severity;

    /// The primary message.
    fn message(&self) -> (r: &str)
        ensures
            r@ == self.diag_message();

    /// Where the diagnostic points, if anywhere.
    fn span(&self) -> Option<Span>;

    /// The source file the diagnostic is about, if known.
    fn file(&self) -> Option<&std::path::PathBuf>;

    /// Severity level.
    fn severity(&self) -> (r: Severity)
        ensures
            r == self.diag_severity();

    /// Optional help text.
    fn help(&self) -> Option<&str> {
        None
    }

    /// Optional note text.
    fn note(&self) -> Option<&str> {
        None
    }
}

/// Conversion into a diagnostic.
pub trait IntoDiagnostic {
    fn into_diagnostic(self) -> DiagnosticRecord;
}

/// Internal errors are fatal; every other error is an error.
pub open spec fn error_severity(e: CodegenError) -> Severity {
    match e {
        CodegenError::InternalError(_) => Severity::Fatal,
        _ => Severity::Error,
    }
}

impl Diagnostic for CodegenError {
    open spec fn diag_message(&self) -> Seq<char> {
        error_message(*self)
    }

    open spec fn diag_severity(&self) -> Severity {
        error_severity(*self)
    }

    fn message(&self) -> (r: &str) {
        match self {
            CodegenError::TargetError(msg) => msg.as_str(),
            CodegenError::TypeLoweringError(msg) => msg.as_str(),
            CodegenError::ModuleBuildError(msg) => msg.as_str(),
            CodegenError::FunctionBuildError(msg) => msg.as_str(),
            CodegenError::InstructionError(msg) => msg.as_str(),
            CodegenError::QirError(msg) => msg.as_str(),
            CodegenError::CraneliftError(msg) => msg.as_str(),
            CodegenError::EmissionError(msg) => msg.as_str(),
            CodegenError::VerificationError(msg) => msg.as_str(),
            CodegenError::InternalError(msg) => msg.as_str(),
            CodegenError::UnsupportedFeature(msg) => msg.as_str(),
        }
    }

    /// Errors carry their position in their message only.
    fn span(&self) -> (r: Option<Span>)
        ensures
            r is None,
    {
        None
    }

    /// Errors name no source file.
    fn file(&self) -> (r: Option<&std::path::PathBuf>)
        ensures
            r is None,
    {
        None
    }

    fn severity(&self) -> (r: Severity) {
        match self {
            CodegenError::InternalError(_) => Severity::Fatal,
            _ => Severity::Error,
        }
    }
}

/// A reported diagnostic, as recorded by the emitter.
#[derive(Debug)]
pub struct DiagnosticRecord {
    pub message: String,
    pub severity: Severity,
    pub span: Option<Span>,
    pub help: Option<String>,
    pub note: Option<String>,
}

/// Collects the diagnostics reported during code generation.
#[derive(Debug)]
pub struct DiagnosticEmitter {
    diagnostics: Vec<DiagnosticRecord>,
    source_map: Option<SourceMap>,
}

/// An emitter as values: message and severity of each diagnostic, in order.
pub open spec fn records_view(rs: Seq<DiagnosticRecord>) -> Seq<(Seq<char>, Severity)> {
    rs.map_values(|r: DiagnosticRecord| (r.message@, r.severity))
}

fn copy_opt_str(s: Option<&str>) -> (r: Option<String>)
    ensures
        r is Some <==> s is Some,
        r matches Some(x) ==> x@ == s->0@,
{
    match s {
        Some(x) => Some(x.to_string()),
        None => None,
    }
}

impl DiagnosticEmitter {
    pub fn new() -> (r: Self)
        ensures
            r.records()@.len() == 0,
            r.source_map() is None,
    {
        DiagnosticEmitter { diagnostics: Vec::new(), source_map: None }
    }

    pub fn with_source_map(source_map: SourceMap) -> (r: Self)
        ensures
            r.records()@.len() == 0,
            r.source_map() == Some(source_map),
    {
        DiagnosticEmitter { diagnostics: Vec::new(), source_map: Some(source_map) }
    }

    /// The recorded diagnostics.
    pub closed spec fn records(&self) -> Vec<DiagnosticRecord> {
        self.diagnostics
    }

    /// The source map, if any.
    pub closed spec fn source_map(&self) -> Option<SourceMap> {
        self.source_map
    }

    /// Records a diagnostic (printing it is the caller's part).
    pub fn emit<D: Diagnostic>(&mut self, diagnostic: D)
        ensures
            records_view(final(self).records()@) == records_view(old(self).records()@).push(
                (diagnostic.diag_message(), diagnostic.diag_severity()),
            ),
            final(self).source_map() == old(self).source_map(),
    {
        let message = diagnostic.message().to_string();
        let severity = diagnostic.severity();
        let span = diagnostic.span();
        let help = copy_opt_str(diagnostic.help());
        let note = copy_opt_str(diagnostic.note());
        let rec = DiagnosticRecord { message, severity, span, help, note };
        self.diagnostics.push(rec);
        assert(records_view(self.diagnostics@) =~= records_view(old(self).diagnostics@).push(
            (diagnostic.diag_message(), diagnostic.diag_severity()),
        ));
    }

    /// Whether some diagnostic is an error or worse.
    pub fn has_errors(&self) -> (r: bool)
        ensures
            r == exists|i: int| 0 <= i < self.records()@.len()
                && severity_rank((#[trigger] self.records()@[i]).severity) >= severity_rank(Severity::Error),
    {
        let mut i: usize = 0;
        while i < self.diagnostics.len()
            invariant
                i <= self.diagnostics@.len(),
                forall|j: int| 0 <= j < i ==> severity_rank((#[trigger] self.diagnostics@[j]).severity) < severity_rank(Severity::Error),
            decreases self.diagnostics@.len() - i,
        {
            if self.diagnostics[i].severity.is_error() {
                return true;
            }
            i = i + 1;
        }
        false
    }

    /// The diagnostics, in the order they were reported.
    pub fn diagnostics(&self) -> (r: &Vec<DiagnosticRecord>)
        ensures
            *r == self.records(),
    {
        &self.diagnostics
    }
}

/// Source files by id, for locating spans.
#[derive(Debug)]
pub struct SourceMap {
    files: Vec<SourceFile>,
}

#[derive(Debug)]
pub struct SourceFile {
    pub path: String,
    pub content: String,
    pub id: usize,
}

/// Position of a span in a file: lines and byte columns.
#[derive(Debug, Clone, Copy, PartialEq, Eq, Structural)]
pub struct SourceLocation {
    pub file_id: usize,
    pub line_start: u32,
    pub column_start: u32,
    pub line_end: u32,
    pub column_end: u32,
}

/// Byte offset of the start of the line holding byte `k`: one past the last
/// newline before `k`, or 0.
pub open spec fn line_start_before(bytes: Seq<u8>, k: int) -> int
    decreases k,
{
    if k <= 0 {
        0
    } else if bytes[k - 1] == 10u8 {
        k
    } else {
        line_start_before(bytes, k - 1)
    }
}

proof fn lemma_line_start_bounds(bytes: Seq<u8>, k: int)
    requires
        0 <= k,
    ensures
        0 <= line_start_before(bytes, k) <= k,
    decreases k,
{
    if k > 0 && bytes[k - 1] != 10u8 {
        lemma_line_start_bounds(bytes, k - 1);
    }
}

fn line_start(bytes: &[u8], k: usize) -> (r: usize)
    requires
        k <= bytes@.len(),
    ensures
        r == line_start_before(bytes@, k as int),
        r <= k,
{
    let mut j = k;
    while j > 0
        invariant
            j <= k <= bytes@.len(),
            line_start_before(bytes@, j as int) == line_start_before(bytes@, k as int),
        decreases j,
    {
        if bytes[j - 1] == 10u8 {
            return j;
        }
        j = j - 1;
    }
    j
}

impl SourceMap {
    pub fn new() -> (r: Self)
        ensures
            r.files()@.len() == 0,
    {
        SourceMap { files: Vec::new() }
    }

    /// The files, by id.
    pub closed spec fn files(&self) -> Vec<SourceFile> {
        self.files
    }

    /// Adds a file; its id is its position.
    pub fn add_file(&mut self, path: String, content: String) -> (r: usize)
        ensures
            r == old(self).files()@.len(),
            final(self).files()@.len() == old(self).files()@.len() + 1,
            forall|i: int| 0 <= i < r ==> final(self).files()@[i] == old(self).files()@[i],
            final(self).files()@[r as int].path == path,
            final(self).files()@[r as int].content == content,
            final(self).files()@[r as int].id == r,
    {
        let id = self.files.len();
        self.files.push(SourceFile { path, content, id });
        id
    }

    pub fn get_file(&self, id: usize) -> (r: Option<&SourceFile>)
        ensures
            id < self.files()@.len() ==> r == Some(&self.files()@[id as int]),
            id >= self.files()@.len() ==> r is None,
    {
        if id < self.files.len() {
            Some(&self.files[id])
        } else {
            None
        }
    }

    /// Lines and byte columns of a span in a file; `None` for an unknown
    /// file.
    pub fn span_to_location(&self, file_id: usize, span: Span) -> (r: Option<SourceLocation>)
        requires
            file_id < self.files()@.len() ==> {
                &&& span.start <= vstd::utf8::encode_utf8(self.files()@[file_id as int].content@).len()
                &&& span.end <= vstd::utf8::encode_utf8(self.files()@[file_id as int].content@).len()
            },
        ensures
            file_id >= self.files()@.len() ==> r is None,
            file_id < self.files()@.len() ==> r == Some(SourceLocation {
                file_id,
                line_start: span.line,
                column_start: (span.start - line_start_before(vstd::utf8::encode_utf8(self.files()@[file_id as int].content@), span.start as int)) as u32,
                line_end: span.line,
                column_end: (span.end - line_start_before(vstd::utf8::encode_utf8(self.files()@[file_id as int].content@), span.end as int)) as u32,
            }),
    {
        if file_id >= self.files.len() {
            return None;
        }
        let file = &self.files[file_id];
        let bytes = file.content.as_str().as_bytes();
        let start_byte = span.start as usize;
        let end_byte = span.end as usize;
        let ls = line_start(bytes, start_byte);
        let le = line_start(bytes, end_byte);
        let column_start = start_byte - ls;
        let column_end = end_byte - le;
        Some(SourceLocation {
            file_id,
            line_start: span.line,
            column_start: column_start as u32,
            line_end: span.line,
            column_end: column_end as u32,
        })
    }
}

} // verus!
