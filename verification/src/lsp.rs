//! What the language server publishes for a saved file: which files it
//! analyses, and each diagnostic as an editor diagnostic (a range in 32-bit
//! positions, a severity, the rule's id as its code, and the message).
use vstd::prelude::*;
use crate::diagnostics::Diagnostic;
use crate::language::{SourceLanguage, language_of, source_language};
use crate::text::{lower_text, text_is, to_lowercase};

verus! {

/// The severities an editor shows.
#[derive(Debug, Clone, Copy, PartialEq, Eq)]
pub enum EditorSeverity {
    Error,
    Warning,
    Information,
}

/// The editor severity of a rule severity already in lower case: `error` and
/// `warning` are themselves, anything else is information.
pub open spec fn severity_of_lowercase(s: Seq<char>) -> EditorSeverity {
    if s == "error"@ {
        EditorSeverity::Error
    } else if s == "warning"@ {
        EditorSeverity::Warning
    } else {
        EditorSeverity::Information
    }
}

/// Only `error` and `warning` are shown as errors and warnings; every other
/// lower-case severity is shown as information.
pub proof fn law_other_severities_are_information(s: Seq<char>)
    ensures
        s == "error"@ ==> severity_of_lowercase(s) == EditorSeverity::Error,
        s == "warning"@ ==> severity_of_lowercase(s) == EditorSeverity::Warning,
        s != "error"@ && s != "warning"@ ==> severity_of_lowercase(s) == EditorSeverity::Information,
        severity_of_lowercase(s) == EditorSeverity::Error ==> s == "error"@,
        severity_of_lowercase(s) == EditorSeverity::Warning ==> s == "warning"@,
{
    reveal_strlit("error");
    reveal_strlit("warning");
    assert("error"@.len() != "warning"@.len());
}

/// The editor severity of a lower-case rule severity.
pub fn severity_from_lowercase(severity_lower: &str) -> (r: EditorSeverity)
    ensures
        r == severity_of_lowercase(severity_lower@),
{
    if text_is(severity_lower, "error") {
        EditorSeverity::Error
    } else if text_is(severity_lower, "warning") {
        EditorSeverity::Warning
    } else {
        EditorSeverity::Information
    }
}

/// The editor severity of a rule severity, compared without regard to case.
pub fn editor_severity(severity: &str) -> (r: EditorSeverity)
    ensures
        r == severity_of_lowercase(lower_text(severity@)),
{
    let severity_lower = to_lowercase(severity);
    severity_from_lowercase(severity_lower.as_str())
}

/// The language of a saved file that the server analyses: C++ sources and
/// headers, and Python sources, as for the command line.
pub fn server_language(extension: &str) -> (r: Option<SourceLanguage>)
    ensures
        r == language_of(extension@),
{
    source_language(extension)
}

/// A diagnostic as the server publishes it to the editor.
#[derive(Debug)]
pub struct EditorDiagnostic {
    pub start_line: u32,
    pub start_column: u32,
    pub end_line: u32,
    pub end_column: u32,
    pub severity: EditorSeverity,
    pub code: String,
    pub source: String,
    pub message: String,
}

/// The editor diagnostic for a diagnostic: its positions cut to 32 bits,
/// the severity by `editor_severity`, the rule's id as the code, `FerricCP`
/// as the source.
pub fn editor_diagnostic(violation: Diagnostic) -> (r: EditorDiagnostic)
    ensures
        r.start_line == violation.line as u32,
        r.start_column == violation.column as u32,
        r.end_line == violation.end_line as u32,
        r.end_column == violation.end_column as u32,
        r.severity == severity_of_lowercase(lower_text(violation.severity@)),
        r.code@ == violation.id@,
        r.source@ == "FerricCP"@,
        r.message@ == violation.message@,
{
    let start_line = violation.line as u32;
    let start_col = violation.column as u32;
    let end_line = violation.end_line as u32;
    let end_col = violation.end_column as u32;
    let severity = editor_severity(violation.severity.as_str());
    EditorDiagnostic {
        start_line,
        start_column: start_col,
        end_line,
        end_column: end_col,
        severity,
        code: violation.id,
        source: String::from_str("FerricCP"),
        message: violation.message,
    }
}

} // verus!
