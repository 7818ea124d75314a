//! Diagnostics: everything the parser and the validator report, with
//! severity, kind, message and position.

use vstd::prelude::*;

verus! {

/// How bad a diagnostic is: an `Error` fails the compilation, a `Warning`
/// does not.
#[derive(Clone, Copy, Debug, PartialEq, Eq, Structural)]
pub enum Severity {
    Error,
    Warning,
}

/// The taxonomy of everything this front end reports.
#[derive(Clone, Copy, Debug, PartialEq, Eq, Structural)]
pub enum DiagnosticKind {
    LexError,
    SyntaxError,
    DuplicateIdentifier,
    CyclicInheritance,
    UnresolvedReference,
    EmptyIdentifierSentinel,
}

/// The severity each kind of diagnostic carries: only an unresolved
/// reference is a warning (the definition may live in a file not yet
/// loaded); everything else is an error.
pub open spec fn severity_of(kind: DiagnosticKind) -> Severity {
    match kind {
        DiagnosticKind::UnresolvedReference => Severity::Warning,
        _ => Severity::Error,
    }
}

/// Where a diagnostic points: a file name (empty at this layer, which
/// never reads files itself) and a 1-based line and column.
#[derive(Clone, Debug, PartialEq, Eq)]
pub struct Location {
    pub file: String,
    pub line: usize,
    pub col: usize,
}

/// One reported finding.
#[derive(Clone, Debug, PartialEq, Eq)]
pub struct Diagnostic {
    pub severity: Severity,
    pub kind: DiagnosticKind,
    pub message: String,
    pub location: Location,
    pub related_identifier: Option<String>,
}

/// The view of a [`Diagnostic`].
#[verifier::ext_equal]
pub ghost struct DiagnosticView {
    pub severity: Severity,
    pub kind: DiagnosticKind,
    pub message: Seq<char>,
    pub file: Seq<char>,
    pub line: int,
    pub col: int,
    pub related_identifier: Option<Seq<char>>,
}

impl View for Diagnostic {
    type V = DiagnosticView;

    open spec fn view(&self) -> DiagnosticView {
        DiagnosticView {
            severity: self.severity,
            kind: self.kind,
            message: self.message@,
            file: self.location.file@,
            line: self.location.line as int,
            col: self.location.col as int,
            related_identifier: match self.related_identifier {
                Option::Some(s) => Option::Some(s@),
                Option::None => Option::None,
            },
        }
    }
}

/// The fixed message text of each diagnostic kind; the related identifier
/// or cycle path, when one exists, is carried in its own field.
pub open spec fn message_of(kind: DiagnosticKind) -> Seq<char> {
    match kind {
        DiagnosticKind::LexError => "invalid or unterminated token"@,
        DiagnosticKind::SyntaxError => "syntax error"@,
        DiagnosticKind::DuplicateIdentifier => "duplicate identifier"@,
        DiagnosticKind::CyclicInheritance => "cyclic inheritance"@,
        DiagnosticKind::UnresolvedReference => "unresolved reference"@,
        DiagnosticKind::EmptyIdentifierSentinel => "empty identifier"@,
    }
}

/// The view of the diagnostic [`make_diagnostic`] builds.
pub open spec fn diagnostic_view(
    kind: DiagnosticKind,
    line: int,
    col: int,
    related: Option<Seq<char>>,
) -> DiagnosticView {
    DiagnosticView {
        severity: severity_of(kind),
        kind,
        message: message_of(kind),
        file: Seq::<char>::empty(),
        line,
        col,
        related_identifier: related,
    }
}

/// The message text of a kind, computed.
fn message_text(kind: DiagnosticKind) -> (r: String)
    ensures
        r@ == message_of(kind),
{
    match kind {
        DiagnosticKind::LexError => String::from_str("invalid or unterminated token"),
        DiagnosticKind::SyntaxError => String::from_str("syntax error"),
        DiagnosticKind::DuplicateIdentifier => String::from_str("duplicate identifier"),
        DiagnosticKind::CyclicInheritance => String::from_str("cyclic inheritance"),
        DiagnosticKind::UnresolvedReference => String::from_str("unresolved reference"),
        DiagnosticKind::EmptyIdentifierSentinel => String::from_str("empty identifier"),
    }
}

/// Builds a diagnostic of the given kind, with its fixed severity and
/// message, an empty file name, and the given position and related
/// identifier.
pub fn make_diagnostic(
    kind: DiagnosticKind,
    line: usize,
    col: usize,
    related: Option<String>,
) -> (r: Diagnostic)
    ensures
        r@ == diagnostic_view(
            kind,
            line as int,
            col as int,
            match related {
                Option::Some(s) => Option::Some(s@),
                Option::None => Option::None,
            },
        ),
{
    let severity = match kind {
        DiagnosticKind::UnresolvedReference => Severity::Warning,
        _ => Severity::Error,
    };
    Diagnostic {
        severity,
        kind,
        message: message_text(kind),
        location: Location { file: String::new(), line, col },
        related_identifier: related,
    }
}

} // verus!
