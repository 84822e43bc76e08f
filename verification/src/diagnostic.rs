use vstd::prelude::*;

verus! {

/// How serious a finding is.
#[derive(Debug, Clone, Copy, PartialEq, Eq, Structural)]
pub enum Severity {
    Error,
    Warning,
    Info,
}

/// How a suggested fix applies to the flagged line.
#[derive(Debug, Clone, Copy, PartialEq, Eq, Structural)]
pub enum FixKind {
    /// The fix text replaces the line.
    ReplaceLine,
    /// The fix text is inserted before the line.
    InsertBefore,
}

/// One finding of a rule in a file.
#[derive(Debug, Clone)]
pub struct Diagnostic {
    pub file: String,
    /// 1-based line.
    pub line: usize,
    pub col: usize,
    /// Rule code, such as `R001`.
    pub rule: String,
    pub message: String,
    pub severity: Severity,
    pub fix: Option<String>,
    pub fix_kind: FixKind,
}

/// The mathematical value of a [`Diagnostic`].
pub struct DiagnosticModel {
    pub file: Seq<char>,
    pub line: usize,
    pub col: usize,
    pub rule: Seq<char>,
    pub message: Seq<char>,
    pub severity: Severity,
    pub fix: Option<Seq<char>>,
    pub fix_kind: FixKind,
}

pub open spec fn opt_text(s: Option<String>) -> Option<Seq<char>> {
    match s {
        Some(t) => Some(t@),
        None => None,
    }
}

impl View for Diagnostic {
    type V = DiagnosticModel;

    open spec fn view(&self) -> DiagnosticModel {
        DiagnosticModel {
            file: self.file@,
            line: self.line,
            col: self.col,
            rule: self.rule@,
            message: self.message@,
            severity: self.severity,
            fix: opt_text(self.fix),
            fix_kind: self.fix_kind,
        }
    }
}

/// The models of a sequence of diagnostics.
pub open spec fn diags_model(s: Seq<Diagnostic>) -> Seq<DiagnosticModel> {
    s.map_values(|d: Diagnostic| d@)
}

impl Diagnostic {
    /// A finding without a fix.
    pub fn new(
        file: &str,
        line: usize,
        col: usize,
        rule: &str,
        message: &str,
        severity: Severity,
    ) -> (d: Diagnostic)
        ensures
            d@ == (DiagnosticModel {
                file: file@,
                line,
                col,
                rule: rule@,
                message: message@,
                severity,
                fix: None,
                fix_kind: FixKind::ReplaceLine,
            }),
    {
        Diagnostic {
            file: String::from_str(file),
            line,
            col,
            rule: String::from_str(rule),
            message: String::from_str(message),
            severity,
            fix: None,
            fix_kind: FixKind::ReplaceLine,
        }
    }

    /// The same finding with a fix that replaces the line.
    pub fn with_fix(self, text: &str) -> (d: Diagnostic)
        ensures
            d@ == (DiagnosticModel { fix: Some(text@), fix_kind: FixKind::ReplaceLine, ..self@ }),
    {
        Diagnostic { fix: Some(String::from_str(text)), fix_kind: FixKind::ReplaceLine, ..self }
    }

    /// The same finding with a fix inserted before the line.
    pub fn with_insert_before_fix(self, text: &str) -> (d: Diagnostic)
        ensures
            d@ == (DiagnosticModel {
                fix: Some(text@),
                fix_kind: FixKind::InsertBefore,
                ..self@
            }),
    {
        Diagnostic { fix: Some(String::from_str(text)), fix_kind: FixKind::InsertBefore, ..self }
    }
}

} // verus!
