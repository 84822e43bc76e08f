//! Lint rules and what they read.
use vstd::prelude::*;

use crate::diagnostic::Diagnostic;

pub mod ast_rules;

verus! {

/// What the traversal of a parsed file reports about one local variable,
/// in traversal order.
#[derive(Debug, Clone)]
pub enum VarEvent {
    /// An assignment to a local variable, or a parameter that binds one,
    /// starting at this byte offset of the source.
    Assign { name: String, offset: usize },
    /// A read of a local variable.
    Use { name: String },
}

/// The file a rule checks.
pub struct LintContext {
    pub file: String,
    pub source: String,
    /// The variable events of the parsed source; `None` when the source did
    /// not parse.
    pub variable_events: Option<Vec<VarEvent>>,
}

impl LintContext {
    pub fn new(file: &str, source: &str, variable_events: Option<Vec<VarEvent>>) -> (c: LintContext)
        ensures
            c.file@ == file@,
            c.source@ == source@,
            c.variable_events == variable_events,
    {
        LintContext {
            file: String::from_str(file),
            source: String::from_str(source),
            variable_events,
        }
    }
}

/// A lint rule: a code and a check of one file.
pub trait Rule {
    fn name(&self) -> &'static str;

    fn check(&self, ctx: &LintContext) -> Vec<Diagnostic>;
}

} // verus!
