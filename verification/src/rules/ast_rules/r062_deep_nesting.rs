use vstd::prelude::*;

use crate::diagnostic::Diagnostic;
use crate::rules::{LintContext, Rule};

verus! {

/// Blocks nested deeper than `max_nesting`; reports nothing yet.
pub struct DeepNestingRule {
    pub max_nesting: usize,
}

impl Rule for DeepNestingRule {
    fn name(&self) -> (code: &'static str)
        ensures
            code@ == "R062"@,
    {
        "R062"
    }

    fn check(&self, ctx: &LintContext) -> (diags: Vec<Diagnostic>)
        ensures
            diags@.len() == 0,
    {
        let _ = self.max_nesting;
        Vec::new()
    }
}

} // verus!
