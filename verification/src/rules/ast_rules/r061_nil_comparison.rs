use vstd::prelude::*;

use crate::diagnostic::Diagnostic;
use crate::rules::{LintContext, Rule};

verus! {

/// Comparisons with `nil` (`x == nil`); reports nothing yet.
pub struct NilComparisonRule;

impl Rule for NilComparisonRule {
    fn name(&self) -> (code: &'static str)
        ensures
            code@ == "R061"@,
    {
        "R061"
    }

    fn check(&self, ctx: &LintContext) -> (diags: Vec<Diagnostic>)
        ensures
            diags@.len() == 0,
    {
        Vec::new()
    }
}

} // verus!
