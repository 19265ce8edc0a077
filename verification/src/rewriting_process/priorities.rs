use crate::rewriting_core::terms::term::RewritableLanguageOperatorSymbol;
use crate::rewriting_process::step::RewriteStepKind;
use vstd::prelude::*;

verus! {

/// The priorities of the steps of the process: all steps are equal.
pub struct RewritePriorities {}

impl RewritePriorities {
    /// The priority of `_step` among the steps that lead on from one node.
    pub fn get_priority_of_step<LOS: RewritableLanguageOperatorSymbol>(&self, _step: &RewriteStepKind<LOS>) -> (priority:
        i32)
        ensures
            priority == 0,
    {
        0
    }
}

} // verus!
