use crate::rewriting_core::rule::RewriteRule;
use crate::rewriting_core::terms::term::RewritableLanguageOperatorSymbol;
use vstd::prelude::*;

verus! {

/// A phase of the process with fixed phases: its rules, and whether a
/// single rewrite step is enough at each node.
#[verifier::reject_recursive_types(LOS)]
pub struct RewritingProcessPhase<LOS: RewritableLanguageOperatorSymbol> {
    pub rules: Vec<Box<dyn RewriteRule<LOS>>>,
    pub keep_only_one: bool,
}

impl<LOS: RewritableLanguageOperatorSymbol> RewritingProcessPhase<LOS> {
    pub fn new(rules: Vec<Box<dyn RewriteRule<LOS>>>, keep_only_one: bool) -> (phase: Self)
        ensures
            phase.rules == rules,
            phase.keep_only_one == keep_only_one,
    {
        Self { rules, keep_only_one }
    }
}

/// The phases of a process with fixed phases, which a term goes through one
/// after another.
#[verifier::reject_recursive_types(LOS)]
pub struct RewritingProcessContextAndParameterization<LOS: RewritableLanguageOperatorSymbol> {
    pub phases: Vec<RewritingProcessPhase<LOS>>,
}

impl<LOS: RewritableLanguageOperatorSymbol> RewritingProcessContextAndParameterization<LOS> {
    pub fn new(phases: Vec<RewritingProcessPhase<LOS>>) -> (context: Self)
        ensures
            context.phases == phases,
    {
        Self { phases }
    }
}

} // verus!
