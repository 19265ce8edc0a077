use crate::rewriting_core::terms::term::{LanguageTerm, RewritableLanguageOperatorSymbol, models_of};
use vstd::prelude::*;

verus! {

/// What the process with fixed phases gives in the end: the terms of the
/// nodes from which no step leads on.
pub struct RewriteGlobalVerdict<LOS: RewritableLanguageOperatorSymbol> {
    pub normalized_terms: Vec<LanguageTerm<LOS>>,
}

impl<LOS: RewritableLanguageOperatorSymbol> RewriteGlobalVerdict<LOS> {
    /// The verdict of a process that reached no such node yet.
    pub fn get_baseline_verdict() -> (verdict: Self)
        ensures
            verdict.normalized_terms@.len() == 0,
    {
        RewriteGlobalVerdict { normalized_terms: Vec::new() }
    }

    /// The verdict with the term `got_term` of one more node.
    pub fn update_with_local_verdict(self, got_term: &LanguageTerm<LOS>) -> (verdict: Self)
        ensures
            models_of(verdict.normalized_terms@) == models_of(self.normalized_terms@).push(got_term@),
    {
        let mut terms = self.normalized_terms;
        terms.push(got_term.clone());
        let verdict = Self { normalized_terms: terms };
        assert(models_of(verdict.normalized_terms@) =~= models_of(self.normalized_terms@).push(got_term@));
        verdict
    }
}

} // verus!
