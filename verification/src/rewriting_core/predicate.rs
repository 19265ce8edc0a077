use crate::rewriting_core::model::some_function_of;
use crate::rewriting_core::terms::term::{LanguageTerm, RewritableLanguageOperatorSymbol, TermModel};
use vstd::prelude::*;

verus! {

/// A predicate on terms.
pub trait PredicateOnTerm<LOS: RewritableLanguageOperatorSymbol> {
    /// `term` satisfies the predicate.
    open spec fn satisfied_by(&self, term: TermModel<LOS>) -> bool {
        some_function_of::<Self, _, _>("satisfied_by", (self, term))
    }

    /// Tells whether `term` satisfies the predicate.
    fn term_satisfies(&self, term: &LanguageTerm<LOS>) -> (satisfied: bool)
        ensures
            satisfied == self.satisfied_by(term@),
    ;

    /// The description of the predicate.
    open spec fn description(&self) -> Seq<char> {
        some_function_of::<Self, _, _>("description", self)
    }

    /// Returns a description of the predicate.
    fn get_desc(&self) -> (description: String)
        ensures
            description@ == self.description(),
    ;
}

} // verus!
