use crate::rewriting_core::terms::position::PositionInLanguageTerm;
use crate::rewriting_core::terms::term::{LanguageTerm, RewritableLanguageOperatorSymbol, TermModel, sub_term_at};
use crate::rewriting_core::model::some_function_of;
use vstd::prelude::*;

verus! {

/// The model of what an attempt to rewrite gives: the model of the new term, if any.
pub open spec fn outcome_model<LOS: RewritableLanguageOperatorSymbol>(outcome: Option<LanguageTerm<LOS>>) -> Option<
    TermModel<LOS>,
> {
    match outcome {
        Some(term) => Some(term@),
        None => None,
    }
}

/// A rewrite rule, applied at the root of a term.
///
/// A rule is a function: what it does to a term depends on that term, on the
/// term that it stands in and on where it stands there, and on nothing else.
pub trait RewriteRule<LOS: RewritableLanguageOperatorSymbol> {
    /// What the rule rewrites `term` to, where `term` stands at `position` in
    /// `context_term`; `None` where the rule does not apply.
    open spec fn rewrites_to(&self, term: TermModel<LOS>, context_term: TermModel<LOS>, position: Seq<usize>) -> Option<
        TermModel<LOS>,
    > {
        some_function_of::<Self, _, _>("rewrites_to", (self, term, context_term, position))
    }

    /// The description of the rule.
    open spec fn description(&self) -> Seq<char> {
        some_function_of::<Self, _, _>("description", self)
    }

    /// Returns a description of this rewrite rule.
    fn get_desc(&self) -> (description: String)
        ensures
            description@ == self.description(),
    ;

    /// If the rule is applicable on the given term, returns the result of its
    /// application. `term` is the sub-term of `context_term` at
    /// `position_in_context_term`.
    fn try_apply(
        &self,
        term: &LanguageTerm<LOS>,
        context_term: &LanguageTerm<LOS>,
        position_in_context_term: &PositionInLanguageTerm,
    ) -> (outcome: Option<LanguageTerm<LOS>>)
        requires
            sub_term_at(context_term@, position_in_context_term@) == Some(term@),
        ensures
            outcome_model(outcome) == self.rewrites_to(term@, context_term@, position_in_context_term@),
    ;
}

} // verus!
