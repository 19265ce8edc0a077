use crate::rewriting_core::rule::outcome_model;
use crate::rewriting_core::terms::position::PositionInLanguageTerm;
use crate::rewriting_core::terms::term::{LanguageTerm, RewritableLanguageOperatorSymbol, TermModel};
use crate::rewriting_core::model::some_function_of;
use vstd::prelude::*;

verus! {

/// Something that can simplify a term whose root is a unary operator: absorb
/// a fixed point, merge nested unary operators.
pub trait GenericUnaryOperatorSimplifier<LOS: RewritableLanguageOperatorSymbol> {
    /// `op` is a unary operator.
    open spec fn unary(&self, op: LOS) -> bool {
        some_function_of::<Self, _, _>("unary", (self, op))
    }

    /// What `top_operator(term_underneath)` simplifies to, if to anything.
    open spec fn simplified_under_unary_operator(&self, top_operator: LOS, term_underneath: TermModel<LOS>) -> Option<
        TermModel<LOS>,
    > {
        some_function_of::<Self, _, _>("simplified_under_unary_operator", (self, top_operator, term_underneath))
    }

    fn is_unary(&self, op: &LOS) -> (unary: bool)
        ensures
            unary == self.unary(*op),
    ;

    /// Tries to simplify a term whose root is a unary operator.
    fn try_simplify_under_unary_operator(&self, top_operator: &LOS, term_underneath: &LanguageTerm<LOS>) -> (simplified:
        Option<LanguageTerm<LOS>>)
        ensures
            outcome_model(simplified) == self.simplified_under_unary_operator(*top_operator, term_underneath@),
    ;
}

/// What `simplified` gives for the operand of `term`, where `term` is an
/// application of a unary operator.
pub open spec fn simplified_unary_term<LOS>(
    term: TermModel<LOS>,
    unary: bool,
    simplified: spec_fn(LOS, TermModel<LOS>) -> Option<TermModel<LOS>>,
) -> Option<TermModel<LOS>> {
    if unary && term.sub_terms.len() == 1 {
        simplified(term.operator, term.sub_terms[0])
    } else {
        None
    }
}

/// The simplifications of `checker`, as a function.
pub open spec fn unary_simplification_of<LOS: RewritableLanguageOperatorSymbol>(
    checker: &Box<dyn GenericUnaryOperatorSimplifier<LOS>>,
) -> spec_fn(LOS, TermModel<LOS>) -> Option<TermModel<LOS>> {
    |top_operator: LOS, term_underneath: TermModel<LOS>|
        checker.simplified_under_unary_operator(top_operator, term_underneath)
}

/// Simplifies a term whose root is a unary operator, as `checker` says.
pub fn transformation_generic_simpl_under_unary_operator<LOS: RewritableLanguageOperatorSymbol>(
    checker: &Box<dyn GenericUnaryOperatorSimplifier<LOS>>,
    term: &LanguageTerm<LOS>,
    _context_term: &LanguageTerm<LOS>,
    _position_in_context_term: &PositionInLanguageTerm,
) -> (outcome: Option<LanguageTerm<LOS>>)
    ensures
        outcome_model(outcome) == simplified_unary_term(
            term@,
            checker.unary(term@.operator),
            unary_simplification_of(checker),
        ),
{
    if checker.is_unary(&term.operator) {
        if let Some(sub_term) = term.as_unary() {
            return checker.try_simplify_under_unary_operator(&term.operator, sub_term);
        }
    }
    None
}

} // verus!
