use crate::rewriting_core::rule::outcome_model;
use crate::rewriting_core::terms::position::PositionInLanguageTerm;
use crate::rewriting_core::terms::term::{LanguageTerm, RewritableLanguageOperatorSymbol, TermModel, is_binary_node};
use crate::rewriting_core::model::some_function_of;
use vstd::prelude::*;

verus! {

/// Something that can simplify a term whose root is a binary operator: drop a
/// neutral element, collapse the operands of an idempotent operator, compute
/// a concrete value.
pub trait GenericBinaryOperatorSimplifier<LOS: RewritableLanguageOperatorSymbol> {
    /// `op` is a binary operator.
    open spec fn binary(&self, op: LOS) -> bool {
        some_function_of::<Self, _, _>("binary", (self, op))
    }

    /// What `top_operator(left, right)` simplifies to, if to anything.
    open spec fn simplified_under_binary_operator(
        &self,
        top_operator: LOS,
        left: TermModel<LOS>,
        right: TermModel<LOS>,
    ) -> Option<TermModel<LOS>> {
        some_function_of::<Self, _, _>("simplified_under_binary_operator", (self, top_operator, left, right))
    }

    fn is_binary(&self, op: &LOS) -> (binary: bool)
        ensures
            binary == self.binary(*op),
    ;

    /// Tries to simplify a term whose root is a binary operator.
    fn try_simplify_under_binary_operator(
        &self,
        top_operator: &LOS,
        left: &LanguageTerm<LOS>,
        right: &LanguageTerm<LOS>,
    ) -> (simplified: Option<LanguageTerm<LOS>>)
        ensures
            outcome_model(simplified) == self.simplified_under_binary_operator(*top_operator, left@, right@),
    ;
}

/// What `simplified` gives for the two operands of `term`, where `term` is an
/// application of a binary operator.
pub open spec fn simplified_binary_term<LOS>(
    term: TermModel<LOS>,
    binary: bool,
    simplified: spec_fn(LOS, TermModel<LOS>, TermModel<LOS>) -> Option<TermModel<LOS>>,
) -> Option<TermModel<LOS>> {
    if binary && is_binary_node(term) {
        simplified(term.operator, term.sub_terms[0], term.sub_terms[1])
    } else {
        None
    }
}

/// The simplifications of `checker`, as a function.
pub open spec fn binary_simplification_of<LOS: RewritableLanguageOperatorSymbol>(
    checker: &Box<dyn GenericBinaryOperatorSimplifier<LOS>>,
) -> spec_fn(LOS, TermModel<LOS>, TermModel<LOS>) -> Option<TermModel<LOS>> {
    |top_operator: LOS, left: TermModel<LOS>, right: TermModel<LOS>|
        checker.simplified_under_binary_operator(top_operator, left, right)
}

/// Simplifies a term whose root is a binary operator, as `checker` says.
pub fn transformation_generic_simpl_under_binary_operator<LOS: RewritableLanguageOperatorSymbol>(
    checker: &Box<dyn GenericBinaryOperatorSimplifier<LOS>>,
    term: &LanguageTerm<LOS>,
    _context_term: &LanguageTerm<LOS>,
    _position_in_context_term: &PositionInLanguageTerm,
) -> (outcome: Option<LanguageTerm<LOS>>)
    ensures
        outcome_model(outcome) == simplified_binary_term(
            term@,
            checker.binary(term@.operator),
            binary_simplification_of(checker),
        ),
{
    if checker.is_binary(&term.operator) {
        if let Some((left_sub_term, right_sub_term)) = term.as_binary() {
            return checker.try_simplify_under_binary_operator(&term.operator, left_sub_term, right_sub_term);
        }
    }
    None
}

} // verus!
