use crate::rewriting_core::rule::outcome_model;
use crate::rewriting_core::terms::position::PositionInLanguageTerm;
use crate::rewriting_core::terms::term::{LanguageTerm, RewritableLanguageOperatorSymbol, TermModel, is_binary_node, node};
use crate::rewriting_core::model::some_function_of;
use vstd::prelude::*;

verus! {

/// Something that can check an operator is associative.
pub trait AssociativityChecker<LOS: RewritableLanguageOperatorSymbol> {
    /// `op` is a binary associative operator.
    open spec fn binary_associative(&self, op: LOS) -> bool {
        some_function_of::<Self, _, _>("binary_associative", (self, op))
    }

    fn is_binary_associative(&self, op: &LOS) -> (associative: bool)
        ensures
            associative == self.binary_associative(*op),
    ;
}

/// `op(op(x,y),z)` flushed to the right, `op(x,op(y,z))`, where `op` is
/// associative; `None` for a term of another shape.
pub open spec fn flushed_to_the_right<LOS>(term: TermModel<LOS>, associative: bool) -> Option<TermModel<LOS>> {
    if associative && is_binary_node(term) && term.sub_terms[0].operator == term.operator && is_binary_node(
        term.sub_terms[0],
    ) {
        let x = term.sub_terms[0].sub_terms[0];
        let y = term.sub_terms[0].sub_terms[1];
        let z = term.sub_terms[1];
        Some(node(term.operator, seq![x, node(term.operator, seq![y, z])]))
    } else {
        None
    }
}

/// `op(x,op(y,z))` flushed to the left, `op(op(x,y),z)`, where `op` is
/// associative; `None` for a term of another shape.
pub open spec fn flushed_to_the_left<LOS>(term: TermModel<LOS>, associative: bool) -> Option<TermModel<LOS>> {
    if associative && is_binary_node(term) && term.sub_terms[1].operator == term.operator && is_binary_node(
        term.sub_terms[1],
    ) {
        let x = term.sub_terms[0];
        let y = term.sub_terms[1].sub_terms[0];
        let z = term.sub_terms[1].sub_terms[1];
        Some(node(term.operator, seq![node(term.operator, seq![x, y]), z]))
    } else {
        None
    }
}

/// If `op` is a binary associative operator, performs
/// `op(op(x,y),z) -> op(x,op(y,z))`: it flushes the content to the right.
pub fn transformation_flush_to_the_right<LOS: RewritableLanguageOperatorSymbol>(
    checker: &Box<dyn AssociativityChecker<LOS>>,
    term: &LanguageTerm<LOS>,
    _context_term: &LanguageTerm<LOS>,
    _position_in_context_term: &PositionInLanguageTerm,
) -> (outcome: Option<LanguageTerm<LOS>>)
    ensures
        outcome_model(outcome) == flushed_to_the_right(term@, checker.binary_associative(term@.operator)),
{
    if !checker.is_binary_associative(&term.operator) {
        return None;
    }
    if let Some((t1, t2)) = term.as_binary() {
        if t1.has_operator(&term.operator) {
            if let Some((t11, t12)) = t1.as_binary() {
                let new_right_sub_term = LanguageTerm::new_binary(term.clone_operator(), t12.clone(), t2.clone());
                return Some(LanguageTerm::new_binary(term.clone_operator(), t11.clone(), new_right_sub_term));
            }
        }
    }
    None
}

/// If `op` is a binary associative operator, performs
/// `op(x,op(y,z)) -> op(op(x,y),z)`: it flushes the content to the left.
pub fn transformation_flush_to_the_left<LOS: RewritableLanguageOperatorSymbol>(
    checker: &Box<dyn AssociativityChecker<LOS>>,
    term: &LanguageTerm<LOS>,
    _context_term: &LanguageTerm<LOS>,
    _position_in_context_term: &PositionInLanguageTerm,
) -> (outcome: Option<LanguageTerm<LOS>>)
    ensures
        outcome_model(outcome) == flushed_to_the_left(term@, checker.binary_associative(term@.operator)),
{
    if !checker.is_binary_associative(&term.operator) {
        return None;
    }
    if let Some((t1, t2)) = term.as_binary() {
        if t2.has_operator(&term.operator) {
            if let Some((t21, t22)) = t2.as_binary() {
                let new_left_sub_term = LanguageTerm::new_binary(term.clone_operator(), t1.clone(), t21.clone());
                return Some(LanguageTerm::new_binary(term.clone_operator(), new_left_sub_term, t22.clone()));
            }
        }
    }
    None
}

} // verus!
