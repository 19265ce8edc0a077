use crate::builtin_trs::rules::factorization::distributivity_checker::DistributivityChecker;
use crate::builtin_trs::rules::factorization::factorize_simple::{
    binary_of,
    left_distributivity_of,
    right_distributivity_of,
};
use crate::rewriting_core::rule::outcome_model;
use crate::rewriting_core::terms::position::PositionInLanguageTerm;
use crate::rewriting_core::terms::term::{LanguageTerm, RewritableLanguageOperatorSymbol, TermModel, is_binary_node, node};
use vstd::prelude::*;

verus! {

/// `op1(x,op2(y,z))` developed, `op2(op1(x,y),op1(x,z))`, where `op1` is left
/// distributive over `op2`; `None` for a term of another shape.
pub open spec fn defactorized_left_distributive<LOS>(
    term: TermModel<LOS>,
    binary: spec_fn(LOS) -> bool,
    left_distributive_over: spec_fn(LOS, LOS) -> bool,
) -> Option<TermModel<LOS>> {
    if binary(term.operator) && is_binary_node(term) && binary(term.sub_terms[1].operator) && is_binary_node(
        term.sub_terms[1],
    ) && left_distributive_over(term.operator, term.sub_terms[1].operator) {
        let op1 = term.operator;
        let op2 = term.sub_terms[1].operator;
        let x = term.sub_terms[0];
        let y = term.sub_terms[1].sub_terms[0];
        let z = term.sub_terms[1].sub_terms[1];
        Some(node(op2, seq![node(op1, seq![x, y]), node(op1, seq![x, z])]))
    } else {
        None
    }
}

/// `op1(op2(y,z),x)` developed, `op2(op1(y,x),op1(z,x))`, where `op1` is right
/// distributive over `op2`; `None` for a term of another shape.
pub open spec fn defactorized_right_distributive<LOS>(
    term: TermModel<LOS>,
    binary: spec_fn(LOS) -> bool,
    right_distributive_over: spec_fn(LOS, LOS) -> bool,
) -> Option<TermModel<LOS>> {
    if binary(term.operator) && is_binary_node(term) && binary(term.sub_terms[0].operator) && is_binary_node(
        term.sub_terms[0],
    ) && right_distributive_over(term.operator, term.sub_terms[0].operator) {
        let op1 = term.operator;
        let op2 = term.sub_terms[0].operator;
        let x = term.sub_terms[1];
        let y = term.sub_terms[0].sub_terms[0];
        let z = term.sub_terms[0].sub_terms[1];
        Some(node(op2, seq![node(op1, seq![y, x]), node(op1, seq![z, x])]))
    } else {
        None
    }
}

/// `op1(x,op2(y,z))` as `op2(op1(x,y),op1(x,z))`.
pub fn develop_on_the_left<LOS: RewritableLanguageOperatorSymbol>(
    term: &LanguageTerm<LOS>,
    x: &LanguageTerm<LOS>,
    right_sub_term: &LanguageTerm<LOS>,
) -> (developed: LanguageTerm<LOS>)
    requires
        is_binary_node(right_sub_term@),
    ensures
        developed@ == node(
            right_sub_term@.operator,
            seq![
                node(term@.operator, seq![x@, right_sub_term@.sub_terms[0]]),
                node(term@.operator, seq![x@, right_sub_term@.sub_terms[1]]),
            ],
        ),
{
    let y = &right_sub_term.sub_terms[0];
    let z = &right_sub_term.sub_terms[1];
    assert(right_sub_term@.sub_terms[0] == y@ && right_sub_term@.sub_terms[1] == z@);
    let new_left = LanguageTerm::new_binary(term.clone_operator(), x.clone(), y.clone());
    let new_right = LanguageTerm::new_binary(term.clone_operator(), x.clone(), z.clone());
    LanguageTerm::new_binary(right_sub_term.clone_operator(), new_left, new_right)
}

/// `op1(op2(y,z),x)` as `op2(op1(y,x),op1(z,x))`.
pub fn develop_on_the_right<LOS: RewritableLanguageOperatorSymbol>(
    term: &LanguageTerm<LOS>,
    left_sub_term: &LanguageTerm<LOS>,
    x: &LanguageTerm<LOS>,
) -> (developed: LanguageTerm<LOS>)
    requires
        is_binary_node(left_sub_term@),
    ensures
        developed@ == node(
            left_sub_term@.operator,
            seq![
                node(term@.operator, seq![left_sub_term@.sub_terms[0], x@]),
                node(term@.operator, seq![left_sub_term@.sub_terms[1], x@]),
            ],
        ),
{
    let y = &left_sub_term.sub_terms[0];
    let z = &left_sub_term.sub_terms[1];
    assert(left_sub_term@.sub_terms[0] == y@ && left_sub_term@.sub_terms[1] == z@);
    let new_left = LanguageTerm::new_binary(term.clone_operator(), y.clone(), x.clone());
    let new_right = LanguageTerm::new_binary(term.clone_operator(), z.clone(), x.clone());
    LanguageTerm::new_binary(left_sub_term.clone_operator(), new_left, new_right)
}

/// Performs `op1(x,op2(y,z)) -> op2(op1(x,y),op1(x,z))`.
pub fn transformation_defactorize_left_distributive<LOS: RewritableLanguageOperatorSymbol>(
    checker: &Box<dyn DistributivityChecker<LOS>>,
    term: &LanguageTerm<LOS>,
    _context_term: &LanguageTerm<LOS>,
    _position_in_context_term: &PositionInLanguageTerm,
) -> (outcome: Option<LanguageTerm<LOS>>)
    ensures
        outcome_model(outcome) == defactorized_left_distributive(
            term@,
            binary_of(checker),
            left_distributivity_of(checker),
        ),
{
    if checker.is_binary(&term.operator) {
        if let Some((x, right_sub_term)) = term.as_binary() {
            if checker.is_binary(&right_sub_term.operator) && right_sub_term.sub_terms.len() == 2
                && checker.is_left_distributive_over(&term.operator, &right_sub_term.operator) {
                return Some(develop_on_the_left(term, x, right_sub_term));
            }
        }
    }
    None
}

/// Performs `op1(op2(y,z),x) -> op2(op1(y,x),op1(z,x))`.
pub fn transformation_defactorize_right_distributive<LOS: RewritableLanguageOperatorSymbol>(
    checker: &Box<dyn DistributivityChecker<LOS>>,
    term: &LanguageTerm<LOS>,
    _context_term: &LanguageTerm<LOS>,
    _position_in_context_term: &PositionInLanguageTerm,
) -> (outcome: Option<LanguageTerm<LOS>>)
    ensures
        outcome_model(outcome) == defactorized_right_distributive(
            term@,
            binary_of(checker),
            right_distributivity_of(checker),
        ),
{
    if checker.is_binary(&term.operator) {
        if let Some((left_sub_term, x)) = term.as_binary() {
            if checker.is_binary(&left_sub_term.operator) && left_sub_term.sub_terms.len() == 2
                && checker.is_right_distributive_over(&term.operator, &left_sub_term.operator) {
                return Some(develop_on_the_right(term, left_sub_term, x));
            }
        }
    }
    None
}

} // verus!
