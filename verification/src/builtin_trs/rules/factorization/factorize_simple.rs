use crate::builtin_trs::rules::factorization::distributivity_checker::DistributivityChecker;
use crate::rewriting_core::rule::outcome_model;
use crate::rewriting_core::terms::position::PositionInLanguageTerm;
use crate::rewriting_core::terms::term::{LanguageTerm, RewritableLanguageOperatorSymbol, TermModel, is_binary_node, node};
use vstd::prelude::*;

verus! {

/// `term` has the shape `op2(op1(_,_),op1(_,_))`, with `op2` and `op1` binary.
pub open spec fn is_sum_of_two_products<LOS>(term: TermModel<LOS>, binary: spec_fn(LOS) -> bool) -> bool {
    &&& binary(term.operator)
    &&& has_two_alike_binary_sub_terms(term)
    &&& binary(term.sub_terms[0].operator)
}

/// `op2(op1(x,y),op1(x,z))` factorized on the left, `op1(x,op2(y,z))`, where
/// `op1` is left distributive over `op2`; `None` for a term of another shape.
pub open spec fn factorized_left_distributive<LOS>(
    term: TermModel<LOS>,
    binary: spec_fn(LOS) -> bool,
    left_distributive_over: spec_fn(LOS, LOS) -> bool,
) -> Option<TermModel<LOS>> {
    if is_sum_of_two_products(term, binary) && left_distributive_over(term.sub_terms[0].operator, term.operator)
        && term.sub_terms[0].sub_terms[0] == term.sub_terms[1].sub_terms[0] {
        let op1 = term.sub_terms[0].operator;
        let x = term.sub_terms[0].sub_terms[0];
        let y = term.sub_terms[0].sub_terms[1];
        let z = term.sub_terms[1].sub_terms[1];
        Some(node(op1, seq![x, node(term.operator, seq![y, z])]))
    } else {
        None
    }
}

/// `op2(op1(y,x),op1(z,x))` factorized on the right, `op1(op2(y,z),x)`, where
/// `op1` is right distributive over `op2`; `None` for a term of another shape.
pub open spec fn factorized_right_distributive<LOS>(
    term: TermModel<LOS>,
    binary: spec_fn(LOS) -> bool,
    right_distributive_over: spec_fn(LOS, LOS) -> bool,
) -> Option<TermModel<LOS>> {
    if is_sum_of_two_products(term, binary) && right_distributive_over(term.sub_terms[0].operator, term.operator)
        && term.sub_terms[0].sub_terms[1] == term.sub_terms[1].sub_terms[1] {
        let op1 = term.sub_terms[0].operator;
        let x = term.sub_terms[0].sub_terms[1];
        let y = term.sub_terms[0].sub_terms[0];
        let z = term.sub_terms[1].sub_terms[0];
        Some(node(op1, seq![node(term.operator, seq![y, z]), x]))
    } else {
        None
    }
}

/// Which operators `checker` takes for binary, as a function.
pub open spec fn binary_of<LOS: RewritableLanguageOperatorSymbol>(
    checker: &Box<dyn DistributivityChecker<LOS>>,
) -> spec_fn(LOS) -> bool {
    |op: LOS| checker.binary(op)
}

/// Which operators `checker` takes for left distributive over which, as a function.
pub open spec fn left_distributivity_of<LOS: RewritableLanguageOperatorSymbol>(
    checker: &Box<dyn DistributivityChecker<LOS>>,
) -> spec_fn(LOS, LOS) -> bool {
    |op1: LOS, op2: LOS| checker.left_distributive_over(op1, op2)
}

/// Which operators `checker` takes for right distributive over which, as a function.
pub open spec fn right_distributivity_of<LOS: RewritableLanguageOperatorSymbol>(
    checker: &Box<dyn DistributivityChecker<LOS>>,
) -> spec_fn(LOS, LOS) -> bool {
    |op1: LOS, op2: LOS| checker.right_distributive_over(op1, op2)
}

/// `term` has the shape `op2(op1(_,_),op1(_,_))`.
pub open spec fn has_two_alike_binary_sub_terms<LOS>(term: TermModel<LOS>) -> bool {
    &&& is_binary_node(term)
    &&& term.sub_terms[0].operator == term.sub_terms[1].operator
    &&& is_binary_node(term.sub_terms[0])
    &&& is_binary_node(term.sub_terms[1])
}

/// The two sub-terms of `term`, where `term` has the shape `op2(op1(_,_),op1(_,_))`.
pub fn as_two_alike_binary_sub_terms<'a, LOS: RewritableLanguageOperatorSymbol>(term: &'a LanguageTerm<LOS>) -> (products:
    Option<(&'a LanguageTerm<LOS>, &'a LanguageTerm<LOS>)>)
    ensures
        products.is_some() == has_two_alike_binary_sub_terms(term@),
        products matches Some((left, right)) ==> term@.sub_terms == seq![left@, right@],
{
    if let Some((left_sub_term, right_sub_term)) = term.as_binary() {
        if left_sub_term.has_operator(&right_sub_term.operator) && left_sub_term.sub_terms.len() == 2
            && right_sub_term.sub_terms.len() == 2 {
            return Some((left_sub_term, right_sub_term));
        }
    }
    None
}

/// `op2(op1(x,y),op1(x,z))` as `op1(x,op2(y,z))`, where the two `x` are equal.
pub fn factorize_on_the_left<LOS: RewritableLanguageOperatorSymbol>(
    term: &LanguageTerm<LOS>,
    left_sub_term: &LanguageTerm<LOS>,
    right_sub_term: &LanguageTerm<LOS>,
) -> (outcome: Option<LanguageTerm<LOS>>)
    requires
        is_binary_node(left_sub_term@),
        is_binary_node(right_sub_term@),
    ensures
        outcome_model(outcome) == if left_sub_term@.sub_terms[0] == right_sub_term@.sub_terms[0] {
            Some(
                node(
                    left_sub_term@.operator,
                    seq![
                        left_sub_term@.sub_terms[0],
                        node(term@.operator, seq![left_sub_term@.sub_terms[1], right_sub_term@.sub_terms[1]]),
                    ],
                ),
            )
        } else {
            None
        },
{
    if let Some((a, y)) = left_sub_term.as_binary() {
        if let Some((b, z)) = right_sub_term.as_binary() {
            if a == b {
                let new_right = LanguageTerm::new_binary(term.clone_operator(), y.clone(), z.clone());
                return Some(LanguageTerm::new_binary(left_sub_term.clone_operator(), a.clone(), new_right));
            }
        }
    }
    None
}

/// `op2(op1(y,x),op1(z,x))` as `op1(op2(y,z),x)`, where the two `x` are equal.
pub fn factorize_on_the_right<LOS: RewritableLanguageOperatorSymbol>(
    term: &LanguageTerm<LOS>,
    left_sub_term: &LanguageTerm<LOS>,
    right_sub_term: &LanguageTerm<LOS>,
) -> (outcome: Option<LanguageTerm<LOS>>)
    requires
        is_binary_node(left_sub_term@),
        is_binary_node(right_sub_term@),
    ensures
        outcome_model(outcome) == if left_sub_term@.sub_terms[1] == right_sub_term@.sub_terms[1] {
            Some(
                node(
                    left_sub_term@.operator,
                    seq![
                        node(term@.operator, seq![left_sub_term@.sub_terms[0], right_sub_term@.sub_terms[0]]),
                        left_sub_term@.sub_terms[1],
                    ],
                ),
            )
        } else {
            None
        },
{
    if let Some((y, a)) = left_sub_term.as_binary() {
        if let Some((z, b)) = right_sub_term.as_binary() {
            if a == b {
                let new_left = LanguageTerm::new_binary(term.clone_operator(), y.clone(), z.clone());
                return Some(LanguageTerm::new_binary(left_sub_term.clone_operator(), new_left, a.clone()));
            }
        }
    }
    None
}

/// Performs `op2(op1(x,y),op1(x,z)) -> op1(x,op2(y,z))`.
pub fn transformation_factorize_left_distributive<LOS: RewritableLanguageOperatorSymbol>(
    checker: &Box<dyn DistributivityChecker<LOS>>,
    term: &LanguageTerm<LOS>,
    _context_term: &LanguageTerm<LOS>,
    _position_in_context_term: &PositionInLanguageTerm,
) -> (outcome: Option<LanguageTerm<LOS>>)
    ensures
        outcome_model(outcome) == factorized_left_distributive(
            term@,
            binary_of(checker),
            left_distributivity_of(checker),
        ),
{
    if checker.is_binary(&term.operator) {
        if let Some((left_sub_term, right_sub_term)) = as_two_alike_binary_sub_terms(term) {
            if checker.is_binary(&left_sub_term.operator) && checker.is_left_distributive_over(
                &left_sub_term.operator,
                &term.operator,
            ) {
                return factorize_on_the_left(term, left_sub_term, right_sub_term);
            }
        }
    }
    None
}

/// Performs `op2(op1(y,x),op1(z,x)) -> op1(op2(y,z),x)`.
pub fn transformation_factorize_right_distributive<LOS: RewritableLanguageOperatorSymbol>(
    checker: &Box<dyn DistributivityChecker<LOS>>,
    term: &LanguageTerm<LOS>,
    _context_term: &LanguageTerm<LOS>,
    _position_in_context_term: &PositionInLanguageTerm,
) -> (outcome: Option<LanguageTerm<LOS>>)
    ensures
        outcome_model(outcome) == factorized_right_distributive(
            term@,
            binary_of(checker),
            right_distributivity_of(checker),
        ),
{
    if checker.is_binary(&term.operator) {
        if let Some((left_sub_term, right_sub_term)) = as_two_alike_binary_sub_terms(term) {
            if checker.is_binary(&left_sub_term.operator) && checker.is_right_distributive_over(
                &left_sub_term.operator,
                &term.operator,
            ) {
                return factorize_on_the_right(term, left_sub_term, right_sub_term);
            }
        }
    }
    None
}

} // verus!
