use crate::builtin_trs::interface::BuiltinTermRewritingInterface;
use crate::rewriting_core::rule::outcome_model;
use crate::rewriting_core::terms::term::{LanguageTerm, TermModel, is_binary_node};
use vstd::prelude::*;

verus! {

/// `op(c,x)` and `op(x,c)` as `x`, where `op` is binary and `c` is neutral
/// for `op`; the left operand is looked at first.
pub open spec fn without_neutral_element<LOS>(
    term: TermModel<LOS>,
    binary: bool,
    neutral: spec_fn(TermModel<LOS>, LOS) -> bool,
) -> Option<TermModel<LOS>> {
    if !(binary && is_binary_node(term)) {
        None
    } else if neutral(term.sub_terms[0], term.operator) {
        Some(term.sub_terms[1])
    } else if neutral(term.sub_terms[1], term.operator) {
        Some(term.sub_terms[0])
    } else {
        None
    }
}

/// `op(c)` as `c`, where `op` is unary and `c` is a fixpoint of `op`.
pub open spec fn at_fixpoint<LOS>(term: TermModel<LOS>, unary: bool, fixpoint: spec_fn(TermModel<LOS>, LOS) -> bool) -> Option<
    TermModel<LOS>,
> {
    if unary && term.sub_terms.len() == 1 && fixpoint(term.sub_terms[0], term.operator) {
        Some(term.sub_terms[0])
    } else {
        None
    }
}

/// What the language takes for neutral elements and fixpoints, as a function.
pub open spec fn neutrality_of<STRI: BuiltinTermRewritingInterface>() -> spec_fn(
    TermModel<STRI::LanguageOperatorSymbol>,
    STRI::LanguageOperatorSymbol,
) -> bool {
    |sub_term: TermModel<STRI::LanguageOperatorSymbol>, parent_operator: STRI::LanguageOperatorSymbol|
        STRI::neutral_element_or_fixpoint_for(sub_term, parent_operator)
}

/// If `c` is a neutral element for a binary operator `op`, performs
/// `op(c,x) -> x` or `op(x,c) -> x`.
pub fn transformation_simpl_neutral_under_binary_operator<STRI: BuiltinTermRewritingInterface>(
    term: &LanguageTerm<STRI::LanguageOperatorSymbol>,
) -> (outcome: Option<LanguageTerm<STRI::LanguageOperatorSymbol>>)
    ensures
        outcome_model(outcome) == without_neutral_element(
            term@,
            STRI::arity(term@.operator) == 2,
            neutrality_of::<STRI>(),
        ),
{
    let operator_at_root = &term.operator;
    if STRI::op_arity(operator_at_root) == 2 {
        if let Some((left_sub_term, right_sub_term)) = term.as_binary() {
            if STRI::is_neutral_element_or_fixpoint_for(left_sub_term, operator_at_root) {
                return Some(right_sub_term.clone());
            }
            if STRI::is_neutral_element_or_fixpoint_for(right_sub_term, operator_at_root) {
                return Some(left_sub_term.clone());
            }
        }
    }
    None
}

/// If `c` is a fixpoint for a unary operator `op`, performs `op(c) -> c`.
pub fn transformation_simpl_fixpoint_under_unary_operator<STRI: BuiltinTermRewritingInterface>(
    term: &LanguageTerm<STRI::LanguageOperatorSymbol>,
) -> (outcome: Option<LanguageTerm<STRI::LanguageOperatorSymbol>>)
    ensures
        outcome_model(outcome) == at_fixpoint(term@, STRI::arity(term@.operator) == 1, neutrality_of::<STRI>()),
{
    let operator_at_root = &term.operator;
    if STRI::op_arity(operator_at_root) == 1 {
        if let Some(sub_term) = term.as_unary() {
            if STRI::is_neutral_element_or_fixpoint_for(sub_term, operator_at_root) {
                return Some(sub_term.clone());
            }
        }
    }
    None
}

} // verus!
