use crate::builtin_trs::interface::BuiltinTermRewritingInterface;
use crate::rewriting_core::rule::outcome_model;
use crate::rewriting_core::terms::term::{LanguageTerm, TermModel, node};
use vstd::prelude::*;

verus! {

/// `F(G(x))` as `H(x)`, where `F` and `G` are unary and `composed` is `H`.
pub open spec fn with_composed_unary_operators<LOS>(term: TermModel<LOS>, both_unary: bool, composed: Option<LOS>) -> Option<
    TermModel<LOS>,
> {
    if both_unary && term.sub_terms.len() == 1 && term.sub_terms[0].sub_terms.len() == 1 && composed.is_some() {
        Some(node(composed.unwrap(), seq![term.sub_terms[0].sub_terms[0]]))
    } else {
        None
    }
}

/// The operator under the root of `term`, where there is one sub-term only.
pub open spec fn operator_underneath<LOS>(term: TermModel<LOS>) -> LOS
    recommends
        term.sub_terms.len() == 1,
{
    term.sub_terms[0].operator
}

/// If `F` and `G` are two unary operators and there is an `H` such that
/// `F(G(x))` is equivalent to `H(x)` for any x, performs `F(G(x)) -> H(x)`:
/// with powers of real numbers, the power of a power is a power.
pub fn transformation_simpl_compositions_of_unary_operators<STRI: BuiltinTermRewritingInterface>(
    term: &LanguageTerm<STRI::LanguageOperatorSymbol>,
) -> (outcome: Option<LanguageTerm<STRI::LanguageOperatorSymbol>>)
    ensures
        outcome_model(outcome) == with_composed_unary_operators(
            term@,
            STRI::arity(term@.operator) == 1 && STRI::arity(operator_underneath(term@)) == 1,
            STRI::composition(term@.operator, operator_underneath(term@)),
        ),
{
    let operator_at_root = &term.operator;
    if STRI::op_arity(operator_at_root) == 1 {
        if let Some(sub_term) = term.as_unary() {
            if STRI::op_arity(&sub_term.operator) == 1 {
                if let Some(sub_sub_term) = sub_term.as_unary() {
                    if let Some(new_composed_parent_operator) = STRI::compose_nested_unary_operators(
                        operator_at_root,
                        &sub_term.operator,
                    ) {
                        return Some(LanguageTerm::new_unary(new_composed_parent_operator, sub_sub_term.clone()));
                    }
                }
            }
        }
    }
    None
}

} // verus!
