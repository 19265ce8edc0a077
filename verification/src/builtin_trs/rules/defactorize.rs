use crate::builtin_trs::interface::BuiltinTermRewritingInterface;
use crate::builtin_trs::rules::factorization::defactorize::{
    defactorized_left_distributive,
    defactorized_right_distributive,
    develop_on_the_left,
    develop_on_the_right,
};
use crate::rewriting_core::rule::outcome_model;
use crate::rewriting_core::terms::term::LanguageTerm;
use vstd::prelude::*;

verus! {

/// Which operators of the language are binary, as a function.
pub open spec fn binary_operators_of<STRI: BuiltinTermRewritingInterface>() -> spec_fn(
    STRI::LanguageOperatorSymbol,
) -> bool {
    |op: STRI::LanguageOperatorSymbol| STRI::arity(op) == 2
}

/// Which operators of the language may be developed over which, as a function:
/// `outer` over `inner` where `inner` distributes over `outer` in the words
/// of the language.
pub open spec fn development_of<STRI: BuiltinTermRewritingInterface>() -> spec_fn(
    STRI::LanguageOperatorSymbol,
    STRI::LanguageOperatorSymbol,
) -> bool {
    |outer: STRI::LanguageOperatorSymbol, inner: STRI::LanguageOperatorSymbol| STRI::distributes_over(inner, outer)
}

/// If the binary operator `op1` distributes over the binary operator `op2`,
/// performs `op2(x,op1(y,z)) -> op1(op2(x,y),op2(x,z))`.
pub fn transformation_defactorize_left_distributive<STRI: BuiltinTermRewritingInterface>(
    term: &LanguageTerm<STRI::LanguageOperatorSymbol>,
) -> (outcome: Option<LanguageTerm<STRI::LanguageOperatorSymbol>>)
    ensures
        outcome_model(outcome) == defactorized_left_distributive(
            term@,
            binary_operators_of::<STRI>(),
            development_of::<STRI>(),
        ),
{
    let operator_at_root = &term.operator;
    if STRI::op_arity(operator_at_root) == 2 {
        if let Some((t1, t2)) = term.as_binary() {
            if t2.sub_terms.len() == 2 && STRI::op_arity(&t2.operator) == 2 && STRI::op_distributes_over(
                &t2.operator,
                operator_at_root,
            ) {
                return Some(develop_on_the_left(term, t1, t2));
            }
        }
    }
    None
}

/// If the binary operator `op1` distributes over the binary operator `op2`,
/// performs `op2(op1(y,z),x) -> op1(op2(y,x),op2(z,x))`.
pub fn transformation_defactorize_right_distributive<STRI: BuiltinTermRewritingInterface>(
    term: &LanguageTerm<STRI::LanguageOperatorSymbol>,
) -> (outcome: Option<LanguageTerm<STRI::LanguageOperatorSymbol>>)
    ensures
        outcome_model(outcome) == defactorized_right_distributive(
            term@,
            binary_operators_of::<STRI>(),
            development_of::<STRI>(),
        ),
{
    let operator_at_root = &term.operator;
    if STRI::op_arity(operator_at_root) == 2 {
        if let Some((t1, t2)) = term.as_binary() {
            if t1.sub_terms.len() == 2 && STRI::op_arity(&t1.operator) == 2 && STRI::op_distributes_over(
                &t1.operator,
                operator_at_root,
            ) {
                return Some(develop_on_the_right(term, t1, t2));
            }
        }
    }
    None
}

} // verus!
