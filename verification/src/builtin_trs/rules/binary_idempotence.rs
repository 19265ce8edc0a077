use crate::builtin_trs::interface::BuiltinTermRewritingInterface;
use crate::rewriting_core::rule::outcome_model;
use crate::rewriting_core::terms::term::{LanguageTerm, TermModel, is_binary_node};
use vstd::prelude::*;

verus! {

/// `term` with a duplicated operand dropped, where `term` is an application
/// of a binary idempotent operator `op`:
/// - `op(x,x)` becomes `x`;
/// - else, where `op` is associative, `op(x,op(x,y))` becomes `op(x,y)`;
/// - else, where `op` is associative, `op(op(y,x),x)` becomes `op(y,x)`;
/// - `None` in every other case.
pub open spec fn deduplicated<LOS>(term: TermModel<LOS>, binary_idempotent: bool, associative: bool) -> Option<
    TermModel<LOS>,
> {
    if !(binary_idempotent && is_binary_node(term)) {
        None
    } else {
        let t1 = term.sub_terms[0];
        let t2 = term.sub_terms[1];
        if t1 == t2 {
            Some(t1)
        } else if associative && t2.operator == term.operator && is_binary_node(t2) && t1 == t2.sub_terms[0] {
            Some(t2)
        } else if associative && t1.operator == term.operator && is_binary_node(t1) && t1.sub_terms[1] == t2 {
            Some(t1)
        } else {
            None
        }
    }
}

/// If `op` is a binary idempotent operator, performs `op(x,x) -> x`. If `op`
/// is also associative, it may instead perform `op(x,op(x,y)) -> op(x,y)` or
/// `op(op(y,x),x) -> op(y,x)`. Together with a flush and with the reordering
/// of the operands, this rewrites modulo associativity and commutativity.
pub fn transformation_eliminate_duplicates_under_binary_idempotent_operator<STRI: BuiltinTermRewritingInterface>(
    term: &LanguageTerm<STRI::LanguageOperatorSymbol>,
) -> (outcome: Option<LanguageTerm<STRI::LanguageOperatorSymbol>>)
    ensures
        outcome_model(outcome) == deduplicated(
            term@,
            STRI::arity(term@.operator) == 2 && STRI::binary_idempotent(term@.operator),
            STRI::binary_associative(term@.operator),
        ),
{
    let operator_at_root = &term.operator;
    let precondition = (STRI::op_arity(operator_at_root) == 2) && STRI::op_is_binary_idempotent(operator_at_root);
    if precondition {
        if let Some((t1, t2)) = term.as_binary() {
            if t1 == t2 {
                return Some(t1.clone());
            }
            if STRI::op_is_binary_associative(operator_at_root) {
                if t2.has_operator(operator_at_root) {
                    if let Some((t21, _t22)) = t2.as_binary() {
                        if t1 == t21 {
                            return Some(t2.clone());
                        }
                    }
                }
                if t1.has_operator(operator_at_root) {
                    if let Some((_t11, t12)) = t1.as_binary() {
                        if t12 == t2 {
                            return Some(t1.clone());
                        }
                    }
                }
            }
        }
    }
    None
}

} // verus!
