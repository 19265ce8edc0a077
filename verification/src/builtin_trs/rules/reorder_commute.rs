use crate::builtin_trs::util::{
    OperatorPrecedence,
    arity_of,
    comparison_of,
    is_greater,
    is_greater_as_per_lexicographic_path_ordering,
    respects_arity,
    term_respects_arity,
};
use crate::rewriting_core::rule::outcome_model;
use crate::rewriting_core::terms::position::PositionInLanguageTerm;
use crate::rewriting_core::terms::term::{LanguageTerm, RewritableLanguageOperatorSymbol, TermModel, is_binary_node, node};
use std::cmp::Ordering;
use crate::rewriting_core::model::some_function_of;
use vstd::prelude::*;

verus! {

/// Something that can check that two sub-terms may be commuted under a given
/// root, and that provides a total order on the operator symbols.
pub trait CommutativeCheckerAndOrderer<LOS: RewritableLanguageOperatorSymbol> {
    /// `op` is a binary operator under which operands may be exchanged.
    open spec fn considered(&self, op: LOS) -> bool {
        some_function_of::<Self, _, _>("considered", (self, op))
    }

    /// Under `parent_op`, `left_sub_term` and `right_sub_term` may be exchanged.
    open spec fn commutable_under(&self, parent_op: LOS, left_sub_term: TermModel<LOS>, right_sub_term: TermModel<LOS>) -> bool {
        some_function_of::<Self, _, _>("commutable_under", (self, parent_op, left_sub_term, right_sub_term))
    }

    /// How `op1` compares to `op2`.
    open spec fn comparison(&self, op1: LOS, op2: LOS) -> Ordering {
        some_function_of::<Self, _, _>("comparison", (self, op1, op2))
    }

    /// The number of sub-terms that `op` takes.
    open spec fn arity(&self, op: LOS) -> nat {
        some_function_of::<Self, _, _>("arity", (self, op))
    }

    /// `op` is associative.
    open spec fn associative(&self, op: LOS) -> bool {
        some_function_of::<Self, _, _>("associative", (self, op))
    }

    fn is_a_binary_operator_we_may_consider(&self, op: &LOS) -> (considered: bool)
        ensures
            considered == self.considered(*op),
    ;

    fn may_commute_under(
        &self,
        parent_op: &LOS,
        left_sub_term: &LanguageTerm<LOS>,
        right_sub_term: &LanguageTerm<LOS>,
    ) -> (commutable: bool)
        ensures
            commutable == self.commutable_under(*parent_op, left_sub_term@, right_sub_term@),
    ;

    fn compare_operators(&self, op1: &LOS, op2: &LOS) -> (ordering: Ordering)
        ensures
            ordering == self.comparison(*op1, *op2),
    ;

    fn get_arity(&self, op: &LOS) -> (arity: usize)
        ensures
            arity == self.arity(*op),
    ;

    fn is_associative(&self, op: &LOS) -> (associative: bool)
        ensures
            associative == self.associative(*op),
    ;
}

/// The precedence on operator symbols that a [`CommutativeCheckerAndOrderer`] holds.
#[verifier::reject_recursive_types(LOS)]
pub struct PrecedenceOfCommutativeChecker<'a, LOS: RewritableLanguageOperatorSymbol> {
    pub checker: &'a Box<dyn CommutativeCheckerAndOrderer<LOS>>,
}

impl<'a, LOS: RewritableLanguageOperatorSymbol> OperatorPrecedence<LOS> for PrecedenceOfCommutativeChecker<'a, LOS> {
    open spec fn comparison(&self, op1: LOS, op2: LOS) -> Ordering {
        self.checker.comparison(op1, op2)
    }

    open spec fn arity(&self, op: LOS) -> nat {
        self.checker.arity(op)
    }

    fn compare_operators(&self, op1: &LOS, op2: &LOS) -> (ordering: Ordering) {
        self.checker.compare_operators(op1, op2)
    }

    fn get_arity(&self, op: &LOS) -> (arity: usize) {
        self.checker.get_arity(op)
    }
}

/// Which operands `checker` lets commute, as a function.
pub open spec fn commutation_of<LOS: RewritableLanguageOperatorSymbol>(
    checker: &Box<dyn CommutativeCheckerAndOrderer<LOS>>,
) -> spec_fn(LOS, TermModel<LOS>, TermModel<LOS>) -> bool {
    |parent_op: LOS, left_sub_term: TermModel<LOS>, right_sub_term: TermModel<LOS>|
        checker.commutable_under(parent_op, left_sub_term, right_sub_term)
}

/// `x` and `y` stand in the wrong order under `op`: they may commute, and `x`
/// dominates `y`.
pub open spec fn out_of_order<LOS>(
    op: LOS,
    x: TermModel<LOS>,
    y: TermModel<LOS>,
    commutable: spec_fn(LOS, TermModel<LOS>, TermModel<LOS>) -> bool,
    comparison: spec_fn(LOS, LOS) -> Ordering,
) -> bool {
    commutable(op, x, y) && is_greater(x, y, comparison)
}

/// The operands of `term` put in order, where `term` is an application of a
/// commutative operator `op` that respects the arities:
/// - `op(y,x)` becomes `op(x,y)` where `y` and `x` are out of order;
/// - else, where `op` is associative, `op(y,op(x,z))` becomes `op(x,op(y,z))`
///   where `y` and `x` are out of order;
/// - else, where `op` is associative, `op(op(z,y),x)` becomes `op(op(z,x),y)`
///   where `y` and `x` are out of order;
/// - `None` in every other case.
pub open spec fn reordered_under_commutative_operator<LOS>(
    term: TermModel<LOS>,
    considered: bool,
    associative: bool,
    commutable: spec_fn(LOS, TermModel<LOS>, TermModel<LOS>) -> bool,
    comparison: spec_fn(LOS, LOS) -> Ordering,
    arity: spec_fn(LOS) -> nat,
) -> Option<TermModel<LOS>> {
    if !(considered && is_binary_node(term) && respects_arity(term, arity)) {
        None
    } else {
        let op = term.operator;
        let left = term.sub_terms[0];
        let right = term.sub_terms[1];
        if out_of_order(op, left, right, commutable, comparison) {
            Some(node(op, seq![right, left]))
        } else if associative && right.operator == op && is_binary_node(right) && out_of_order(
            op,
            left,
            right.sub_terms[0],
            commutable,
            comparison,
        ) {
            Some(node(op, seq![right.sub_terms[0], node(op, seq![left, right.sub_terms[1]])]))
        } else if associative && left.operator == op && is_binary_node(left) && out_of_order(
            op,
            left.sub_terms[1],
            right,
            commutable,
            comparison,
        ) {
            Some(node(op, seq![node(op, seq![left.sub_terms[0], right]), left.sub_terms[1]]))
        } else {
            None
        }
    }
}

/// Whether `x` and `y` stand in the wrong order under `op`.
fn are_out_of_order<LOS: RewritableLanguageOperatorSymbol>(
    checker: &Box<dyn CommutativeCheckerAndOrderer<LOS>>,
    op: &LOS,
    x: &LanguageTerm<LOS>,
    y: &LanguageTerm<LOS>,
) -> (wrong: bool)
    requires
        respects_arity(x@, arity_of(PrecedenceOfCommutativeChecker { checker })),
        respects_arity(y@, arity_of(PrecedenceOfCommutativeChecker { checker })),
    ensures
        wrong == out_of_order(
            *op,
            x@,
            y@,
            commutation_of(checker),
            comparison_of(PrecedenceOfCommutativeChecker { checker }),
        ),
{
    let precedence = PrecedenceOfCommutativeChecker { checker };
    checker.may_commute_under(op, x, y) && is_greater_as_per_lexicographic_path_ordering(x, y, &precedence)
}

/// If `op` is a binary commutative operator, performs `op(y,x) -> op(x,y)`
/// where `y` dominates `x` in the ordering of terms. If `op` is also
/// associative, it may instead perform `op(y,op(x,_)) -> op(x,op(y,_))` or
/// `op(op(_,y),x) -> op(op(_,x),y)`.
pub fn transformation_reorder_subterms_under_commutative_operator<LOS: RewritableLanguageOperatorSymbol>(
    checker: &Box<dyn CommutativeCheckerAndOrderer<LOS>>,
    term: &LanguageTerm<LOS>,
    _context_term: &LanguageTerm<LOS>,
    _position_in_context_term: &PositionInLanguageTerm,
) -> (outcome: Option<LanguageTerm<LOS>>)
    ensures
        outcome_model(outcome) == reordered_under_commutative_operator(
            term@,
            checker.considered(term@.operator),
            checker.associative(term@.operator),
            commutation_of(checker),
            comparison_of(PrecedenceOfCommutativeChecker { checker }),
            arity_of(PrecedenceOfCommutativeChecker { checker }),
        ),
{
    if !checker.is_a_binary_operator_we_may_consider(&term.operator) {
        return None;
    }
    let precedence = PrecedenceOfCommutativeChecker { checker };
    let ghost arity = arity_of(precedence);
    if let Some((left_sub_term, right_sub_term)) = term.as_binary() {
        if !term_respects_arity(term, &precedence) {
            return None;
        }
        let considered_op = &term.operator;
        assert(respects_arity(term@.sub_terms[0], arity));
        assert(respects_arity(term@.sub_terms[1], arity));
        if are_out_of_order(checker, considered_op, left_sub_term, right_sub_term) {
            return Some(
                LanguageTerm::new_binary(term.clone_operator(), right_sub_term.clone(), left_sub_term.clone()),
            );
        }
        if checker.is_associative(considered_op) {
            if right_sub_term.has_operator(considered_op) {
                if let Some((t21, t22)) = right_sub_term.as_binary() {
                    assert(respects_arity(right_sub_term@.sub_terms[0], arity));
                    if are_out_of_order(checker, considered_op, left_sub_term, t21) {
                        let new_right = LanguageTerm::new_binary(
                            term.clone_operator(),
                            left_sub_term.clone(),
                            t22.clone(),
                        );
                        return Some(LanguageTerm::new_binary(term.clone_operator(), t21.clone(), new_right));
                    }
                }
            }
            if left_sub_term.has_operator(considered_op) {
                if let Some((t11, t12)) = left_sub_term.as_binary() {
                    assert(respects_arity(left_sub_term@.sub_terms[1], arity));
                    if are_out_of_order(checker, considered_op, t12, right_sub_term) {
                        let new_left = LanguageTerm::new_binary(
                            term.clone_operator(),
                            t11.clone(),
                            right_sub_term.clone(),
                        );
                        return Some(LanguageTerm::new_binary(term.clone_operator(), new_left, t12.clone()));
                    }
                }
            }
        }
    }
    None
}

} // verus!
