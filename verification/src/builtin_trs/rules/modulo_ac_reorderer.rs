use crate::builtin_trs::rules::reorder_commute::out_of_order;
use crate::builtin_trs::util::{
    OperatorPrecedence,
    arity_of,
    clone_borrowed,
    comparison_of,
    flattened,
    fold_associative_sub_terms_recursively,
    folded,
    get_associative_sub_terms_recursively,
    is_greater_as_per_lexicographic_path_ordering,
    lemma_flattened_respect_arity,
    models_of_borrowed,
    respects_arity,
    term_respects_arity,
};
use crate::rewriting_core::rule::outcome_model;
use crate::rewriting_core::terms::position::PositionInLanguageTerm;
use crate::rewriting_core::terms::term::{
    LanguageTerm,
    RewritableLanguageOperatorSymbol,
    TermModel,
    models_of,
    parent_operator_at,
    sub_term_at,
};
use std::cmp::Ordering;
use crate::rewriting_core::model::some_function_of;
use vstd::prelude::*;

verus! {

/// Something that knows under which associative operators which operands may
/// be exchanged, and that provides a total order on the operator symbols.
pub trait ModuloAssociativePartialReorderer<LOS: RewritableLanguageOperatorSymbol> {
    /// `op` is an associative binary operator under which some operands may be exchanged.
    open spec fn considered(&self, op: LOS) -> bool {
        some_function_of::<Self, _, _>("considered", (self, op))
    }

    /// Under `parent_op`, `left_sub_term` and `right_sub_term` may be exchanged.
    open spec fn commutable_under(&self, parent_op: LOS, left_sub_term: TermModel<LOS>, right_sub_term: TermModel<LOS>) -> bool {
        some_function_of::<Self, _, _>("commutable_under", (self, parent_op, left_sub_term, right_sub_term))
    }

    /// How `op1` compares to `op2`.
    open spec fn comparison(&self, op1: LOS, op2: LOS) -> Ordering {
        some_function_of::<Self, _, _>("comparison", (self, op1, op2))
    }

    /// The number of sub-terms that `op` takes.
    open spec fn arity(&self, op: LOS) -> nat {
        some_function_of::<Self, _, _>("arity", (self, op))
    }

    fn is_an_associative_partially_commutative_binary_operator_we_may_consider(&self, op: &LOS) -> (considered: bool)
        ensures
            considered == self.considered(*op),
    ;

    fn may_commute_under(
        &self,
        parent_op: &LOS,
        left_sub_term: &LanguageTerm<LOS>,
        right_sub_term: &LanguageTerm<LOS>,
    ) -> (commutable: bool)
        ensures
            commutable == self.commutable_under(*parent_op, left_sub_term@, right_sub_term@),
    ;

    fn compare_operators(&self, op1: &LOS, op2: &LOS) -> (ordering: Ordering)
        ensures
            ordering == self.comparison(*op1, *op2),
    ;

    fn get_arity(&self, op: &LOS) -> (arity: usize)
        ensures
            arity == self.arity(*op),
    ;
}

/// The precedence on operator symbols that a [`ModuloAssociativePartialReorderer`] holds.
#[verifier::reject_recursive_types(LOS)]
pub struct PrecedenceOfReorderer<'a, LOS: RewritableLanguageOperatorSymbol> {
    pub checker: &'a Box<dyn ModuloAssociativePartialReorderer<LOS>>,
}

impl<'a, LOS: RewritableLanguageOperatorSymbol> OperatorPrecedence<LOS> for PrecedenceOfReorderer<'a, LOS> {
    open spec fn comparison(&self, op1: LOS, op2: LOS) -> Ordering {
        self.checker.comparison(op1, op2)
    }

    open spec fn arity(&self, op: LOS) -> nat {
        self.checker.arity(op)
    }

    fn compare_operators(&self, op1: &LOS, op2: &LOS) -> (ordering: Ordering) {
        self.checker.compare_operators(op1, op2)
    }

    fn get_arity(&self, op: &LOS) -> (arity: usize) {
        self.checker.get_arity(op)
    }
}

/// Which operands `checker` lets commute, as a function.
pub open spec fn partial_commutation_of<LOS: RewritableLanguageOperatorSymbol>(
    checker: &Box<dyn ModuloAssociativePartialReorderer<LOS>>,
) -> spec_fn(LOS, TermModel<LOS>, TermModel<LOS>) -> bool {
    |parent_op: LOS, left_sub_term: TermModel<LOS>, right_sub_term: TermModel<LOS>|
        checker.commutable_under(parent_op, left_sub_term, right_sub_term)
}

/// The operands of a chain of `op` put in order, and whether any two of them
/// were exchanged on the way: the tail is put in order first, then the head
/// sinks into it past every operand that it is out of order with.
pub open spec fn reordering<LOS>(
    op: LOS,
    operands: Seq<TermModel<LOS>>,
    commutable: spec_fn(LOS, TermModel<LOS>, TermModel<LOS>) -> bool,
    comparison: spec_fn(LOS, LOS) -> Ordering,
) -> (Seq<TermModel<LOS>>, bool)
    decreases operands.len(),
{
    if operands.len() <= 1 {
        (operands, false)
    } else {
        let head = operands[0];
        let (sorted_tail, changed_in_tail) = reordering(op, operands.drop_first(), commutable, comparison);
        if sorted_tail.len() != operands.len() - 1 {
            (operands, false)
        } else if out_of_order(op, head, sorted_tail[0], commutable, comparison) {
            let (sunk, _) = reordering(op, seq![head] + sorted_tail.drop_first(), commutable, comparison);
            (seq![sorted_tail[0]] + sunk, true)
        } else {
            (seq![head] + sorted_tail, changed_in_tail)
        }
    }
}

/// Putting operands in order neither adds nor drops an operand.
pub proof fn lemma_reordering_keeps_the_length<LOS>(
    op: LOS,
    operands: Seq<TermModel<LOS>>,
    commutable: spec_fn(LOS, TermModel<LOS>, TermModel<LOS>) -> bool,
    comparison: spec_fn(LOS, LOS) -> Ordering,
)
    ensures
        reordering(op, operands, commutable, comparison).0.len() == operands.len(),
    decreases operands.len(),
{
    if operands.len() > 1 {
        lemma_reordering_keeps_the_length(op, operands.drop_first(), commutable, comparison);
        let sorted_tail = reordering(op, operands.drop_first(), commutable, comparison).0;
        lemma_reordering_keeps_the_length(op, seq![operands[0]] + sorted_tail.drop_first(), commutable, comparison);
    }
}

/// The chain of `op` at the root of `term` with its operands put in order,
/// where `op` is an operator to consider, `term` does not stand right under
/// `op` (there the rewrite is made from above), `term` respects the arities
/// and some operands are out of order; `None` in every other case.
pub open spec fn reordered_modulo_associativity<LOS>(
    term: TermModel<LOS>,
    considered: bool,
    parent_operator: Option<LOS>,
    commutable: spec_fn(LOS, TermModel<LOS>, TermModel<LOS>) -> bool,
    comparison: spec_fn(LOS, LOS) -> Ordering,
    arity: spec_fn(LOS) -> nat,
) -> Option<TermModel<LOS>> {
    if considered && parent_operator != Some(term.operator) && respects_arity(term, arity) {
        let (sorted, changed) = reordering(term.operator, flattened(term, term.operator), commutable, comparison);
        if changed {
            Some(folded(term.operator, sorted, None))
        } else {
            None
        }
    } else {
        None
    }
}

/// Puts the operands of a chain of `considered_ac_operator` in order, and sets
/// `has_changed` where two of them are exchanged.
fn ad_hoc_partially_commutative_recursive_reorderer<LOS: RewritableLanguageOperatorSymbol>(
    checker: &Box<dyn ModuloAssociativePartialReorderer<LOS>>,
    considered_ac_operator: &LOS,
    flattened_sub_terms: Vec<LanguageTerm<LOS>>,
    has_changed: &mut bool,
) -> (sorted: Vec<LanguageTerm<LOS>>)
    requires
        forall|i: int|
            0 <= i < flattened_sub_terms@.len() ==> respects_arity(
                #[trigger] flattened_sub_terms@[i]@,
                arity_of(PrecedenceOfReorderer { checker }),
            ),
    ensures
        models_of(sorted@) == reordering(
            *considered_ac_operator,
            models_of(flattened_sub_terms@),
            partial_commutation_of(checker),
            comparison_of(PrecedenceOfReorderer { checker }),
        ).0,
        *final(has_changed) == (*old(has_changed) || reordering(
            *considered_ac_operator,
            models_of(flattened_sub_terms@),
            partial_commutation_of(checker),
            comparison_of(PrecedenceOfReorderer { checker }),
        ).1),
        sorted@.len() == flattened_sub_terms@.len(),
        forall|i: int|
            0 <= i < sorted@.len() ==> respects_arity(#[trigger] sorted@[i]@, arity_of(PrecedenceOfReorderer { checker })),
    decreases flattened_sub_terms@.len(),
{
    let ghost operands = models_of(flattened_sub_terms@);
    let ghost commutable = partial_commutation_of(checker);
    let ghost comparison = comparison_of(PrecedenceOfReorderer { checker });
    let ghost arity = arity_of(PrecedenceOfReorderer { checker });
    if flattened_sub_terms.len() <= 1 {
        return flattened_sub_terms;
    }
    proof {
        lemma_reordering_keeps_the_length(*considered_ac_operator, operands.drop_first(), commutable, comparison);
    }
    let mut flattened_sub_terms = flattened_sub_terms;
    let head = flattened_sub_terms.remove(0);
    assert(models_of(flattened_sub_terms@) =~= operands.drop_first());
    let mut sorted_tail = ad_hoc_partially_commutative_recursive_reorderer(
        checker,
        considered_ac_operator,
        flattened_sub_terms,
        has_changed,
    );
    let ghost sorted_tail_model = models_of(sorted_tail@);
    let heaf_of_sorted_tail = sorted_tail.remove(0);
    let mut remainder = sorted_tail;
    assert(models_of(remainder@) =~= sorted_tail_model.drop_first());
    assert(heaf_of_sorted_tail@ == sorted_tail_model[0]);
    let precedence = PrecedenceOfReorderer { checker };
    if checker.may_commute_under(considered_ac_operator, &head, &heaf_of_sorted_tail)
        && is_greater_as_per_lexicographic_path_ordering(&head, &heaf_of_sorted_tail, &precedence) {
        *has_changed = true;
        remainder.insert(0, head);
        assert(models_of(remainder@) =~= seq![head@] + sorted_tail_model.drop_first());
        let mut remainder = ad_hoc_partially_commutative_recursive_reorderer(
            checker,
            considered_ac_operator,
            remainder,
            has_changed,
        );
        let ghost sunk = models_of(remainder@);
        remainder.insert(0, heaf_of_sorted_tail);
        assert(models_of(remainder@) =~= seq![heaf_of_sorted_tail@] + sunk);
        remainder
    } else {
        remainder.insert(0, heaf_of_sorted_tail);
        remainder.insert(0, head);
        assert(models_of(remainder@) =~= seq![head@] + sorted_tail_model);
        remainder
    }
}

/// Puts the operands of the chain of an associative operator in order, as far
/// as `checker` lets them commute.
pub fn transformation_modulo_assoc_partial_reordering<LOS: RewritableLanguageOperatorSymbol>(
    checker: &Box<dyn ModuloAssociativePartialReorderer<LOS>>,
    term: &LanguageTerm<LOS>,
    context_term: &LanguageTerm<LOS>,
    position_in_context_term: &PositionInLanguageTerm,
) -> (outcome: Option<LanguageTerm<LOS>>)
    ensures
        outcome_model(outcome) == reordered_modulo_associativity(
            term@,
            checker.considered(term@.operator),
            parent_operator_at(context_term@, position_in_context_term@),
            partial_commutation_of(checker),
            comparison_of(PrecedenceOfReorderer { checker }),
            arity_of(PrecedenceOfReorderer { checker }),
        ),
{
    proof {
        LOS::symbol_laws();
    }
    if !checker.is_an_associative_partially_commutative_binary_operator_we_may_consider(&term.operator) {
        return None;
    }
    let considered_ac_operator = &term.operator;
    if let Some(parent_operator) = context_term.get_parent_operator_at_position(position_in_context_term) {
        if parent_operator == considered_ac_operator {
            return None;
        }
    }
    let precedence = PrecedenceOfReorderer { checker };
    if !term_respects_arity(term, &precedence) {
        return None;
    }
    let borrowed = get_associative_sub_terms_recursively(term, considered_ac_operator);
    let flattened_sub_terms = clone_borrowed(&borrowed);
    proof {
        lemma_flattened_respect_arity(term@, *considered_ac_operator, arity_of(precedence));
        lemma_reordering_keeps_the_length(
            *considered_ac_operator,
            models_of(flattened_sub_terms@),
            partial_commutation_of(checker),
            comparison_of(precedence),
        );
        assert forall|i: int| 0 <= i < flattened_sub_terms@.len() implies respects_arity(
            #[trigger] flattened_sub_terms@[i]@,
            arity_of(precedence),
        ) by {
            assert(flattened_sub_terms@[i]@ == models_of(flattened_sub_terms@)[i]);
        }
    }
    let mut has_changed = false;
    let mut sorted_flattened_sub_terms = ad_hoc_partially_commutative_recursive_reorderer(
        checker,
        considered_ac_operator,
        flattened_sub_terms,
        &mut has_changed,
    );
    if has_changed {
        let folded_transformed = fold_associative_sub_terms_recursively(
            considered_ac_operator,
            &mut sorted_flattened_sub_terms,
            &None,
        );
        return Some(folded_transformed);
    }
    None
}

} // verus!
