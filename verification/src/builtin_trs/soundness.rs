use crate::builtin_trs::rules::binary_idempotence::deduplicated;
use crate::builtin_trs::rules::factorization::defactorize::{
    defactorized_left_distributive,
    defactorized_right_distributive,
};
use crate::builtin_trs::rules::factorization::factorize_simple::{
    factorized_left_distributive,
    factorized_right_distributive,
};
use crate::builtin_trs::rules::flush::{flushed_to_the_left, flushed_to_the_right};
use crate::builtin_trs::rules::modulo_ac_reorderer::{
    lemma_reordering_keeps_the_length,
    reordered_modulo_associativity,
    reordering,
};
use crate::builtin_trs::rules::modulo_associative_flattened_transfo::{flattened_transformation, parent_check};
use crate::builtin_trs::rules::reorder_commute::{out_of_order, reordered_under_commutative_operator};
use crate::builtin_trs::util::{flattened, flattened_all, folded, respects_arity};
use crate::builtin_trs::rules::simpl_binary::simplified_binary_term;
use crate::builtin_trs::rules::simpl_neutral_elements::{at_fixpoint, without_neutral_element};
use crate::builtin_trs::rules::simpl_unary::simplified_unary_term;
use crate::builtin_trs::rules::unary_composition::{operator_underneath, with_composed_unary_operators};
use crate::rewriting_core::apply::{fires, step_of};
use crate::rewriting_core::rule::RewriteRule;
use crate::rewriting_core::terms::term::{RewritableLanguageOperatorSymbol, TermModel, replace_at, sub_term_at};
use std::cmp::Ordering;
use vstd::prelude::*;

verus! {

/// The value of `term` in the algebra in which `interpretation` says what
/// each operator makes of the values of its operands.
pub open spec fn value_of<LOS, V>(term: TermModel<LOS>, interpretation: spec_fn(LOS, Seq<V>) -> V) -> V
    decreases term,
{
    interpretation(term.operator, values_of(term.sub_terms, interpretation))
}

/// The values of `terms`, one after another.
pub open spec fn values_of<LOS, V>(terms: Seq<TermModel<LOS>>, interpretation: spec_fn(LOS, Seq<V>) -> V) -> Seq<V>
    decreases terms,
{
    if terms.len() == 0 {
        Seq::empty()
    } else {
        values_of(terms.drop_last(), interpretation).push(value_of(terms.last(), interpretation))
    }
}

/// The values of terms are the values of each of them.
pub proof fn lemma_values_of<LOS, V>(terms: Seq<TermModel<LOS>>, interpretation: spec_fn(LOS, Seq<V>) -> V)
    ensures
        values_of(terms, interpretation).len() == terms.len(),
        forall|i: int|
            0 <= i < terms.len() ==> #[trigger] values_of(terms, interpretation)[i] == value_of(terms[i], interpretation),
    decreases terms.len(),
{
    if terms.len() > 0 {
        lemma_values_of(terms.drop_last(), interpretation);
        assert forall|i: int| 0 <= i < terms.len() implies #[trigger] values_of(terms, interpretation)[i] == value_of(
            terms[i],
            interpretation,
        ) by {
            if i < terms.len() - 1 {
                assert(terms.drop_last()[i] == terms[i]);
            }
        }
    }
}

/// What the binary operator `op` makes of `left` and `right`.
pub open spec fn binary_value<LOS, V>(interpretation: spec_fn(LOS, Seq<V>) -> V, op: LOS, left: V, right: V) -> V {
    interpretation(op, seq![left, right])
}

/// What the unary operator `op` makes of `operand`.
pub open spec fn unary_value<LOS, V>(interpretation: spec_fn(LOS, Seq<V>) -> V, op: LOS, operand: V) -> V {
    interpretation(op, seq![operand])
}

/// `op` is associative in the algebra.
pub open spec fn is_associative_in<LOS, V>(interpretation: spec_fn(LOS, Seq<V>) -> V, op: LOS) -> bool {
    forall|a: V, b: V, c: V|
        #[trigger] binary_value(interpretation, op, a, binary_value(interpretation, op, b, c)) == binary_value(
            interpretation,
            op,
            binary_value(interpretation, op, a, b),
            c,
        )
}

/// `op` is idempotent in the algebra.
pub open spec fn is_idempotent_in<LOS, V>(interpretation: spec_fn(LOS, Seq<V>) -> V, op: LOS) -> bool {
    forall|a: V| #[trigger] binary_value(interpretation, op, a, a) == a
}

/// `op1` is left distributive over `op2` in the algebra.
pub open spec fn is_left_distributive_in<LOS, V>(interpretation: spec_fn(LOS, Seq<V>) -> V, op1: LOS, op2: LOS) -> bool {
    forall|x: V, y: V, z: V|
        #[trigger] binary_value(interpretation, op1, x, binary_value(interpretation, op2, y, z)) == binary_value(
            interpretation,
            op2,
            binary_value(interpretation, op1, x, y),
            binary_value(interpretation, op1, x, z),
        )
}

/// `op1` is right distributive over `op2` in the algebra.
pub open spec fn is_right_distributive_in<LOS, V>(interpretation: spec_fn(LOS, Seq<V>) -> V, op1: LOS, op2: LOS) -> bool {
    forall|x: V, y: V, z: V|
        #[trigger] binary_value(interpretation, op1, binary_value(interpretation, op2, y, z), x) == binary_value(
            interpretation,
            op2,
            binary_value(interpretation, op1, y, x),
            binary_value(interpretation, op1, z, x),
        )
}

/// The value of an application of a binary operator is what the operator
/// makes of the values of the two operands.
pub proof fn lemma_value_of_binary_node<LOS, V>(term: TermModel<LOS>, interpretation: spec_fn(LOS, Seq<V>) -> V)
    requires
        term.sub_terms.len() == 2,
    ensures
        value_of(term, interpretation) == binary_value(
            interpretation,
            term.operator,
            value_of(term.sub_terms[0], interpretation),
            value_of(term.sub_terms[1], interpretation),
        ),
{
    lemma_values_of(term.sub_terms, interpretation);
    assert(values_of(term.sub_terms, interpretation) =~= seq![
        value_of(term.sub_terms[0], interpretation),
        value_of(term.sub_terms[1], interpretation),
    ]);
}

/// The value of an application of a unary operator is what the operator
/// makes of the value of the operand.
pub proof fn lemma_value_of_unary_node<LOS, V>(term: TermModel<LOS>, interpretation: spec_fn(LOS, Seq<V>) -> V)
    requires
        term.sub_terms.len() == 1,
    ensures
        value_of(term, interpretation) == unary_value(
            interpretation,
            term.operator,
            value_of(term.sub_terms[0], interpretation),
        ),
{
    lemma_values_of(term.sub_terms, interpretation);
    assert(values_of(term.sub_terms, interpretation) =~= seq![value_of(term.sub_terms[0], interpretation)]);
}

/// A flush to the right keeps the value of a term, where the operators that
/// are taken for associative are associative in the algebra.
pub proof fn lemma_flush_to_the_right_is_sound<LOS, V>(
    term: TermModel<LOS>,
    associative: bool,
    interpretation: spec_fn(LOS, Seq<V>) -> V,
)
    requires
        associative ==> is_associative_in(interpretation, term.operator),
        flushed_to_the_right(term, associative).is_some(),
    ensures
        value_of(flushed_to_the_right(term, associative).unwrap(), interpretation) == value_of(term, interpretation),
{
    let flushed = flushed_to_the_right(term, associative).unwrap();
    lemma_value_of_binary_node(term, interpretation);
    lemma_value_of_binary_node(term.sub_terms[0], interpretation);
    lemma_value_of_binary_node(flushed, interpretation);
    lemma_value_of_binary_node(flushed.sub_terms[1], interpretation);
}

/// A flush to the left keeps the value of a term, where the operators that
/// are taken for associative are associative in the algebra.
pub proof fn lemma_flush_to_the_left_is_sound<LOS, V>(
    term: TermModel<LOS>,
    associative: bool,
    interpretation: spec_fn(LOS, Seq<V>) -> V,
)
    requires
        associative ==> is_associative_in(interpretation, term.operator),
        flushed_to_the_left(term, associative).is_some(),
    ensures
        value_of(flushed_to_the_left(term, associative).unwrap(), interpretation) == value_of(term, interpretation),
{
    let flushed = flushed_to_the_left(term, associative).unwrap();
    lemma_value_of_binary_node(term, interpretation);
    lemma_value_of_binary_node(term.sub_terms[1], interpretation);
    lemma_value_of_binary_node(flushed, interpretation);
    lemma_value_of_binary_node(flushed.sub_terms[0], interpretation);
}

/// Dropping a duplicated operand keeps the value of a term, where the
/// operators that are taken for idempotent and for associative are so in
/// the algebra.
pub proof fn lemma_deduplication_is_sound<LOS, V>(
    term: TermModel<LOS>,
    binary_idempotent: bool,
    associative: bool,
    interpretation: spec_fn(LOS, Seq<V>) -> V,
)
    requires
        binary_idempotent ==> is_idempotent_in(interpretation, term.operator),
        associative ==> is_associative_in(interpretation, term.operator),
        deduplicated(term, binary_idempotent, associative).is_some(),
    ensures
        value_of(deduplicated(term, binary_idempotent, associative).unwrap(), interpretation) == value_of(
            term,
            interpretation,
        ),
{
    let t1 = term.sub_terms[0];
    let t2 = term.sub_terms[1];
    lemma_value_of_binary_node(term, interpretation);
    if t1 == t2 {
    } else if associative && t2.operator == term.operator && t2.sub_terms.len() == 2 && t1 == t2.sub_terms[0] {
        lemma_value_of_binary_node(t2, interpretation);
        let x = value_of(t1, interpretation);
        let y = value_of(t2.sub_terms[1], interpretation);
        assert(binary_value(interpretation, term.operator, x, binary_value(interpretation, term.operator, x, y))
            == binary_value(interpretation, term.operator, binary_value(interpretation, term.operator, x, x), y));
    } else {
        lemma_value_of_binary_node(t1, interpretation);
        let x = value_of(t2, interpretation);
        let y = value_of(t1.sub_terms[0], interpretation);
        assert(binary_value(interpretation, term.operator, y, binary_value(interpretation, term.operator, x, x))
            == binary_value(interpretation, term.operator, binary_value(interpretation, term.operator, y, x), x));
    }
}

/// Dropping a neutral element keeps the value of a term, where what is
/// taken for neutral is neutral in the algebra, on both sides.
pub proof fn lemma_dropping_a_neutral_element_is_sound<LOS, V>(
    term: TermModel<LOS>,
    binary: bool,
    neutral: spec_fn(TermModel<LOS>, LOS) -> bool,
    interpretation: spec_fn(LOS, Seq<V>) -> V,
)
    requires
        forall|c: TermModel<LOS>, v: V|
            neutral(c, term.operator) ==> #[trigger] binary_value(
                interpretation,
                term.operator,
                value_of(c, interpretation),
                v,
            ) == v,
        forall|c: TermModel<LOS>, v: V|
            neutral(c, term.operator) ==> #[trigger] binary_value(
                interpretation,
                term.operator,
                v,
                value_of(c, interpretation),
            ) == v,
        without_neutral_element(term, binary, neutral).is_some(),
    ensures
        value_of(without_neutral_element(term, binary, neutral).unwrap(), interpretation) == value_of(
            term,
            interpretation,
        ),
{
    lemma_value_of_binary_node(term, interpretation);
}

/// Replacing the application of a unary operator to a fixpoint by the
/// fixpoint keeps the value of a term, where what is taken for a fixpoint
/// is one in the algebra.
pub proof fn lemma_staying_at_a_fixpoint_is_sound<LOS, V>(
    term: TermModel<LOS>,
    unary: bool,
    fixpoint: spec_fn(TermModel<LOS>, LOS) -> bool,
    interpretation: spec_fn(LOS, Seq<V>) -> V,
)
    requires
        forall|c: TermModel<LOS>|
            fixpoint(c, term.operator) ==> #[trigger] unary_value(
                interpretation,
                term.operator,
                value_of(c, interpretation),
            ) == value_of(c, interpretation),
        at_fixpoint(term, unary, fixpoint).is_some(),
    ensures
        value_of(at_fixpoint(term, unary, fixpoint).unwrap(), interpretation) == value_of(term, interpretation),
{
    lemma_value_of_unary_node(term, interpretation);
}

/// Composing two nested unary operators keeps the value of a term, where
/// the composed operator does in the algebra what the two do one after the
/// other.
pub proof fn lemma_unary_composition_is_sound<LOS, V>(
    term: TermModel<LOS>,
    both_unary: bool,
    composed: Option<LOS>,
    interpretation: spec_fn(LOS, Seq<V>) -> V,
)
    requires
        with_composed_unary_operators(term, both_unary, composed).is_some(),
        forall|v: V|
            unary_value(
                interpretation,
                term.operator,
                #[trigger] unary_value(interpretation, operator_underneath(term), v),
            ) == unary_value(interpretation, composed.unwrap(), v),
    ensures
        value_of(with_composed_unary_operators(term, both_unary, composed).unwrap(), interpretation) == value_of(
            term,
            interpretation,
        ),
{
    lemma_value_of_unary_node(term, interpretation);
    lemma_value_of_unary_node(term.sub_terms[0], interpretation);
    lemma_value_of_unary_node(with_composed_unary_operators(term, both_unary, composed).unwrap(), interpretation);
    let inner = value_of(term.sub_terms[0].sub_terms[0], interpretation);
    assert(unary_value(
        interpretation,
        term.operator,
        unary_value(interpretation, operator_underneath(term), inner),
    ) == unary_value(interpretation, composed.unwrap(), inner));
}

/// A factorization on the left keeps the value of a term, where the
/// operators that are taken for left distributive are so in the algebra.
pub proof fn lemma_factorization_on_the_left_is_sound<LOS, V>(
    term: TermModel<LOS>,
    binary: spec_fn(LOS) -> bool,
    left_distributive_over: spec_fn(LOS, LOS) -> bool,
    interpretation: spec_fn(LOS, Seq<V>) -> V,
)
    requires
        forall|op1: LOS, op2: LOS| #[trigger]
            left_distributive_over(op1, op2) ==> is_left_distributive_in(interpretation, op1, op2),
        factorized_left_distributive(term, binary, left_distributive_over).is_some(),
    ensures
        value_of(factorized_left_distributive(term, binary, left_distributive_over).unwrap(), interpretation)
            == value_of(term, interpretation),
{
    let factorized = factorized_left_distributive(term, binary, left_distributive_over).unwrap();
    assert(left_distributive_over(term.sub_terms[0].operator, term.operator));
    lemma_value_of_binary_node(term, interpretation);
    lemma_value_of_binary_node(term.sub_terms[0], interpretation);
    lemma_value_of_binary_node(term.sub_terms[1], interpretation);
    lemma_value_of_binary_node(factorized, interpretation);
    lemma_value_of_binary_node(factorized.sub_terms[1], interpretation);
}

/// A factorization on the right keeps the value of a term, where the
/// operators that are taken for right distributive are so in the algebra.
pub proof fn lemma_factorization_on_the_right_is_sound<LOS, V>(
    term: TermModel<LOS>,
    binary: spec_fn(LOS) -> bool,
    right_distributive_over: spec_fn(LOS, LOS) -> bool,
    interpretation: spec_fn(LOS, Seq<V>) -> V,
)
    requires
        forall|op1: LOS, op2: LOS| #[trigger]
            right_distributive_over(op1, op2) ==> is_right_distributive_in(interpretation, op1, op2),
        factorized_right_distributive(term, binary, right_distributive_over).is_some(),
    ensures
        value_of(factorized_right_distributive(term, binary, right_distributive_over).unwrap(), interpretation)
            == value_of(term, interpretation),
{
    let factorized = factorized_right_distributive(term, binary, right_distributive_over).unwrap();
    assert(right_distributive_over(term.sub_terms[0].operator, term.operator));
    lemma_value_of_binary_node(term, interpretation);
    lemma_value_of_binary_node(term.sub_terms[0], interpretation);
    lemma_value_of_binary_node(term.sub_terms[1], interpretation);
    lemma_value_of_binary_node(factorized, interpretation);
    lemma_value_of_binary_node(factorized.sub_terms[0], interpretation);
}

/// A development on the left keeps the value of a term, where the
/// operators that are taken for left distributive are so in the algebra.
pub proof fn lemma_development_on_the_left_is_sound<LOS, V>(
    term: TermModel<LOS>,
    binary: spec_fn(LOS) -> bool,
    left_distributive_over: spec_fn(LOS, LOS) -> bool,
    interpretation: spec_fn(LOS, Seq<V>) -> V,
)
    requires
        forall|op1: LOS, op2: LOS| #[trigger]
            left_distributive_over(op1, op2) ==> is_left_distributive_in(interpretation, op1, op2),
        defactorized_left_distributive(term, binary, left_distributive_over).is_some(),
    ensures
        value_of(defactorized_left_distributive(term, binary, left_distributive_over).unwrap(), interpretation)
            == value_of(term, interpretation),
{
    let developed = defactorized_left_distributive(term, binary, left_distributive_over).unwrap();
    assert(left_distributive_over(term.operator, term.sub_terms[1].operator));
    lemma_value_of_binary_node(term, interpretation);
    lemma_value_of_binary_node(term.sub_terms[1], interpretation);
    lemma_value_of_binary_node(developed, interpretation);
    lemma_value_of_binary_node(developed.sub_terms[0], interpretation);
    lemma_value_of_binary_node(developed.sub_terms[1], interpretation);
}

/// A development on the right keeps the value of a term, where the
/// operators that are taken for right distributive are so in the algebra.
pub proof fn lemma_development_on_the_right_is_sound<LOS, V>(
    term: TermModel<LOS>,
    binary: spec_fn(LOS) -> bool,
    right_distributive_over: spec_fn(LOS, LOS) -> bool,
    interpretation: spec_fn(LOS, Seq<V>) -> V,
)
    requires
        forall|op1: LOS, op2: LOS| #[trigger]
            right_distributive_over(op1, op2) ==> is_right_distributive_in(interpretation, op1, op2),
        defactorized_right_distributive(term, binary, right_distributive_over).is_some(),
    ensures
        value_of(defactorized_right_distributive(term, binary, right_distributive_over).unwrap(), interpretation)
            == value_of(term, interpretation),
{
    let developed = defactorized_right_distributive(term, binary, right_distributive_over).unwrap();
    assert(right_distributive_over(term.operator, term.sub_terms[0].operator));
    lemma_value_of_binary_node(term, interpretation);
    lemma_value_of_binary_node(term.sub_terms[0], interpretation);
    lemma_value_of_binary_node(developed, interpretation);
    lemma_value_of_binary_node(developed.sub_terms[0], interpretation);
    lemma_value_of_binary_node(developed.sub_terms[1], interpretation);
}

/// A simplification under a binary operator keeps the value of a term,
/// where what the simplifier makes of two operands has the value that the
/// operator makes of theirs.
pub proof fn lemma_binary_simplification_is_sound<LOS, V>(
    term: TermModel<LOS>,
    binary: bool,
    simplified: spec_fn(LOS, TermModel<LOS>, TermModel<LOS>) -> Option<TermModel<LOS>>,
    interpretation: spec_fn(LOS, Seq<V>) -> V,
)
    requires
        forall|op: LOS, left: TermModel<LOS>, right: TermModel<LOS>|
            (#[trigger] simplified(op, left, right)).is_some() ==> value_of(
                simplified(op, left, right).unwrap(),
                interpretation,
            ) == binary_value(
                interpretation,
                op,
                value_of(left, interpretation),
                value_of(right, interpretation),
            ),
        simplified_binary_term(term, binary, simplified).is_some(),
    ensures
        value_of(simplified_binary_term(term, binary, simplified).unwrap(), interpretation) == value_of(
            term,
            interpretation,
        ),
{
    lemma_value_of_binary_node(term, interpretation);
}

/// A simplification under a unary operator keeps the value of a term, where
/// what the simplifier makes of an operand has the value that the operator
/// makes of its value.
pub proof fn lemma_unary_simplification_is_sound<LOS, V>(
    term: TermModel<LOS>,
    unary: bool,
    simplified: spec_fn(LOS, TermModel<LOS>) -> Option<TermModel<LOS>>,
    interpretation: spec_fn(LOS, Seq<V>) -> V,
)
    requires
        forall|op: LOS, operand: TermModel<LOS>|
            (#[trigger] simplified(op, operand)).is_some() ==> value_of(
                simplified(op, operand).unwrap(),
                interpretation,
            ) == unary_value(interpretation, op, value_of(operand, interpretation)),
        simplified_unary_term(term, unary, simplified).is_some(),
    ensures
        value_of(simplified_unary_term(term, unary, simplified).unwrap(), interpretation) == value_of(
            term,
            interpretation,
        ),
{
    lemma_value_of_unary_node(term, interpretation);
}

/// The operands that may be exchanged under `op` commute in the algebra.
pub open spec fn commute_in<LOS, V>(
    interpretation: spec_fn(LOS, Seq<V>) -> V,
    op: LOS,
    commutable: spec_fn(LOS, TermModel<LOS>, TermModel<LOS>) -> bool,
) -> bool {
    forall|x: TermModel<LOS>, y: TermModel<LOS>| #[trigger]
        commutable(op, x, y) ==> binary_value(
            interpretation,
            op,
            value_of(x, interpretation),
            value_of(y, interpretation),
        ) == binary_value(interpretation, op, value_of(y, interpretation), value_of(x, interpretation))
}

/// Putting two operands in order keeps the value of a term, where the
/// operands that may be exchanged commute in the algebra and the operators
/// that are taken for associative are associative in it.
pub proof fn lemma_reordering_two_operands_is_sound<LOS, V>(
    term: TermModel<LOS>,
    considered: bool,
    associative: bool,
    commutable: spec_fn(LOS, TermModel<LOS>, TermModel<LOS>) -> bool,
    comparison: spec_fn(LOS, LOS) -> Ordering,
    arity: spec_fn(LOS) -> nat,
    interpretation: spec_fn(LOS, Seq<V>) -> V,
)
    requires
        commute_in(interpretation, term.operator, commutable),
        associative ==> is_associative_in(interpretation, term.operator),
        reordered_under_commutative_operator(term, considered, associative, commutable, comparison, arity).is_some(),
    ensures
        value_of(
            reordered_under_commutative_operator(term, considered, associative, commutable, comparison, arity).unwrap(),
            interpretation,
        ) == value_of(term, interpretation),
{
    let reordered = reordered_under_commutative_operator(
        term,
        considered,
        associative,
        commutable,
        comparison,
        arity,
    ).unwrap();
    let op = term.operator;
    let left = term.sub_terms[0];
    let right = term.sub_terms[1];
    lemma_value_of_binary_node(term, interpretation);
    lemma_value_of_binary_node(reordered, interpretation);
    if out_of_order(op, left, right, commutable, comparison) {
    } else if associative && right.operator == op && right.sub_terms.len() == 2 && out_of_order(
        op,
        left,
        right.sub_terms[0],
        commutable,
        comparison,
    ) {
        lemma_value_of_binary_node(right, interpretation);
        lemma_value_of_binary_node(reordered.sub_terms[1], interpretation);
        let y = value_of(left, interpretation);
        let x = value_of(right.sub_terms[0], interpretation);
        let z = value_of(right.sub_terms[1], interpretation);
        assert(binary_value(interpretation, op, y, binary_value(interpretation, op, x, z)) == binary_value(
            interpretation,
            op,
            binary_value(interpretation, op, y, x),
            z,
        ));
        assert(binary_value(interpretation, op, x, binary_value(interpretation, op, y, z)) == binary_value(
            interpretation,
            op,
            binary_value(interpretation, op, x, y),
            z,
        ));
    } else {
        lemma_value_of_binary_node(left, interpretation);
        lemma_value_of_binary_node(reordered.sub_terms[0], interpretation);
        let z = value_of(left.sub_terms[0], interpretation);
        let y = value_of(left.sub_terms[1], interpretation);
        let x = value_of(right, interpretation);
        assert(binary_value(interpretation, op, z, binary_value(interpretation, op, y, x)) == binary_value(
            interpretation,
            op,
            binary_value(interpretation, op, z, y),
            x,
        ));
        assert(binary_value(interpretation, op, z, binary_value(interpretation, op, x, y)) == binary_value(
            interpretation,
            op,
            binary_value(interpretation, op, z, x),
            y,
        ));
        assert(commutable(op, left.sub_terms[1], right));
    }
}

/// What a chain of the binary operator `op` makes of the values `operands`
/// of its operands, from the right.
pub open spec fn chain_value<LOS, V>(interpretation: spec_fn(LOS, Seq<V>) -> V, op: LOS, operands: Seq<V>) -> V
    recommends
        operands.len() > 0,
    decreases operands.len(),
{
    if operands.len() <= 1 {
        operands[0]
    } else {
        binary_value(interpretation, op, operands[0], chain_value(interpretation, op, operands.drop_first()))
    }
}

/// The values of terms put one after another are their values put one after
/// another.
pub proof fn lemma_values_of_concatenation<LOS, V>(
    one: Seq<TermModel<LOS>>,
    other: Seq<TermModel<LOS>>,
    interpretation: spec_fn(LOS, Seq<V>) -> V,
)
    ensures
        values_of(one + other, interpretation) == values_of(one, interpretation) + values_of(other, interpretation),
{
    lemma_values_of(one, interpretation);
    lemma_values_of(other, interpretation);
    lemma_values_of(one + other, interpretation);
    assert(values_of(one + other, interpretation) =~= values_of(one, interpretation) + values_of(
        other,
        interpretation,
    ));
}

/// The value of a folded chain is what the chain makes of the values of
/// its operands.
pub proof fn lemma_value_of_folded<LOS, V>(
    op: LOS,
    operands: Seq<TermModel<LOS>>,
    default_empty: Option<LOS>,
    interpretation: spec_fn(LOS, Seq<V>) -> V,
)
    requires
        operands.len() > 0,
    ensures
        value_of(folded(op, operands, default_empty), interpretation) == chain_value(
            interpretation,
            op,
            values_of(operands, interpretation),
        ),
    decreases operands.len(),
{
    lemma_values_of(operands, interpretation);
    if operands.len() > 1 {
        lemma_value_of_folded(op, operands.drop_first(), default_empty, interpretation);
        lemma_value_of_binary_node(folded(op, operands, default_empty), interpretation);
        lemma_values_of(operands.drop_first(), interpretation);
        assert(values_of(operands, interpretation).drop_first() =~= values_of(
            operands.drop_first(),
            interpretation,
        ));
    }
}

/// What a chain makes of operands put one after another is what the
/// operator makes of what it makes of each part, where the operator is
/// associative in the algebra.
pub proof fn lemma_chain_of_concatenation<LOS, V>(
    interpretation: spec_fn(LOS, Seq<V>) -> V,
    op: LOS,
    one: Seq<V>,
    other: Seq<V>,
)
    requires
        is_associative_in(interpretation, op),
        one.len() > 0,
        other.len() > 0,
    ensures
        chain_value(interpretation, op, one + other) == binary_value(
            interpretation,
            op,
            chain_value(interpretation, op, one),
            chain_value(interpretation, op, other),
        ),
    decreases one.len(),
{
    assert((one + other).drop_first() =~= one.drop_first() + other);
    if one.len() > 1 {
        lemma_chain_of_concatenation(interpretation, op, one.drop_first(), other);
        let first = one[0];
        let middle = chain_value(interpretation, op, one.drop_first());
        let last = chain_value(interpretation, op, other);
        assert(binary_value(interpretation, op, first, binary_value(interpretation, op, middle, last))
            == binary_value(interpretation, op, binary_value(interpretation, op, first, middle), last));
    } else {
        assert(one.drop_first() + other =~= other);
    }
}

/// Flattening the chain of a binary associative operator keeps the value:
/// what the chain makes of the values of the flattened operands is the
/// value of the term.
pub proof fn lemma_value_of_flattened<LOS, V>(
    term: TermModel<LOS>,
    op: LOS,
    arity: spec_fn(LOS) -> nat,
    interpretation: spec_fn(LOS, Seq<V>) -> V,
)
    requires
        is_associative_in(interpretation, op),
        arity(op) == 2,
        respects_arity(term, arity),
    ensures
        flattened(term, op).len() > 0,
        chain_value(interpretation, op, values_of(flattened(term, op), interpretation)) == value_of(
            term,
            interpretation,
        ),
    decreases term,
{
    if term.operator == op {
        let left = term.sub_terms[0];
        let right = term.sub_terms[1];
        lemma_value_of_flattened(left, op, arity, interpretation);
        lemma_value_of_flattened(right, op, arity, interpretation);
        assert(term.sub_terms.drop_last() =~= seq![left]);
        assert(seq![left].drop_last() =~= Seq::<TermModel<LOS>>::empty());
        assert(flattened_all(Seq::<TermModel<LOS>>::empty(), op) =~= Seq::<TermModel<LOS>>::empty());
        assert(seq![left].last() == left);
        assert(flattened_all(seq![left], op) =~= flattened_all(seq![left].drop_last(), op) + flattened(left, op));
        assert(flattened_all(seq![left], op) =~= flattened(left, op));
        assert(term.sub_terms.last() == right);
        assert(flattened_all(term.sub_terms, op) =~= flattened_all(term.sub_terms.drop_last(), op) + flattened(
            right,
            op,
        ));
        assert(flattened(term, op) =~= flattened(left, op) + flattened(right, op));
        lemma_values_of_concatenation(flattened(left, op), flattened(right, op), interpretation);
        lemma_values_of(flattened(left, op), interpretation);
        lemma_values_of(flattened(right, op), interpretation);
        lemma_chain_of_concatenation(
            interpretation,
            op,
            values_of(flattened(left, op), interpretation),
            values_of(flattened(right, op), interpretation),
        );
        lemma_value_of_binary_node(term, interpretation);
    } else {
        lemma_values_of(seq![term], interpretation);
        assert(values_of(seq![term], interpretation) =~= seq![value_of(term, interpretation)]);
    }
}

/// Putting the operands of a chain in order keeps what the chain makes of
/// their values, where the operator is associative in the algebra and the
/// operands that may be exchanged commute in it.
proof fn lemma_reordering_keeps_the_chain_value<LOS, V>(
    op: LOS,
    operands: Seq<TermModel<LOS>>,
    commutable: spec_fn(LOS, TermModel<LOS>, TermModel<LOS>) -> bool,
    comparison: spec_fn(LOS, LOS) -> Ordering,
    interpretation: spec_fn(LOS, Seq<V>) -> V,
)
    requires
        is_associative_in(interpretation, op),
        commute_in(interpretation, op, commutable),
        operands.len() > 0,
    ensures
        chain_value(
            interpretation,
            op,
            values_of(reordering(op, operands, commutable, comparison).0, interpretation),
        ) == chain_value(interpretation, op, values_of(operands, interpretation)),
    decreases operands.len(),
{
    if operands.len() > 1 {
        let head = operands[0];
        let tail = operands.drop_first();
        let sorted_tail = reordering(op, tail, commutable, comparison).0;
        lemma_reordering_keeps_the_length(op, tail, commutable, comparison);
        lemma_reordering_keeps_the_chain_value(op, tail, commutable, comparison, interpretation);
        lemma_values_of(operands, interpretation);
        lemma_values_of(tail, interpretation);
        lemma_values_of(sorted_tail, interpretation);
        assert(values_of(operands, interpretation).drop_first() =~= values_of(tail, interpretation));
        let h = value_of(head, interpretation);
        if out_of_order(op, head, sorted_tail[0], commutable, comparison) {
            let next = sorted_tail[0];
            let others = sorted_tail.drop_first();
            let again = seq![head] + others;
            let sunk = reordering(op, again, commutable, comparison).0;
            lemma_reordering_keeps_the_length(op, again, commutable, comparison);
            lemma_reordering_keeps_the_chain_value(op, again, commutable, comparison, interpretation);
            let sorted = seq![next] + sunk;
            assert(reordering(op, operands, commutable, comparison).0 == sorted);
            lemma_values_of(sorted, interpretation);
            lemma_values_of(sunk, interpretation);
            lemma_values_of(again, interpretation);
            lemma_values_of(others, interpretation);
            assert(values_of(sorted, interpretation).drop_first() =~= values_of(sunk, interpretation));
            assert(values_of(again, interpretation).drop_first() =~= values_of(others, interpretation));
            assert(values_of(sorted_tail, interpretation).drop_first() =~= values_of(others, interpretation));
            let n = value_of(next, interpretation);
            assert(commutable(op, head, next));
            if others.len() > 0 {
                let rest = chain_value(interpretation, op, values_of(others, interpretation));
                assert(binary_value(interpretation, op, n, binary_value(interpretation, op, h, rest)) == binary_value(
                    interpretation,
                    op,
                    binary_value(interpretation, op, n, h),
                    rest,
                ));
                assert(binary_value(interpretation, op, h, binary_value(interpretation, op, n, rest)) == binary_value(
                    interpretation,
                    op,
                    binary_value(interpretation, op, h, n),
                    rest,
                ));
            }
        } else {
            let sorted = seq![head] + sorted_tail;
            assert(reordering(op, operands, commutable, comparison).0 == sorted);
            lemma_values_of(sorted, interpretation);
            assert(values_of(sorted, interpretation).drop_first() =~= values_of(sorted_tail, interpretation));
        }
    }
}

/// Putting the operands of a whole chain in order keeps the value of a
/// term, where the operator of the chain is binary and associative in the
/// algebra and the operands that may be exchanged commute in it.
pub proof fn lemma_reordering_a_chain_is_sound<LOS, V>(
    term: TermModel<LOS>,
    considered: bool,
    parent_operator: Option<LOS>,
    commutable: spec_fn(LOS, TermModel<LOS>, TermModel<LOS>) -> bool,
    comparison: spec_fn(LOS, LOS) -> Ordering,
    arity: spec_fn(LOS) -> nat,
    interpretation: spec_fn(LOS, Seq<V>) -> V,
)
    requires
        arity(term.operator) == 2,
        is_associative_in(interpretation, term.operator),
        commute_in(interpretation, term.operator, commutable),
        reordered_modulo_associativity(term, considered, parent_operator, commutable, comparison, arity).is_some(),
    ensures
        value_of(
            reordered_modulo_associativity(term, considered, parent_operator, commutable, comparison, arity).unwrap(),
            interpretation,
        ) == value_of(term, interpretation),
{
    let op = term.operator;
    let operands = flattened(term, op);
    let sorted = reordering(op, operands, commutable, comparison).0;
    lemma_value_of_flattened(term, op, arity, interpretation);
    lemma_reordering_keeps_the_length(op, operands, commutable, comparison);
    lemma_reordering_keeps_the_chain_value(op, operands, commutable, comparison, interpretation);
    lemma_value_of_folded(op, sorted, None, interpretation);
}

/// What the operands `transformed` stand for in the algebra: what the chain
/// of `op` makes of their values, under the parent operator where the
/// transformation was told of one.
pub open spec fn transformed_value<LOS, V>(
    interpretation: spec_fn(LOS, Seq<V>) -> V,
    op: LOS,
    told_parent: Option<LOS>,
    transformed: Seq<TermModel<LOS>>,
) -> V {
    let chain = chain_value(interpretation, op, values_of(transformed, interpretation));
    match told_parent {
        None => chain,
        Some(parent) => unary_value(interpretation, parent, chain),
    }
}

/// A transformation of the operands of a whole chain keeps the value of a
/// term, where the operator of the chain is binary and associative in the
/// algebra, and where the operands that the transformation gives stand for
/// what the chain makes of the values of the operands that it was given.
pub proof fn lemma_transforming_a_chain_is_sound<LOS, V>(
    term: TermModel<LOS>,
    considered: bool,
    parent_operator: Option<LOS>,
    parent_required: bool,
    required_parent: spec_fn(LOS) -> bool,
    transformed: spec_fn(LOS, Option<LOS>, Seq<TermModel<LOS>>) -> Option<Seq<TermModel<LOS>>>,
    arity: spec_fn(LOS) -> nat,
    interpretation: spec_fn(LOS, Seq<V>) -> V,
)
    requires
        arity(term.operator) == 2,
        respects_arity(term, arity),
        is_associative_in(interpretation, term.operator),
        forall|told_parent: Option<LOS>, operands: Seq<TermModel<LOS>>|
            (#[trigger] transformed(term.operator, told_parent, operands)).is_some() ==> {
                &&& transformed(term.operator, told_parent, operands).unwrap().len() > 0
                &&& transformed_value(
                    interpretation,
                    term.operator,
                    told_parent,
                    transformed(term.operator, told_parent, operands).unwrap(),
                ) == chain_value(interpretation, term.operator, values_of(operands, interpretation))
            },
        flattened_transformation(
            term,
            considered,
            parent_operator,
            parent_required,
            required_parent,
            transformed,
        ).is_some(),
    ensures
        value_of(
            flattened_transformation(
                term,
                considered,
                parent_operator,
                parent_required,
                required_parent,
                transformed,
            ).unwrap(),
            interpretation,
        ) == value_of(term, interpretation),
{
    let op = term.operator;
    let told_parent = parent_check(op, parent_operator, parent_required, required_parent).unwrap();
    let operands = flattened(term, op);
    let given = transformed(op, told_parent, operands).unwrap();
    lemma_value_of_flattened(term, op, arity, interpretation);
    lemma_value_of_folded(op, given, None, interpretation);
    let chain = folded(op, given, None);
    match told_parent {
        None => {},
        Some(parent) => {
            let wrapped = TermModel { operator: parent, sub_terms: seq![chain] };
            lemma_value_of_unary_node(wrapped, interpretation);
        },
    }
}

/// A rewrite inside a term keeps the value of the term, where it keeps the
/// value of the sub-term that it rewrites.
pub proof fn lemma_rewriting_a_sub_term_is_sound<LOS, V>(
    term: TermModel<LOS>,
    path: Seq<usize>,
    replacement: TermModel<LOS>,
    interpretation: spec_fn(LOS, Seq<V>) -> V,
)
    requires
        sub_term_at(term, path).is_some(),
        value_of(replacement, interpretation) == value_of(sub_term_at(term, path).unwrap(), interpretation),
    ensures
        value_of(replace_at(term, path, replacement), interpretation) == value_of(term, interpretation),
    decreases path.len(),
{
    if path.len() > 0 {
        let n = path[0] as int;
        let replaced = replace_at(term, path, replacement);
        lemma_rewriting_a_sub_term_is_sound(term.sub_terms[n], path.drop_first(), replacement, interpretation);
        lemma_values_of(term.sub_terms, interpretation);
        lemma_values_of(replaced.sub_terms, interpretation);
        assert(values_of(replaced.sub_terms, interpretation) =~= values_of(term.sub_terms, interpretation));
    }
}

/// A single rewrite step keeps the value of a term, where the rule keeps
/// the value of the sub-term that it rewrites.
pub proof fn lemma_a_rewrite_step_is_sound<LOS: RewritableLanguageOperatorSymbol, V>(
    phase_index: usize,
    rules: Seq<Box<dyn RewriteRule<LOS>>>,
    term: TermModel<LOS>,
    context_term: TermModel<LOS>,
    position: Seq<usize>,
    rule_index: int,
    path: Seq<usize>,
    interpretation: spec_fn(LOS, Seq<V>) -> V,
)
    requires
        fires(rules, term, context_term, position, rule_index, path),
        value_of(
            rules[rule_index].rewrites_to(sub_term_at(term, path).unwrap(), context_term, position + path).unwrap(),
            interpretation,
        ) == value_of(sub_term_at(term, path).unwrap(), interpretation),
    ensures
        value_of(
            step_of(phase_index, rules, term, context_term, position, rule_index, path).result,
            interpretation,
        ) == value_of(term, interpretation),
{
    lemma_rewriting_a_sub_term_is_sound(
        term,
        path,
        rules[rule_index].rewrites_to(sub_term_at(term, path).unwrap(), context_term, position + path).unwrap(),
        interpretation,
    );
}

} // verus!
