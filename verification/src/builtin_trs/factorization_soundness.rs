use crate::builtin_trs::rules::factorization::factorize_modulo_ac::{
    DistributivityModel,
    factor_of,
    factorized_group,
    factorized_modulo_ac,
    factorized_terms,
    factorized_under,
    head_operators,
    is_factorized,
    is_first_to_offer,
    is_product,
    is_shared,
    kept_operands,
    operands_under,
    remainders,
    rest_of,
};
use crate::builtin_trs::soundness::{
    binary_value,
    chain_value,
    is_associative_in,
    is_left_distributive_in,
    is_right_distributive_in,
    lemma_chain_of_concatenation,
    lemma_value_of_binary_node,
    lemma_value_of_flattened,
    lemma_value_of_folded,
    lemma_values_of,
    lemma_values_of_concatenation,
    value_of,
    values_of,
};
use crate::builtin_trs::util::{flattened, folded, lemma_flattened_respect_arity, respects_arity};
use crate::rewriting_core::terms::term::TermModel;
use vstd::prelude::*;
use vstd::seq_lib::{lemma_multiset_commutative, to_multiset_build, to_multiset_contains, to_multiset_remove};

verus! {

/// `op` is commutative in the algebra.
pub open spec fn is_commutative_in<LOS, V>(interpretation: spec_fn(LOS, Seq<V>) -> V, op: LOS) -> bool {
    forall|a: V, b: V| #[trigger] binary_value(interpretation, op, a, b) == binary_value(interpretation, op, b, a)
}

/// What a chain of an associative and commutative operator makes of its
/// operands is what the operator makes of any one of them and of what the
/// chain makes of the others.
proof fn lemma_chain_with_one_in_front<LOS, V>(
    interpretation: spec_fn(LOS, Seq<V>) -> V,
    op: LOS,
    operands: Seq<V>,
    i: int,
)
    requires
        is_associative_in(interpretation, op),
        is_commutative_in(interpretation, op),
        operands.len() >= 2,
        0 <= i < operands.len(),
    ensures
        chain_value(interpretation, op, operands) == binary_value(
            interpretation,
            op,
            operands[i],
            chain_value(interpretation, op, operands.remove(i)),
        ),
    decreases i,
{
    let tail = operands.drop_first();
    if i == 0 {
        assert(operands.remove(0) =~= tail);
    } else if tail.len() == 1 {
        assert(operands.remove(1) =~= seq![operands[0]]);
        assert(tail[0] == operands[1]);
        assert(chain_value(interpretation, op, tail) == tail[0]);
        assert(chain_value(interpretation, op, seq![operands[0]]) == operands[0]);
    } else {
        lemma_chain_with_one_in_front(interpretation, op, tail, i - 1);
        let others = tail.remove(i - 1);
        assert(operands.remove(i) =~= seq![operands[0]] + others);
        assert((seq![operands[0]] + others).drop_first() =~= others);
        assert(tail[i - 1] == operands[i]);
        let first = operands[0];
        let chosen = operands[i];
        let rest = chain_value(interpretation, op, others);
        assert(chain_value(interpretation, op, seq![first] + others) == binary_value(interpretation, op, first, rest));
        assert(chain_value(interpretation, op, operands) == binary_value(
            interpretation,
            op,
            first,
            chain_value(interpretation, op, tail),
        ));
        assert(binary_value(interpretation, op, first, binary_value(interpretation, op, chosen, rest)) == binary_value(
            interpretation,
            op,
            binary_value(interpretation, op, first, chosen),
            rest,
        ));
        assert(binary_value(interpretation, op, chosen, binary_value(interpretation, op, first, rest)) == binary_value(
            interpretation,
            op,
            binary_value(interpretation, op, chosen, first),
            rest,
        ));
    }
}

/// What a chain makes of its operands is what it makes of them once some
/// of them that follow one another are replaced by what the chain makes of
/// them.
proof fn lemma_chain_of_regrouped_operands<LOS, V>(
    interpretation: spec_fn(LOS, Seq<V>) -> V,
    op: LOS,
    before: Seq<V>,
    group: Seq<V>,
    after: Seq<V>,
)
    requires
        is_associative_in(interpretation, op),
        group.len() > 0,
    ensures
        chain_value(interpretation, op, before + group + after) == chain_value(
            interpretation,
            op,
            before + seq![chain_value(interpretation, op, group)] + after,
        ),
{
    let whole = chain_value(interpretation, op, group);
    if after.len() > 0 {
        lemma_chain_of_concatenation(interpretation, op, group, after);
        lemma_chain_of_concatenation(interpretation, op, seq![whole], after);
    } else {
        assert(group + after =~= group);
        assert(seq![whole] + after =~= seq![whole]);
    }
    assert(chain_value(interpretation, op, group + after) == chain_value(interpretation, op, seq![whole] + after));
    assert(before + group + after =~= before + (group + after));
    assert(before + seq![whole] + after =~= before + (seq![whole] + after));
    if before.len() > 0 {
        lemma_chain_of_concatenation(interpretation, op, before, group + after);
        lemma_chain_of_concatenation(interpretation, op, before, seq![whole] + after);
    } else {
        assert(before + (group + after) =~= group + after);
        assert(before + (seq![whole] + after) =~= seq![whole] + after);
    }
}

/// What `head_op` makes of a factor and of what is left, with the factor on
/// the side in question.
pub open spec fn product_value<LOS, V>(
    interpretation: spec_fn(LOS, Seq<V>) -> V,
    on_the_left: bool,
    head_op: LOS,
    factor: V,
    rest: V,
) -> V {
    if on_the_left {
        binary_value(interpretation, head_op, factor, rest)
    } else {
        binary_value(interpretation, head_op, rest, factor)
    }
}

/// In the algebra, `head_op` is an operator that operands under `op2` may
/// be factorized by, as `model` takes it to be: it is binary, associative
/// where it is taken for it, distributive over `op2` on the side in
/// question, and the empty operation is neutral on the other side.
pub open spec fn is_head_operator_in<LOS, V>(
    interpretation: spec_fn(LOS, Seq<V>) -> V,
    head_op: LOS,
    op2: LOS,
    model: DistributivityModel<LOS>,
    on_the_left: bool,
    arity: spec_fn(LOS) -> nat,
) -> bool {
    &&& arity(head_op) == 2
    &&& (model.associative)(head_op) ==> is_associative_in(interpretation, head_op)
    &&& if on_the_left {
        is_left_distributive_in(interpretation, head_op, op2)
    } else {
        is_right_distributive_in(interpretation, head_op, op2)
    }
    &&& forall|v: V| #[trigger]
        product_value(
            interpretation,
            on_the_left,
            head_op,
            v,
            interpretation(model.empty_operation_symbol, Seq::empty()),
        ) == v
}

/// The value of an operand is what `head_op` makes of the value of its
/// factor and of the value of what is left of it.
proof fn lemma_value_of_an_operand<LOS, V>(
    operand: TermModel<LOS>,
    head_op: LOS,
    op2: LOS,
    model: DistributivityModel<LOS>,
    on_the_left: bool,
    arity: spec_fn(LOS) -> nat,
    interpretation: spec_fn(LOS, Seq<V>) -> V,
)
    requires
        is_head_operator_in(interpretation, head_op, op2, model, on_the_left, arity),
        respects_arity(operand, arity),
    ensures
        value_of(operand, interpretation) == product_value(
            interpretation,
            on_the_left,
            head_op,
            value_of(factor_of(operand, head_op, (model.associative)(head_op), on_the_left), interpretation),
            value_of(
                folded(
                    head_op,
                    rest_of(operand, head_op, (model.associative)(head_op), on_the_left),
                    Some(model.empty_operation_symbol),
                ),
                interpretation,
            ),
        ),
{
    let associative = (model.associative)(head_op);
    let empty = Some(model.empty_operation_symbol);
    let rest = rest_of(operand, head_op, associative, on_the_left);
    if operand.operator == head_op {
        let parts = operands_under(operand, associative);
        let left = operand.sub_terms[0];
        let right = operand.sub_terms[1];
        lemma_value_of_binary_node(operand, interpretation);
        if associative {
            lemma_value_of_flattened(operand, head_op, arity, interpretation);
            lemma_value_of_flattened(left, head_op, arity, interpretation);
            lemma_value_of_flattened(right, head_op, arity, interpretation);
            assert(flattened(operand, head_op).len() >= 2) by {
                lemma_flattened_of_a_binary_node(operand, head_op);
            }
            lemma_values_of(parts, interpretation);
            lemma_values_of(rest, interpretation);
            lemma_value_of_folded(head_op, rest, empty, interpretation);
            if on_the_left {
                assert(values_of(parts, interpretation).drop_first() =~= values_of(rest, interpretation));
            } else {
                let front = values_of(rest, interpretation);
                let last = seq![value_of(parts.last(), interpretation)];
                assert(values_of(parts, interpretation) =~= front + last);
                lemma_chain_of_concatenation(interpretation, head_op, front, last);
            }
        } else {
            assert(parts == operand.sub_terms);
            if on_the_left {
                assert(rest =~= seq![right]);
            } else {
                assert(rest =~= seq![left]);
            }
        }
    } else {
        assert(!is_product(operand, head_op, associative));
        assert(rest =~= Seq::<TermModel<LOS>>::empty());
        let nothing = folded(head_op, rest, empty);
        assert(nothing.sub_terms =~= Seq::<TermModel<LOS>>::empty());
        assert(values_of(nothing.sub_terms, interpretation) =~= Seq::<V>::empty());
        assert(value_of(nothing, interpretation) == interpretation(model.empty_operation_symbol, Seq::empty()));
    }
}

/// The chain at the root of a binary node has at least two operands.
proof fn lemma_flattened_of_a_binary_node<LOS>(term: TermModel<LOS>, op: LOS)
    requires
        term.operator == op,
        term.sub_terms.len() == 2,
    ensures
        flattened(term, op) == flattened(term.sub_terms[0], op) + flattened(term.sub_terms[1], op),
        flattened(term.sub_terms[0], op).len() > 0 ==> flattened(term.sub_terms[1], op).len() > 0 ==> flattened(
            term,
            op,
        ).len() >= 2,
{
    let left = term.sub_terms[0];
    let right = term.sub_terms[1];
    assert(term.sub_terms.drop_last() =~= seq![left]);
    assert(seq![left].drop_last() =~= Seq::<TermModel<LOS>>::empty());
    assert(crate::builtin_trs::util::flattened_all(Seq::<TermModel<LOS>>::empty(), op) =~= Seq::<TermModel<LOS>>::empty());
    assert(seq![left].last() == left);
    assert(crate::builtin_trs::util::flattened_all(seq![left], op) =~= crate::builtin_trs::util::flattened_all(
        seq![left].drop_last(),
        op,
    ) + flattened(left, op));
    assert(term.sub_terms.last() == right);
    assert(crate::builtin_trs::util::flattened_all(term.sub_terms, op) =~= crate::builtin_trs::util::flattened_all(
        term.sub_terms.drop_last(),
        op,
    ) + flattened(right, op));
}

/// What `head_op` makes of `factor` and of each of `rests`.
pub open spec fn products_with<LOS, V>(
    interpretation: spec_fn(LOS, Seq<V>) -> V,
    on_the_left: bool,
    head_op: LOS,
    factor: V,
    rests: Seq<V>,
) -> Seq<V> {
    Seq::new(rests.len(), |j: int| product_value(interpretation, on_the_left, head_op, factor, rests[j]))
}

/// A distributive operator distributes over a whole chain.
proof fn lemma_distributes_over_a_chain<LOS, V>(
    interpretation: spec_fn(LOS, Seq<V>) -> V,
    on_the_left: bool,
    head_op: LOS,
    op2: LOS,
    factor: V,
    rests: Seq<V>,
)
    requires
        if on_the_left {
            is_left_distributive_in(interpretation, head_op, op2)
        } else {
            is_right_distributive_in(interpretation, head_op, op2)
        },
        rests.len() > 0,
    ensures
        product_value(interpretation, on_the_left, head_op, factor, chain_value(interpretation, op2, rests))
            == chain_value(interpretation, op2, products_with(interpretation, on_the_left, head_op, factor, rests)),
    decreases rests.len(),
{
    let products = products_with(interpretation, on_the_left, head_op, factor, rests);
    if rests.len() > 1 {
        lemma_distributes_over_a_chain(interpretation, on_the_left, head_op, op2, factor, rests.drop_first());
        assert(products.drop_first() =~= products_with(
            interpretation,
            on_the_left,
            head_op,
            factor,
            rests.drop_first(),
        ));
        let first = rests[0];
        let others = chain_value(interpretation, op2, rests.drop_first());
        if on_the_left {
            assert(binary_value(interpretation, head_op, factor, binary_value(interpretation, op2, first, others))
                == binary_value(
                interpretation,
                op2,
                binary_value(interpretation, head_op, factor, first),
                binary_value(interpretation, head_op, factor, others),
            ));
        } else {
            assert(binary_value(interpretation, head_op, binary_value(interpretation, op2, first, others), factor)
                == binary_value(
                interpretation,
                op2,
                binary_value(interpretation, head_op, first, factor),
                binary_value(interpretation, head_op, others, factor),
            ));
        }
    }
}

/// Those of the first `upto` of `operands` that offer `factor` under `head_op`.
pub open spec fn offering<LOS>(
    operands: Seq<TermModel<LOS>>,
    head_op: LOS,
    model: DistributivityModel<LOS>,
    on_the_left: bool,
    factor: TermModel<LOS>,
    upto: int,
) -> Seq<TermModel<LOS>>
    decreases upto,
{
    if upto <= 0 {
        Seq::empty()
    } else {
        let earlier = offering(operands, head_op, model, on_the_left, factor, upto - 1);
        if factor_of(operands[upto - 1], head_op, (model.associative)(head_op), on_the_left) == factor {
            earlier.push(operands[upto - 1])
        } else {
            earlier
        }
    }
}

/// Each of `operands` has the value that `head_op` makes of the value of
/// its factor and of the value of what is left of it.
pub open spec fn are_products_in<LOS, V>(
    operands: Seq<TermModel<LOS>>,
    head_op: LOS,
    model: DistributivityModel<LOS>,
    on_the_left: bool,
    interpretation: spec_fn(LOS, Seq<V>) -> V,
) -> bool {
    forall|i: int|
        0 <= i < operands.len() ==> value_of(#[trigger] operands[i], interpretation) == product_value(
            interpretation,
            on_the_left,
            head_op,
            value_of(factor_of(operands[i], head_op, (model.associative)(head_op), on_the_left), interpretation),
            value_of(
                folded(
                    head_op,
                    rest_of(operands[i], head_op, (model.associative)(head_op), on_the_left),
                    Some(model.empty_operation_symbol),
                ),
                interpretation,
            ),
        )
}

/// The values of the operands that offer a factor are what `head_op` makes
/// of the value of the factor and of the values of what is left of them.
proof fn lemma_values_of_offering<LOS, V>(
    operands: Seq<TermModel<LOS>>,
    head_op: LOS,
    model: DistributivityModel<LOS>,
    on_the_left: bool,
    factor: TermModel<LOS>,
    upto: int,
    interpretation: spec_fn(LOS, Seq<V>) -> V,
)
    requires
        0 <= upto <= operands.len(),
        are_products_in(operands, head_op, model, on_the_left, interpretation),
    ensures
        offering(operands, head_op, model, on_the_left, factor, upto).len() == remainders(
            operands,
            head_op,
            model,
            on_the_left,
            factor,
            upto,
        ).len(),
        forall|j: int|
            0 <= j < offering(operands, head_op, model, on_the_left, factor, upto).len() ==> value_of(
                #[trigger] offering(operands, head_op, model, on_the_left, factor, upto)[j],
                interpretation,
            ) == product_value(
                interpretation,
                on_the_left,
                head_op,
                value_of(factor, interpretation),
                value_of(remainders(operands, head_op, model, on_the_left, factor, upto)[j], interpretation),
            ),
    decreases upto,
{
    if upto > 0 {
        lemma_values_of_offering(operands, head_op, model, on_the_left, factor, upto - 1, interpretation);
        let members = offering(operands, head_op, model, on_the_left, factor, upto);
        let rests = remainders(operands, head_op, model, on_the_left, factor, upto);
        let earlier_members = offering(operands, head_op, model, on_the_left, factor, upto - 1);
        let earlier_rests = remainders(operands, head_op, model, on_the_left, factor, upto - 1);
        let operand = operands[upto - 1];
        assert forall|j: int| 0 <= j < members.len() implies value_of(#[trigger] members[j], interpretation)
            == product_value(
            interpretation,
            on_the_left,
            head_op,
            value_of(factor, interpretation),
            value_of(rests[j], interpretation),
        ) by {
            if j < earlier_members.len() {
                assert(members[j] == earlier_members[j]);
                assert(rests[j] == earlier_rests[j]);
            } else {
                assert(members[j] == operand);
            }
        }
    }
}

/// The value of a factorized term is what the chain of `op2` makes of the
/// values of the operands that it stands for.
proof fn lemma_value_of_a_factorized_group<LOS, V>(
    operands: Seq<TermModel<LOS>>,
    op2: LOS,
    head_op: LOS,
    model: DistributivityModel<LOS>,
    on_the_left: bool,
    factor: TermModel<LOS>,
    interpretation: spec_fn(LOS, Seq<V>) -> V,
)
    requires
        if on_the_left {
            is_left_distributive_in(interpretation, head_op, op2)
        } else {
            is_right_distributive_in(interpretation, head_op, op2)
        },
        are_products_in(operands, head_op, model, on_the_left, interpretation),
        is_shared(operands, head_op, model, on_the_left, factor),
    ensures
        offering(operands, head_op, model, on_the_left, factor, operands.len() as int).len() > 1,
        value_of(factorized_group(operands, op2, head_op, model, on_the_left, factor), interpretation) == chain_value(
            interpretation,
            op2,
            values_of(offering(operands, head_op, model, on_the_left, factor, operands.len() as int), interpretation),
        ),
{
    let count = operands.len() as int;
    let members = offering(operands, head_op, model, on_the_left, factor, count);
    let rests = remainders(operands, head_op, model, on_the_left, factor, count);
    let group = factorized_group(operands, op2, head_op, model, on_the_left, factor);
    let others = folded(op2, rests, Some(model.empty_operation_symbol));
    lemma_value_of_folded(op2, rests, Some(model.empty_operation_symbol), interpretation);
    lemma_values_of(rests, interpretation);
    lemma_values_of(members, interpretation);
    lemma_values_of_offering(operands, head_op, model, on_the_left, factor, count, interpretation);
    lemma_distributes_over_a_chain(
        interpretation,
        on_the_left,
        head_op,
        op2,
        value_of(factor, interpretation),
        values_of(rests, interpretation),
    );
    assert(values_of(members, interpretation) =~= products_with(
        interpretation,
        on_the_left,
        head_op,
        value_of(factor, interpretation),
        values_of(rests, interpretation),
    ));
    lemma_value_of_binary_node(group, interpretation);
    assert(value_of(group, interpretation) == product_value(
        interpretation,
        on_the_left,
        head_op,
        value_of(factor, interpretation),
        value_of(others, interpretation),
    ));
}

/// What a chain of an associative and commutative operator makes of the
/// values of terms does not depend on the order of the terms.
proof fn lemma_chain_of_rearranged_terms<LOS, V>(
    interpretation: spec_fn(LOS, Seq<V>) -> V,
    op: LOS,
    terms: Seq<TermModel<LOS>>,
    rearranged: Seq<TermModel<LOS>>,
)
    requires
        is_associative_in(interpretation, op),
        is_commutative_in(interpretation, op),
        terms.len() > 0,
        terms.to_multiset() == rearranged.to_multiset(),
    ensures
        chain_value(interpretation, op, values_of(terms, interpretation)) == chain_value(
            interpretation,
            op,
            values_of(rearranged, interpretation),
        ),
    decreases terms.len(),
{
    terms.to_multiset_ensures();
    rearranged.to_multiset_ensures();
    lemma_values_of(terms, interpretation);
    lemma_values_of(rearranged, interpretation);
    let first = terms[0];
    to_multiset_contains(terms, first);
    to_multiset_contains(rearranged, first);
    assert(terms.contains(first));
    let k = choose|k: int| 0 <= k < rearranged.len() && rearranged[k] == first;
    if terms.len() > 1 {
        to_multiset_remove(terms, 0);
        to_multiset_remove(rearranged, k);
        assert(terms.remove(0) =~= terms.drop_first());
        lemma_chain_of_rearranged_terms(interpretation, op, terms.drop_first(), rearranged.remove(k));
        lemma_values_of(terms.drop_first(), interpretation);
        lemma_values_of(rearranged.remove(k), interpretation);
        assert(values_of(terms, interpretation).drop_first() =~= values_of(terms.drop_first(), interpretation));
        assert(values_of(rearranged, interpretation).remove(k) =~= values_of(rearranged.remove(k), interpretation));
        lemma_chain_with_one_in_front(interpretation, op, values_of(rearranged, interpretation), k);
    }
}

/// The factor that the operand of index `j` offers is offered by one of the
/// first `k` operands.
pub open spec fn is_offered_before<LOS>(
    operands: Seq<TermModel<LOS>>,
    head_op: LOS,
    model: DistributivityModel<LOS>,
    on_the_left: bool,
    j: int,
    k: int,
) -> bool {
    exists|i: int|
        0 <= i < k && factor_of(#[trigger] operands[i], head_op, (model.associative)(head_op), on_the_left) == factor_of(
            operands[j],
            head_op,
            (model.associative)(head_op),
            on_the_left,
        )
}

/// The operand of index `j` shares its factor with another operand.
pub open spec fn shares_its_factor<LOS>(
    operands: Seq<TermModel<LOS>>,
    head_op: LOS,
    model: DistributivityModel<LOS>,
    on_the_left: bool,
    j: int,
) -> bool {
    is_shared(
        operands,
        head_op,
        model,
        on_the_left,
        factor_of(operands[j], head_op, (model.associative)(head_op), on_the_left),
    )
}

/// The operand of index `j` is still to be dealt with once the first `k`
/// operands are: it is none of these, and no factorized term of these
/// stands for it.
pub open spec fn is_pending<LOS>(
    operands: Seq<TermModel<LOS>>,
    head_op: LOS,
    model: DistributivityModel<LOS>,
    on_the_left: bool,
    j: int,
    k: int,
) -> bool {
    j >= k && (!shares_its_factor(operands, head_op, model, on_the_left, j) || !is_offered_before(
        operands,
        head_op,
        model,
        on_the_left,
        j,
        k,
    ))
}

/// Those of the first `upto` operands that are still to be dealt with once
/// the first `k` operands are.
pub open spec fn pending<LOS>(
    operands: Seq<TermModel<LOS>>,
    head_op: LOS,
    model: DistributivityModel<LOS>,
    on_the_left: bool,
    k: int,
    upto: int,
) -> Seq<TermModel<LOS>>
    decreases upto,
{
    if upto <= 0 {
        Seq::empty()
    } else {
        let earlier = pending(operands, head_op, model, on_the_left, k, upto - 1);
        if is_pending(operands, head_op, model, on_the_left, upto - 1, k) {
            earlier.push(operands[upto - 1])
        } else {
            earlier
        }
    }
}

/// Those of the first `upto` operands that share their factor with no other.
pub open spec fn unshared<LOS>(
    operands: Seq<TermModel<LOS>>,
    head_op: LOS,
    model: DistributivityModel<LOS>,
    on_the_left: bool,
    upto: int,
) -> Seq<TermModel<LOS>>
    decreases upto,
{
    if upto <= 0 {
        Seq::empty()
    } else {
        let earlier = unshared(operands, head_op, model, on_the_left, upto - 1);
        if shares_its_factor(operands, head_op, model, on_the_left, upto - 1) {
            earlier
        } else {
            earlier.push(operands[upto - 1])
        }
    }
}

/// An operand that offers a shared factor shares its factor.
proof fn lemma_same_factor_same_share<LOS>(
    operands: Seq<TermModel<LOS>>,
    head_op: LOS,
    model: DistributivityModel<LOS>,
    on_the_left: bool,
    i: int,
    j: int,
)
    requires
        factor_of(operands[i], head_op, (model.associative)(head_op), on_the_left) == factor_of(
            operands[j],
            head_op,
            (model.associative)(head_op),
            on_the_left,
        ),
    ensures
        shares_its_factor(operands, head_op, model, on_the_left, i) == shares_its_factor(
            operands,
            head_op,
            model,
            on_the_left,
            j,
        ),
{
}

/// Once no operand is dealt with, all are pending.
proof fn lemma_all_pending_at_first<LOS>(
    operands: Seq<TermModel<LOS>>,
    head_op: LOS,
    model: DistributivityModel<LOS>,
    on_the_left: bool,
    upto: int,
)
    requires
        0 <= upto <= operands.len(),
    ensures
        pending(operands, head_op, model, on_the_left, 0, upto) == operands.take(upto),
    decreases upto,
{
    if upto > 0 {
        lemma_all_pending_at_first(operands, head_op, model, on_the_left, upto - 1);
        assert(operands.take(upto) =~= operands.take(upto - 1).push(operands[upto - 1]));
    } else {
        assert(operands.take(0) =~= Seq::<TermModel<LOS>>::empty());
    }
}

/// Once all operands are dealt with, none is pending.
proof fn lemma_none_pending_at_last<LOS>(
    operands: Seq<TermModel<LOS>>,
    head_op: LOS,
    model: DistributivityModel<LOS>,
    on_the_left: bool,
    k: int,
    upto: int,
)
    requires
        0 <= upto <= k,
    ensures
        pending(operands, head_op, model, on_the_left, k, upto) == Seq::<TermModel<LOS>>::empty(),
    decreases upto,
{
    if upto > 0 {
        lemma_none_pending_at_last(operands, head_op, model, on_the_left, k, upto - 1);
    }
}

/// Dealing with an operand that shares its factor with no other takes that
/// operand, and only it, out of the pending ones.
proof fn lemma_pending_without_an_unshared_operand<LOS>(
    operands: Seq<TermModel<LOS>>,
    head_op: LOS,
    model: DistributivityModel<LOS>,
    on_the_left: bool,
    k: int,
    upto: int,
)
    requires
        0 <= k < operands.len(),
        0 <= upto <= operands.len(),
        !shares_its_factor(operands, head_op, model, on_the_left, k),
    ensures
        pending(operands, head_op, model, on_the_left, k, upto).to_multiset() == if k < upto {
            pending(operands, head_op, model, on_the_left, k + 1, upto).to_multiset().insert(operands[k])
        } else {
            pending(operands, head_op, model, on_the_left, k + 1, upto).to_multiset()
        },
    decreases upto,
{
    broadcast use vstd::multiset::group_multiset_axioms;

    if upto > 0 {
        let j = upto - 1;
        lemma_pending_without_an_unshared_operand(operands, head_op, model, on_the_left, k, upto - 1);
        let before = pending(operands, head_op, model, on_the_left, k, upto - 1);
        let after = pending(operands, head_op, model, on_the_left, k + 1, upto - 1);
        to_multiset_build(before, operands[j]);
        to_multiset_build(after, operands[j]);
        if j > k {
            if factor_of(operands[k], head_op, (model.associative)(head_op), on_the_left) == factor_of(
                operands[j],
                head_op,
                (model.associative)(head_op),
                on_the_left,
            ) {
                lemma_same_factor_same_share(operands, head_op, model, on_the_left, k, j);
            } else {
                assert(is_offered_before(operands, head_op, model, on_the_left, j, k + 1) == is_offered_before(
                    operands,
                    head_op,
                    model,
                    on_the_left,
                    j,
                    k,
                )) by {
                    if is_offered_before(operands, head_op, model, on_the_left, j, k + 1) {
                        let i = choose|i: int|
                            0 <= i < k + 1 && factor_of(
                                #[trigger] operands[i],
                                head_op,
                                (model.associative)(head_op),
                                on_the_left,
                            ) == factor_of(operands[j], head_op, (model.associative)(head_op), on_the_left);
                        assert(i < k);
                    }
                    if is_offered_before(operands, head_op, model, on_the_left, j, k) {
                        let i = choose|i: int|
                            0 <= i < k && factor_of(
                                #[trigger] operands[i],
                                head_op,
                                (model.associative)(head_op),
                                on_the_left,
                            ) == factor_of(operands[j], head_op, (model.associative)(head_op), on_the_left);
                        assert(0 <= i < k + 1);
                    }
                }
            }
        }
        assert(pending(operands, head_op, model, on_the_left, k, upto).to_multiset() =~= if k < upto {
            pending(operands, head_op, model, on_the_left, k + 1, upto).to_multiset().insert(operands[k])
        } else {
            pending(operands, head_op, model, on_the_left, k + 1, upto).to_multiset()
        });
    } else {
        assert(pending(operands, head_op, model, on_the_left, k, upto).to_multiset() =~= pending(
            operands,
            head_op,
            model,
            on_the_left,
            k + 1,
            upto,
        ).to_multiset());
    }
}

/// For an operand that offers another factor than the operand of index
/// `k`, it is all one whether the first `k` operands or the first `k + 1`
/// are looked at.
proof fn lemma_offered_before_another<LOS>(
    operands: Seq<TermModel<LOS>>,
    head_op: LOS,
    model: DistributivityModel<LOS>,
    on_the_left: bool,
    j: int,
    k: int,
)
    requires
        0 <= k,
        factor_of(operands[k], head_op, (model.associative)(head_op), on_the_left) != factor_of(
            operands[j],
            head_op,
            (model.associative)(head_op),
            on_the_left,
        ) || is_offered_before(operands, head_op, model, on_the_left, k, k),
    ensures
        is_offered_before(operands, head_op, model, on_the_left, j, k + 1) == is_offered_before(
            operands,
            head_op,
            model,
            on_the_left,
            j,
            k,
        ),
{
    let associative = (model.associative)(head_op);
    if is_offered_before(operands, head_op, model, on_the_left, j, k + 1) {
        let i = choose|i: int|
            0 <= i < k + 1 && factor_of(#[trigger] operands[i], head_op, associative, on_the_left) == factor_of(
                operands[j],
                head_op,
                associative,
                on_the_left,
            );
        if i == k {
            let earlier = choose|earlier: int|
                0 <= earlier < k && factor_of(#[trigger] operands[earlier], head_op, associative, on_the_left)
                    == factor_of(operands[k], head_op, associative, on_the_left);
            assert(0 <= earlier < k && factor_of(operands[earlier], head_op, associative, on_the_left) == factor_of(
                operands[j],
                head_op,
                associative,
                on_the_left,
            ));
        }
    }
    if is_offered_before(operands, head_op, model, on_the_left, j, k) {
        let i = choose|i: int|
            0 <= i < k && factor_of(#[trigger] operands[i], head_op, associative, on_the_left) == factor_of(
                operands[j],
                head_op,
                associative,
                on_the_left,
            );
        assert(0 <= i < k + 1);
    }
}

/// Dealing with the first operand to offer a shared factor takes the
/// operands that offer that factor, and only them, out of the pending ones.
proof fn lemma_pending_without_a_group<LOS>(
    operands: Seq<TermModel<LOS>>,
    head_op: LOS,
    model: DistributivityModel<LOS>,
    on_the_left: bool,
    k: int,
    upto: int,
)
    requires
        0 <= k < operands.len(),
        0 <= upto <= operands.len(),
        shares_its_factor(operands, head_op, model, on_the_left, k),
        !is_offered_before(operands, head_op, model, on_the_left, k, k),
    ensures
        pending(operands, head_op, model, on_the_left, k, upto).to_multiset() == pending(
            operands,
            head_op,
            model,
            on_the_left,
            k + 1,
            upto,
        ).to_multiset().add(
            offering(
                operands,
                head_op,
                model,
                on_the_left,
                factor_of(operands[k], head_op, (model.associative)(head_op), on_the_left),
                upto,
            ).to_multiset(),
        ),
    decreases upto,
{
    broadcast use vstd::multiset::group_multiset_axioms;

    let associative = (model.associative)(head_op);
    let factor = factor_of(operands[k], head_op, associative, on_the_left);
    if upto > 0 {
        let j = upto - 1;
        lemma_pending_without_a_group(operands, head_op, model, on_the_left, k, upto - 1);
        let before = pending(operands, head_op, model, on_the_left, k, upto - 1);
        let after = pending(operands, head_op, model, on_the_left, k + 1, upto - 1);
        let members = offering(operands, head_op, model, on_the_left, factor, upto - 1);
        to_multiset_build(before, operands[j]);
        to_multiset_build(after, operands[j]);
        to_multiset_build(members, operands[j]);
        if factor_of(operands[j], head_op, associative, on_the_left) == factor {
            lemma_same_factor_same_share(operands, head_op, model, on_the_left, k, j);
            if j < k {
                assert(0 <= j < k && factor_of(operands[j], head_op, associative, on_the_left) == factor_of(
                    operands[k],
                    head_op,
                    associative,
                    on_the_left,
                ));
                assert(is_offered_before(operands, head_op, model, on_the_left, k, k));
            } else {
                assert(!is_offered_before(operands, head_op, model, on_the_left, j, k)) by {
                    if is_offered_before(operands, head_op, model, on_the_left, j, k) {
                        let i = choose|i: int|
                            0 <= i < k && factor_of(#[trigger] operands[i], head_op, associative, on_the_left)
                                == factor_of(operands[j], head_op, associative, on_the_left);
                        assert(is_offered_before(operands, head_op, model, on_the_left, k, k));
                    }
                }
                assert(is_offered_before(operands, head_op, model, on_the_left, j, k + 1)) by {
                    assert(0 <= k < k + 1 && factor_of(operands[k], head_op, associative, on_the_left) == factor_of(
                        operands[j],
                        head_op,
                        associative,
                        on_the_left,
                    ));
                }
                assert(is_pending(operands, head_op, model, on_the_left, j, k));
                assert(!is_pending(operands, head_op, model, on_the_left, j, k + 1));
                assert(pending(operands, head_op, model, on_the_left, k, upto) == before.push(operands[j]));
                assert(pending(operands, head_op, model, on_the_left, k + 1, upto) == after);
                assert(offering(operands, head_op, model, on_the_left, factor, upto) == members.push(operands[j]));
                assert(before.to_multiset().insert(operands[j]) =~= after.to_multiset().add(
                    members.to_multiset().insert(operands[j]),
                ));
                assert(pending(operands, head_op, model, on_the_left, k, upto).to_multiset() =~= pending(
            operands,
            head_op,
            model,
            on_the_left,
            k + 1,
            upto,
        ).to_multiset().add(offering(operands, head_op, model, on_the_left, factor, upto).to_multiset()));
            }
        } else {
            lemma_offered_before_another(operands, head_op, model, on_the_left, j, k);
            assert(is_pending(operands, head_op, model, on_the_left, j, k) == is_pending(
                operands,
                head_op,
                model,
                on_the_left,
                j,
                k + 1,
            ));
            assert(offering(operands, head_op, model, on_the_left, factor, upto) == members);
            if is_pending(operands, head_op, model, on_the_left, j, k) {
                assert(before.to_multiset().insert(operands[j]) =~= after.to_multiset().insert(operands[j]).add(
                    members.to_multiset(),
                ));
                assert(pending(operands, head_op, model, on_the_left, k, upto).to_multiset() =~= pending(
            operands,
            head_op,
            model,
            on_the_left,
            k + 1,
            upto,
        ).to_multiset().add(offering(operands, head_op, model, on_the_left, factor, upto).to_multiset()));
            } else {
                assert(pending(operands, head_op, model, on_the_left, k, upto) == before);
                assert(pending(operands, head_op, model, on_the_left, k + 1, upto) == after);
                assert(pending(operands, head_op, model, on_the_left, k, upto).to_multiset() =~= pending(
            operands,
            head_op,
            model,
            on_the_left,
            k + 1,
            upto,
        ).to_multiset().add(offering(operands, head_op, model, on_the_left, factor, upto).to_multiset()));
            }
        }
    } else {
        let none = Seq::<TermModel<LOS>>::empty();
        assert forall|a: TermModel<LOS>| none.to_multiset().count(a) == 0 by {
            to_multiset_contains(none, a);
        }
        assert(none.to_multiset() =~= none.to_multiset().add(none.to_multiset()));
    }
}

/// Dealing with an operand that a factorized term stands for already
/// leaves the pending ones as they are.
proof fn lemma_pending_after_a_member<LOS>(
    operands: Seq<TermModel<LOS>>,
    head_op: LOS,
    model: DistributivityModel<LOS>,
    on_the_left: bool,
    k: int,
    upto: int,
)
    requires
        0 <= k < operands.len(),
        0 <= upto <= operands.len(),
        shares_its_factor(operands, head_op, model, on_the_left, k),
        is_offered_before(operands, head_op, model, on_the_left, k, k),
    ensures
        pending(operands, head_op, model, on_the_left, k, upto) == pending(
            operands,
            head_op,
            model,
            on_the_left,
            k + 1,
            upto,
        ),
    decreases upto,
{
    if upto > 0 {
        let j = upto - 1;
        lemma_pending_after_a_member(operands, head_op, model, on_the_left, k, upto - 1);
        if j > k {
            lemma_offered_before_another(operands, head_op, model, on_the_left, j, k);
        }
    }
}

/// The first operand to offer its factor is the one whose factor is not
/// offered before.
proof fn lemma_first_to_offer<LOS>(
    operands: Seq<TermModel<LOS>>,
    head_op: LOS,
    model: DistributivityModel<LOS>,
    on_the_left: bool,
    k: int,
)
    ensures
        is_first_to_offer(operands, head_op, model, on_the_left, k) == !is_offered_before(
            operands,
            head_op,
            model,
            on_the_left,
            k,
            k,
        ),
{
    let associative = (model.associative)(head_op);
    if is_offered_before(operands, head_op, model, on_the_left, k, k) {
        let i = choose|i: int|
            0 <= i < k && factor_of(#[trigger] operands[i], head_op, associative, on_the_left) == factor_of(
                operands[k],
                head_op,
                associative,
                on_the_left,
            );
        assert(!is_first_to_offer(operands, head_op, model, on_the_left, k));
    }
}

/// What the chain of `op2` makes of the values of the operands is what it
/// makes of the values of the operands that are dealt with, as they are
/// or in their factorized terms, and of those that are pending.
proof fn lemma_dealing_with_operands_keeps_the_value<LOS, V>(
    operands: Seq<TermModel<LOS>>,
    op2: LOS,
    head_op: LOS,
    model: DistributivityModel<LOS>,
    on_the_left: bool,
    k: int,
    interpretation: spec_fn(LOS, Seq<V>) -> V,
)
    requires
        is_associative_in(interpretation, op2),
        is_commutative_in(interpretation, op2),
        if on_the_left {
            is_left_distributive_in(interpretation, head_op, op2)
        } else {
            is_right_distributive_in(interpretation, head_op, op2)
        },
        are_products_in(operands, head_op, model, on_the_left, interpretation),
        0 <= k <= operands.len(),
        operands.len() > 0,
    ensures
        chain_value(
            interpretation,
            op2,
            values_of(
                unshared(operands, head_op, model, on_the_left, k) + factorized_under(
                    operands,
                    op2,
                    head_op,
                    model,
                    on_the_left,
                    k,
                ) + pending(operands, head_op, model, on_the_left, k, operands.len() as int),
                interpretation,
            ),
        ) == chain_value(interpretation, op2, values_of(operands, interpretation)),
        (unshared(operands, head_op, model, on_the_left, k) + factorized_under(
            operands,
            op2,
            head_op,
            model,
            on_the_left,
            k,
        ) + pending(operands, head_op, model, on_the_left, k, operands.len() as int)).len() > 0,
    decreases k,
{
    let count = operands.len() as int;
    if k == 0 {
        lemma_all_pending_at_first(operands, head_op, model, on_the_left, count);
        assert(operands.take(count) =~= operands);
        assert(unshared(operands, head_op, model, on_the_left, 0) + factorized_under(
            operands,
            op2,
            head_op,
            model,
            on_the_left,
            0,
        ) + pending(operands, head_op, model, on_the_left, 0, count) =~= operands);
    } else {
        let done = k - 1;
        lemma_dealing_with_operands_keeps_the_value(operands, op2, head_op, model, on_the_left, done, interpretation);
        lemma_first_to_offer(operands, head_op, model, on_the_left, done);
        let kept_before = unshared(operands, head_op, model, on_the_left, done);
        let groups_before = factorized_under(operands, op2, head_op, model, on_the_left, done);
        let pending_before = pending(operands, head_op, model, on_the_left, done, count);
        let kept_after = unshared(operands, head_op, model, on_the_left, k);
        let groups_after = factorized_under(operands, op2, head_op, model, on_the_left, k);
        let pending_after = pending(operands, head_op, model, on_the_left, k, count);
        let before = kept_before + groups_before + pending_before;
        let after = kept_after + groups_after + pending_after;
        let operand = operands[done];
        if !shares_its_factor(operands, head_op, model, on_the_left, done) {
            lemma_pending_without_an_unshared_operand(operands, head_op, model, on_the_left, done, count);
            assert(kept_after == kept_before.push(operand));
            assert(groups_after == groups_before);
            assert(before.to_multiset() =~= after.to_multiset()) by {
                broadcast use vstd::multiset::group_multiset_axioms;

                lemma_multiset_commutative(kept_before + groups_before, pending_before);
                lemma_multiset_commutative(kept_before, groups_before);
                lemma_multiset_commutative(kept_after + groups_after, pending_after);
                lemma_multiset_commutative(kept_after, groups_after);
                to_multiset_build(kept_before, operand);
            }
            lemma_chain_of_rearranged_terms(interpretation, op2, before, after);
            before.to_multiset_ensures();
            after.to_multiset_ensures();
        } else if !is_offered_before(operands, head_op, model, on_the_left, done, done) {
            let factor = factor_of(operand, head_op, (model.associative)(head_op), on_the_left);
            let members = offering(operands, head_op, model, on_the_left, factor, count);
            let group = factorized_group(operands, op2, head_op, model, on_the_left, factor);
            lemma_pending_without_a_group(operands, head_op, model, on_the_left, done, count);
            lemma_value_of_a_factorized_group(operands, op2, head_op, model, on_the_left, factor, interpretation);
            assert(kept_after == kept_before);
            assert(groups_after == groups_before.push(group));
            let front = kept_before + groups_before;
            let gathered = front + members + pending_after;
            assert(before.to_multiset() =~= gathered.to_multiset()) by {
                broadcast use vstd::multiset::group_multiset_axioms;

                lemma_multiset_commutative(front, pending_before);
                lemma_multiset_commutative(front + members, pending_after);
                lemma_multiset_commutative(front, members);
            }
            lemma_chain_of_rearranged_terms(interpretation, op2, before, gathered);
            lemma_values_of_concatenation(front + members, pending_after, interpretation);
            lemma_values_of_concatenation(front, members, interpretation);
            lemma_chain_of_regrouped_operands(
                interpretation,
                op2,
                values_of(front, interpretation),
                values_of(members, interpretation),
                values_of(pending_after, interpretation),
            );
            lemma_values_of(members, interpretation);
            assert(after =~= front + seq![group] + pending_after);
            lemma_values_of_concatenation(front + seq![group], pending_after, interpretation);
            lemma_values_of_concatenation(front, seq![group], interpretation);
            lemma_values_of(seq![group], interpretation);
            assert(values_of(seq![group], interpretation) =~= seq![value_of(group, interpretation)]);
        } else {
            lemma_pending_after_a_member(operands, head_op, model, on_the_left, done, count);
            assert(kept_after == kept_before);
            assert(groups_after == groups_before);
        }
    }
}

/// An operator among the head operators is one that operands may be
/// factorized by.
proof fn lemma_head_operators_are_head_operators<LOS>(
    operands: Seq<TermModel<LOS>>,
    op2: LOS,
    model: DistributivityModel<LOS>,
    on_the_left: bool,
    upto: int,
)
    ensures
        forall|k: int|
            0 <= k < head_operators(operands, op2, model, on_the_left, upto).len() ==> model.is_head_operator(
                on_the_left,
                #[trigger] head_operators(operands, op2, model, on_the_left, upto)[k],
                op2,
            ),
    decreases upto,
{
    if upto > 0 {
        lemma_head_operators_are_head_operators(operands, op2, model, on_the_left, upto - 1);
        let heads = head_operators(operands, op2, model, on_the_left, upto);
        let earlier = head_operators(operands, op2, model, on_the_left, upto - 1);
        assert forall|k: int| 0 <= k < heads.len() implies model.is_head_operator(
            on_the_left,
            #[trigger] heads[k],
            op2,
        ) by {
            if k < earlier.len() {
                assert(heads[k] == earlier[k]);
            }
        }
    }
}

/// With a single head operator, the operands that are kept are those that
/// share their factor with no other.
proof fn lemma_kept_operands_are_unshared<LOS>(
    operands: Seq<TermModel<LOS>>,
    heads: Seq<LOS>,
    model: DistributivityModel<LOS>,
    on_the_left: bool,
    upto: int,
)
    requires
        heads.len() == 1,
    ensures
        kept_operands(operands, heads, model, on_the_left, upto) == unshared(
            operands,
            heads[0],
            model,
            on_the_left,
            upto,
        ),
    decreases upto,
{
    if upto > 0 {
        lemma_kept_operands_are_unshared(operands, heads, model, on_the_left, upto - 1);
        let j = upto - 1;
        if is_factorized(operands, heads, model, on_the_left, j, 1) {
            let k = choose|k: int|
                0 <= k < 1 && is_shared(
                    operands,
                    #[trigger] heads[k],
                    model,
                    on_the_left,
                    factor_of(operands[j], heads[k], (model.associative)(heads[k]), on_the_left),
                );
            assert(k == 0);
        }
        if shares_its_factor(operands, heads[0], model, on_the_left, j) {
            assert(0 <= 0 < 1 && is_shared(
                operands,
                heads[0],
                model,
                on_the_left,
                factor_of(operands[j], heads[0], (model.associative)(heads[0]), on_the_left),
            ));
        }
    }
}

/// The term that the operands that are kept and the factorized terms are
/// folded into has the value that the chain of `op2` makes of the values
/// of the operands, where the operands are factorized by one operator only.
proof fn lemma_value_of_the_factorized_operands<LOS, V>(
    operands: Seq<TermModel<LOS>>,
    op2: LOS,
    heads: Seq<LOS>,
    model: DistributivityModel<LOS>,
    on_the_left: bool,
    interpretation: spec_fn(LOS, Seq<V>) -> V,
)
    requires
        is_associative_in(interpretation, op2),
        is_commutative_in(interpretation, op2),
        heads.len() == 1,
        if on_the_left {
            is_left_distributive_in(interpretation, heads[0], op2)
        } else {
            is_right_distributive_in(interpretation, heads[0], op2)
        },
        are_products_in(operands, heads[0], model, on_the_left, interpretation),
        operands.len() > 0,
    ensures
        value_of(
            folded(
                op2,
                kept_operands(operands, heads, model, on_the_left, operands.len() as int) + factorized_terms(
                    operands,
                    op2,
                    heads,
                    model,
                    on_the_left,
                    1,
                ),
                Some(model.empty_operation_symbol),
            ),
            interpretation,
        ) == chain_value(interpretation, op2, values_of(operands, interpretation)),
{
    let count = operands.len() as int;
    let head_op = heads[0];
    let factorized = factorized_terms(operands, op2, heads, model, on_the_left, 1);
    let kept = kept_operands(operands, heads, model, on_the_left, count);
    lemma_kept_operands_are_unshared(operands, heads, model, on_the_left, count);
    assert(factorized =~= factorized_under(operands, op2, head_op, model, on_the_left, count)) by {
        assert(factorized_terms(operands, op2, heads, model, on_the_left, 0) =~= Seq::<TermModel<LOS>>::empty());
    }
    lemma_dealing_with_operands_keeps_the_value(operands, op2, head_op, model, on_the_left, count, interpretation);
    lemma_none_pending_at_last(operands, head_op, model, on_the_left, count, count);
    assert(kept + factorized + Seq::<TermModel<LOS>>::empty() =~= kept + factorized);
    lemma_value_of_folded(op2, kept + factorized, Some(model.empty_operation_symbol), interpretation);
}

/// The value of a term is what the chain of its operator makes of the
/// values of its operands.
proof fn lemma_value_of_the_operands<LOS, V>(
    term: TermModel<LOS>,
    associative: bool,
    arity: spec_fn(LOS) -> nat,
    interpretation: spec_fn(LOS, Seq<V>) -> V,
)
    requires
        arity(term.operator) == 2,
        respects_arity(term, arity),
        is_associative_in(interpretation, term.operator),
    ensures
        operands_under(term, associative).len() > 0,
        forall|i: int|
            0 <= i < operands_under(term, associative).len() ==> respects_arity(
                #[trigger] operands_under(term, associative)[i],
                arity,
            ),
        chain_value(interpretation, term.operator, values_of(operands_under(term, associative), interpretation))
            == value_of(term, interpretation),
{
    let operands = operands_under(term, associative);
    if associative {
        lemma_value_of_flattened(term, term.operator, arity, interpretation);
        lemma_flattened_respect_arity(term, term.operator, arity);
    } else {
        lemma_value_of_binary_node(term, interpretation);
        lemma_values_of(operands, interpretation);
        assert(values_of(operands, interpretation) =~= seq![
            value_of(term.sub_terms[0], interpretation),
            value_of(term.sub_terms[1], interpretation),
        ]);
        assert(values_of(operands, interpretation).drop_first() =~= seq![value_of(term.sub_terms[1], interpretation)]);
        assert(chain_value(
            interpretation,
            term.operator,
            seq![value_of(term.sub_terms[1], interpretation)],
        ) == value_of(term.sub_terms[1], interpretation));
        assert(forall|i: int| 0 <= i < operands.len() ==> respects_arity(#[trigger] operands[i], arity));
    }
}

/// The operands have the values of products by a head operator.
proof fn lemma_operands_are_products<LOS, V>(
    operands: Seq<TermModel<LOS>>,
    head_op: LOS,
    op2: LOS,
    model: DistributivityModel<LOS>,
    on_the_left: bool,
    arity: spec_fn(LOS) -> nat,
    interpretation: spec_fn(LOS, Seq<V>) -> V,
)
    requires
        is_head_operator_in(interpretation, head_op, op2, model, on_the_left, arity),
        forall|i: int| 0 <= i < operands.len() ==> respects_arity(#[trigger] operands[i], arity),
    ensures
        are_products_in(operands, head_op, model, on_the_left, interpretation),
{
    assert forall|i: int| 0 <= i < operands.len() implies value_of(#[trigger] operands[i], interpretation)
        == product_value(
        interpretation,
        on_the_left,
        head_op,
        value_of(factor_of(operands[i], head_op, (model.associative)(head_op), on_the_left), interpretation),
        value_of(
            folded(
                head_op,
                rest_of(operands[i], head_op, (model.associative)(head_op), on_the_left),
                Some(model.empty_operation_symbol),
            ),
            interpretation,
        ),
    ) by {
        lemma_value_of_an_operand(operands[i], head_op, op2, model, on_the_left, arity, interpretation);
    }
}

/// A factorization modulo associativity and commutativity keeps the value
/// of a term, where the operands are factorized by one operator only, and
/// where in the algebra the operator of the term is binary, associative
/// and commutative, and the operator that its operands are factorized by
/// is binary, associative where it is taken for it, distributive over the
/// operator of the term, with the empty operation for a neutral element.
pub proof fn lemma_factorization_modulo_ac_is_sound<LOS, V>(
    term: TermModel<LOS>,
    model: DistributivityModel<LOS>,
    on_the_left: bool,
    arity: spec_fn(LOS) -> nat,
    interpretation: spec_fn(LOS, Seq<V>) -> V,
)
    requires
        arity(term.operator) == 2,
        respects_arity(term, arity),
        is_associative_in(interpretation, term.operator),
        is_commutative_in(interpretation, term.operator),
        head_operators(
            operands_under(term, (model.associative)(term.operator)),
            term.operator,
            model,
            on_the_left,
            operands_under(term, (model.associative)(term.operator)).len() as int,
        ).len() <= 1,
        forall|head_op: LOS| #[trigger]
            model.is_head_operator(on_the_left, head_op, term.operator) ==> is_head_operator_in(
                interpretation,
                head_op,
                term.operator,
                model,
                on_the_left,
                arity,
            ),
        factorized_modulo_ac(term, model, on_the_left).is_some(),
    ensures
        value_of(factorized_modulo_ac(term, model, on_the_left).unwrap(), interpretation) == value_of(
            term,
            interpretation,
        ),
{
    let op2 = term.operator;
    let operands = operands_under(term, (model.associative)(op2));
    let count = operands.len() as int;
    let heads = head_operators(operands, op2, model, on_the_left, count);
    let factorized = factorized_terms(operands, op2, heads, model, on_the_left, heads.len() as int);
    lemma_value_of_the_operands(term, (model.associative)(op2), arity, interpretation);
    assert(heads.len() == 1) by {
        if heads.len() == 0 {
            assert(factorized =~= Seq::<TermModel<LOS>>::empty());
        }
    }
    let head_op = heads[0];
    lemma_head_operators_are_head_operators(operands, op2, model, on_the_left, count);
    assert(model.is_head_operator(on_the_left, head_op, op2));
    lemma_operands_are_products(operands, head_op, op2, model, on_the_left, arity, interpretation);
    lemma_value_of_the_factorized_operands(operands, op2, heads, model, on_the_left, interpretation);
}

} // verus!
