use crate::builtin_trs::rules::modulo_ac_reorderer::{lemma_reordering_keeps_the_length, reordering};
use crate::builtin_trs::rules::reorder_commute::out_of_order;
use crate::builtin_trs::util::{is_greater, is_total_precedence, lemma_term_ordering_is_total, respects_arity};
use crate::rewriting_core::terms::term::TermModel;
use std::cmp::Ordering;
use vstd::prelude::*;
use vstd::seq_lib::{to_multiset_contains, to_multiset_insert, to_multiset_remove};

verus! {

/// The operands `pool` form a chain that is commutative and totally ordered:
/// they respect the arities, any two of them may be exchanged under `op`,
/// the operators are totally ordered, and among the operands, one that
/// dominates a second one that dominates a third one dominates the third.
pub open spec fn is_commutative_ordered_chain<LOS>(
    op: LOS,
    pool: Seq<TermModel<LOS>>,
    commutable: spec_fn(LOS, TermModel<LOS>, TermModel<LOS>) -> bool,
    comparison: spec_fn(LOS, LOS) -> Ordering,
    arity: spec_fn(LOS) -> nat,
) -> bool {
    &&& is_total_precedence(comparison)
    &&& forall|a: TermModel<LOS>| #[trigger] pool.contains(a) ==> respects_arity(a, arity)
    &&& forall|a: TermModel<LOS>, b: TermModel<LOS>|
        pool.contains(a) && pool.contains(b) ==> #[trigger] commutable(op, a, b)
    &&& forall|a: TermModel<LOS>, b: TermModel<LOS>, c: TermModel<LOS>|
        pool.contains(a) && pool.contains(b) && pool.contains(c) && #[trigger] is_greater(a, b, comparison)
            && #[trigger] is_greater(b, c, comparison) ==> is_greater(a, c, comparison)
}

/// No operand of `operands` dominates the one that follows it.
pub open spec fn is_in_order<LOS>(operands: Seq<TermModel<LOS>>, comparison: spec_fn(LOS, LOS) -> Ordering) -> bool {
    forall|i: int| 0 <= i < operands.len() - 1 ==> !is_greater(#[trigger] operands[i], operands[i + 1], comparison)
}

/// Operands that are in order are left as they are.
proof fn lemma_ordered_operands_are_kept<LOS>(
    op: LOS,
    operands: Seq<TermModel<LOS>>,
    commutable: spec_fn(LOS, TermModel<LOS>, TermModel<LOS>) -> bool,
    comparison: spec_fn(LOS, LOS) -> Ordering,
)
    requires
        is_in_order(operands, comparison),
    ensures
        reordering(op, operands, commutable, comparison) == (operands, false),
    decreases operands.len(),
{
    if operands.len() > 1 {
        let tail = operands.drop_first();
        assert forall|i: int| 0 <= i < tail.len() - 1 implies !is_greater(#[trigger] tail[i], tail[i + 1], comparison) by {
            assert(tail[i] == operands[i + 1]);
            assert(tail[i + 1] == operands[i + 2]);
        }
        lemma_ordered_operands_are_kept(op, tail, commutable, comparison);
        assert(tail[0] == operands[1]);
        assert(!is_greater(operands[0], operands[1], comparison));
        assert(seq![operands[0]] + tail =~= operands);
    }
}

/// Putting one more operand in front of operands that are in order gives
/// operands that are in order, the same ones, of which the first is the new
/// one or the one that was first.
proof fn lemma_one_more_operand<LOS>(
    op: LOS,
    pool: Seq<TermModel<LOS>>,
    head: TermModel<LOS>,
    rest: Seq<TermModel<LOS>>,
    commutable: spec_fn(LOS, TermModel<LOS>, TermModel<LOS>) -> bool,
    comparison: spec_fn(LOS, LOS) -> Ordering,
    arity: spec_fn(LOS) -> nat,
)
    requires
        is_commutative_ordered_chain(op, pool, commutable, comparison, arity),
        pool.contains(head),
        forall|i: int| 0 <= i < rest.len() ==> pool.contains(#[trigger] rest[i]),
        is_in_order(rest, comparison),
    ensures
        ({
            let sorted = reordering(op, seq![head] + rest, commutable, comparison).0;
            &&& sorted.len() == rest.len() + 1
            &&& is_in_order(sorted, comparison)
            &&& sorted.to_multiset() == rest.to_multiset().insert(head)
            &&& sorted[0] == head || (rest.len() > 0 && sorted[0] == rest[0])
            &&& forall|i: int| 0 <= i < sorted.len() ==> pool.contains(#[trigger] sorted[i])
        }),
    decreases rest.len(),
{
    let operands = seq![head] + rest;
    let sorted = reordering(op, operands, commutable, comparison).0;
    assert(operands.drop_first() =~= rest);
    assert(operands =~= rest.insert(0, head));
    to_multiset_insert(rest, 0, head);
    lemma_ordered_operands_are_kept(op, rest, commutable, comparison);
    if rest.len() == 0 {
        assert(sorted == operands);
    } else if out_of_order(op, head, rest[0], commutable, comparison) {
        let next = rest[0];
        let others = rest.drop_first();
        assert forall|i: int| 0 <= i < others.len() implies pool.contains(#[trigger] others[i]) by {
            assert(others[i] == rest[i + 1]);
        }
        assert forall|i: int| 0 <= i < others.len() - 1 implies !is_greater(
            #[trigger] others[i],
            others[i + 1],
            comparison,
        ) by {
            assert(others[i] == rest[i + 1]);
            assert(others[i + 1] == rest[i + 2]);
        }
        lemma_one_more_operand(op, pool, head, others, commutable, comparison, arity);
        let sunk = reordering(op, seq![head] + others, commutable, comparison).0;
        assert(sorted == seq![next] + sunk);
        assert(sorted =~= sunk.insert(0, next));
        to_multiset_insert(sunk, 0, next);
        assert(others =~= rest.remove(0));
        to_multiset_remove(rest, 0);
        assert(sorted.to_multiset() =~= rest.to_multiset().insert(head)) by {
            broadcast use vstd::multiset::group_multiset_axioms;

            to_multiset_contains(rest, next);
            assert(rest.contains(next));
        }
        lemma_term_ordering_is_total(head, next, comparison, arity);
        assert(!is_greater(next, sunk[0], comparison)) by {
            if sunk[0] != head {
                assert(sunk[0] == others[0]);
                assert(others[0] == rest[1]);
            }
        }
        assert forall|i: int| 0 <= i < sorted.len() - 1 implies !is_greater(
            #[trigger] sorted[i],
            sorted[i + 1],
            comparison,
        ) by {
            if i > 0 {
                assert(sorted[i] == sunk[i - 1]);
                assert(sorted[i + 1] == sunk[i]);
            }
        }
        assert forall|i: int| 0 <= i < sorted.len() implies pool.contains(#[trigger] sorted[i]) by {
            if i > 0 {
                assert(sorted[i] == sunk[i - 1]);
            }
        }
    } else {
        assert(sorted == operands);
        assert(commutable(op, head, rest[0]));
        assert forall|i: int| 0 <= i < sorted.len() - 1 implies !is_greater(
            #[trigger] sorted[i],
            sorted[i + 1],
            comparison,
        ) by {
            if i > 0 {
                assert(sorted[i] == rest[i - 1]);
                assert(sorted[i + 1] == rest[i]);
            }
        }
        assert forall|i: int| 0 <= i < sorted.len() implies pool.contains(#[trigger] sorted[i]) by {
            if i > 0 {
                assert(sorted[i] == rest[i - 1]);
            }
        }
    }
}

/// Reordering puts the operands of a commutative, totally ordered chain in
/// order, and neither adds nor drops an operand.
pub proof fn lemma_reordering_sorts<LOS>(
    op: LOS,
    pool: Seq<TermModel<LOS>>,
    operands: Seq<TermModel<LOS>>,
    commutable: spec_fn(LOS, TermModel<LOS>, TermModel<LOS>) -> bool,
    comparison: spec_fn(LOS, LOS) -> Ordering,
    arity: spec_fn(LOS) -> nat,
)
    requires
        is_commutative_ordered_chain(op, pool, commutable, comparison, arity),
        forall|i: int| 0 <= i < operands.len() ==> pool.contains(#[trigger] operands[i]),
    ensures
        is_in_order(reordering(op, operands, commutable, comparison).0, comparison),
        reordering(op, operands, commutable, comparison).0.to_multiset() == operands.to_multiset(),
        forall|i: int|
            0 <= i < reordering(op, operands, commutable, comparison).0.len() ==> pool.contains(
                #[trigger] reordering(op, operands, commutable, comparison).0[i],
            ),
    decreases operands.len(),
{
    if operands.len() > 1 {
        let head = operands[0];
        let tail = operands.drop_first();
        assert forall|i: int| 0 <= i < tail.len() implies pool.contains(#[trigger] tail[i]) by {
            assert(tail[i] == operands[i + 1]);
        }
        lemma_reordering_sorts(op, pool, tail, commutable, comparison, arity);
        lemma_reordering_keeps_the_length(op, tail, commutable, comparison);
        let sorted_tail = reordering(op, tail, commutable, comparison).0;
        lemma_one_more_operand(op, pool, head, sorted_tail, commutable, comparison, arity);
        lemma_ordered_operands_are_kept(op, sorted_tail, commutable, comparison);
        let again = seq![head] + sorted_tail;
        assert(again.drop_first() =~= sorted_tail);
        assert(reordering(op, operands, commutable, comparison).0 == reordering(op, again, commutable, comparison).0);
        assert(tail =~= operands.remove(0));
        to_multiset_remove(operands, 0);
        to_multiset_contains(operands, head);
        assert(operands.contains(head));
        assert(reordering(op, operands, commutable, comparison).0.to_multiset() =~= operands.to_multiset());
    }
}

/// In operands that are in order, no operand dominates a later one.
proof fn lemma_in_order_throughout<LOS>(
    op: LOS,
    pool: Seq<TermModel<LOS>>,
    operands: Seq<TermModel<LOS>>,
    commutable: spec_fn(LOS, TermModel<LOS>, TermModel<LOS>) -> bool,
    comparison: spec_fn(LOS, LOS) -> Ordering,
    arity: spec_fn(LOS) -> nat,
    later: int,
)
    requires
        is_commutative_ordered_chain(op, pool, commutable, comparison, arity),
        forall|i: int| 0 <= i < operands.len() ==> pool.contains(#[trigger] operands[i]),
        is_in_order(operands, comparison),
        0 <= later < operands.len(),
    ensures
        !is_greater(operands[0], operands[later], comparison),
    decreases later,
{
    lemma_term_ordering_is_total(operands[0], operands[later], comparison, arity);
    if later > 0 {
        lemma_in_order_throughout(op, pool, operands, commutable, comparison, arity, later - 1);
        let first = operands[0];
        let before = operands[later - 1];
        let last = operands[later];
        assert(!is_greater(before, last, comparison));
        lemma_term_ordering_is_total(first, before, comparison, arity);
        lemma_term_ordering_is_total(before, last, comparison, arity);
        if is_greater(first, last, comparison) {
            // then `last` is dominated by `first`, which `before` dominates or equals
            if first != before {
                assert(is_greater(before, first, comparison));
                assert(is_greater(before, last, comparison));
            }
        }
    }
}

/// Operands in order are the only ones in order among their rearrangements.
proof fn lemma_one_order_only<LOS>(
    op: LOS,
    pool: Seq<TermModel<LOS>>,
    one: Seq<TermModel<LOS>>,
    other: Seq<TermModel<LOS>>,
    commutable: spec_fn(LOS, TermModel<LOS>, TermModel<LOS>) -> bool,
    comparison: spec_fn(LOS, LOS) -> Ordering,
    arity: spec_fn(LOS) -> nat,
)
    requires
        is_commutative_ordered_chain(op, pool, commutable, comparison, arity),
        forall|i: int| 0 <= i < one.len() ==> pool.contains(#[trigger] one[i]),
        forall|i: int| 0 <= i < other.len() ==> pool.contains(#[trigger] other[i]),
        is_in_order(one, comparison),
        is_in_order(other, comparison),
        one.to_multiset() == other.to_multiset(),
    ensures
        one == other,
    decreases one.len(),
{
    one.to_multiset_ensures();
    other.to_multiset_ensures();
    assert(one.len() == other.len());
    if one.len() == 0 {
        assert(one =~= other);
    } else {
        let first = one[0];
        let other_first = other[0];
        to_multiset_contains(other, first);
        to_multiset_contains(one, first);
        to_multiset_contains(one, other_first);
        to_multiset_contains(other, other_first);
        assert(one.contains(first));
        assert(other.contains(other_first));
        let k = choose|k: int| 0 <= k < other.len() && other[k] == first;
        let m = choose|m: int| 0 <= m < one.len() && one[m] == other_first;
        lemma_in_order_throughout(op, pool, other, commutable, comparison, arity, k);
        lemma_in_order_throughout(op, pool, one, commutable, comparison, arity, m);
        lemma_term_ordering_is_total(first, other_first, comparison, arity);
        assert(first == other_first);
        let rest = one.drop_first();
        let other_rest = other.drop_first();
        assert(rest =~= one.remove(0));
        assert(other_rest =~= other.remove(0));
        to_multiset_remove(one, 0);
        to_multiset_remove(other, 0);
        assert forall|i: int| 0 <= i < rest.len() implies pool.contains(#[trigger] rest[i]) by {
            assert(rest[i] == one[i + 1]);
        }
        assert forall|i: int| 0 <= i < other_rest.len() implies pool.contains(#[trigger] other_rest[i]) by {
            assert(other_rest[i] == other[i + 1]);
        }
        assert forall|i: int| 0 <= i < rest.len() - 1 implies !is_greater(#[trigger] rest[i], rest[i + 1], comparison) by {
            assert(rest[i] == one[i + 1]);
            assert(rest[i + 1] == one[i + 2]);
        }
        assert forall|i: int| 0 <= i < other_rest.len() - 1 implies !is_greater(
            #[trigger] other_rest[i],
            other_rest[i + 1],
            comparison,
        ) by {
            assert(other_rest[i] == other[i + 1]);
            assert(other_rest[i + 1] == other[i + 2]);
        }
        lemma_one_order_only(op, pool, rest, other_rest, commutable, comparison, arity);
        assert(one =~= seq![first] + rest);
        assert(other =~= seq![other_first] + other_rest);
    }
}

/// Reordering is order stable: whatever the order in which the operands of a
/// commutative, totally ordered chain are given, reordering puts them in one
/// and the same order.
pub proof fn lemma_reordering_is_order_stable<LOS>(
    op: LOS,
    operands: Seq<TermModel<LOS>>,
    rearranged: Seq<TermModel<LOS>>,
    commutable: spec_fn(LOS, TermModel<LOS>, TermModel<LOS>) -> bool,
    comparison: spec_fn(LOS, LOS) -> Ordering,
    arity: spec_fn(LOS) -> nat,
)
    requires
        is_commutative_ordered_chain(op, operands, commutable, comparison, arity),
        operands.to_multiset() == rearranged.to_multiset(),
    ensures
        reordering(op, operands, commutable, comparison).0 == reordering(op, rearranged, commutable, comparison).0,
{
    assert forall|i: int| 0 <= i < rearranged.len() implies operands.contains(#[trigger] rearranged[i]) by {
        to_multiset_contains(rearranged, rearranged[i]);
        to_multiset_contains(operands, rearranged[i]);
        assert(rearranged.contains(rearranged[i]));
    }
    lemma_reordering_sorts(op, operands, operands, commutable, comparison, arity);
    lemma_reordering_sorts(op, operands, rearranged, commutable, comparison, arity);
    lemma_one_order_only(
        op,
        operands,
        reordering(op, operands, commutable, comparison).0,
        reordering(op, rearranged, commutable, comparison).0,
        commutable,
        comparison,
        arity,
    );
}

} // verus!
