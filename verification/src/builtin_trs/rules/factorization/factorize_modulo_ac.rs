use crate::builtin_trs::rules::factorization::distributivity_checker::DistributivityChecker;
use crate::builtin_trs::util::{
    clone_borrowed,
    flattened,
    fold_associative_sub_terms_recursively,
    folded,
    get_associative_sub_terms_recursively,
    models_of_borrowed,
};
use crate::rewriting_core::rule::outcome_model;
use crate::rewriting_core::terms::position::PositionInLanguageTerm;
use crate::rewriting_core::terms::term::{
    LanguageTerm,
    RewritableLanguageOperatorSymbol,
    TermModel,
    clone_symbol,
    is_same_symbol,
    models_of,
    node,
};
use vstd::prelude::*;

verus! {

/// What a [`DistributivityChecker`] knows of the operators, as plain functions.
#[verifier::reject_recursive_types(LOS)]
pub struct DistributivityModel<LOS> {
    pub binary: spec_fn(LOS) -> bool,
    pub associative: spec_fn(LOS) -> bool,
    pub commutative: spec_fn(LOS) -> bool,
    pub left_distributive_over: spec_fn(LOS, LOS) -> bool,
    pub right_distributive_over: spec_fn(LOS, LOS) -> bool,
    pub empty_operation_symbol: LOS,
}

/// What `checker` knows of the operators.
pub open spec fn distributivity_of<LOS: RewritableLanguageOperatorSymbol>(
    checker: &Box<dyn DistributivityChecker<LOS>>,
) -> DistributivityModel<LOS> {
    DistributivityModel {
        binary: |op: LOS| checker.binary(op),
        associative: |op: LOS| checker.associative(op),
        commutative: |op: LOS| checker.commutative(op),
        left_distributive_over: |op1: LOS, op2: LOS| checker.left_distributive_over(op1, op2),
        right_distributive_over: |op1: LOS, op2: LOS| checker.right_distributive_over(op1, op2),
        empty_operation_symbol: checker.empty_operation_symbol(),
    }
}

impl<LOS> DistributivityModel<LOS> {
    /// `op1` is distributive over `op2` on the side in question.
    pub open spec fn distributive_over(self, on_the_left: bool, op1: LOS, op2: LOS) -> bool {
        if on_the_left {
            (self.left_distributive_over)(op1, op2)
        } else {
            (self.right_distributive_over)(op1, op2)
        }
    }

    /// `op` is a binary operator that is distributive over `op2`: one that
    /// operands under `op2` may be factorized by.
    pub open spec fn is_head_operator(self, on_the_left: bool, op: LOS, op2: LOS) -> bool {
        (self.binary)(op) && self.distributive_over(on_the_left, op, op2)
    }
}

/// The operands under the root of `term`: those of the whole chain where the
/// operator is associative, the direct sub-terms where it is not.
pub open spec fn operands_under<LOS>(term: TermModel<LOS>, associative: bool) -> Seq<TermModel<LOS>> {
    if associative {
        flattened(term, term.operator)
    } else {
        term.sub_terms
    }
}

/// Whether `operand` is a product by `head_op` that has a factor to give.
pub open spec fn is_product<LOS>(operand: TermModel<LOS>, head_op: LOS, associative: bool) -> bool {
    operand.operator == head_op && operands_under(operand, associative).len() > 0
}

/// The factor that `operand` offers under `head_op`: its first operand (on
/// the left) or its last one (on the right) where it is a product by
/// `head_op`, the whole of it where it is not.
pub open spec fn factor_of<LOS>(operand: TermModel<LOS>, head_op: LOS, associative: bool, on_the_left: bool) -> TermModel<
    LOS,
> {
    if is_product(operand, head_op, associative) {
        if on_the_left {
            operands_under(operand, associative).first()
        } else {
            operands_under(operand, associative).last()
        }
    } else {
        operand
    }
}

/// What is left of `operand` once its factor is taken out: the other
/// operands of the product, or nothing.
pub open spec fn rest_of<LOS>(operand: TermModel<LOS>, head_op: LOS, associative: bool, on_the_left: bool) -> Seq<
    TermModel<LOS>,
> {
    if is_product(operand, head_op, associative) {
        if on_the_left {
            operands_under(operand, associative).drop_first()
        } else {
            operands_under(operand, associative).drop_last()
        }
    } else {
        Seq::empty()
    }
}

/// The distinct operators among those of the first `upto` of `operands` that
/// operands under `op2` may be factorized by, each where it first occurs.
pub open spec fn head_operators<LOS>(
    operands: Seq<TermModel<LOS>>,
    op2: LOS,
    model: DistributivityModel<LOS>,
    on_the_left: bool,
    upto: int,
) -> Seq<LOS>
    decreases upto,
{
    if upto <= 0 {
        Seq::empty()
    } else {
        let earlier = head_operators(operands, op2, model, on_the_left, upto - 1);
        let op = operands[upto - 1].operator;
        if model.is_head_operator(on_the_left, op, op2) && !earlier.contains(op) {
            earlier.push(op)
        } else {
            earlier
        }
    }
}

/// What is left of those of the first `upto` of `operands` that offer
/// `factor` under `head_op`, each folded into one term.
pub open spec fn remainders<LOS>(
    operands: Seq<TermModel<LOS>>,
    head_op: LOS,
    model: DistributivityModel<LOS>,
    on_the_left: bool,
    factor: TermModel<LOS>,
    upto: int,
) -> Seq<TermModel<LOS>>
    decreases upto,
{
    if upto <= 0 {
        Seq::empty()
    } else {
        let earlier = remainders(operands, head_op, model, on_the_left, factor, upto - 1);
        let associative = (model.associative)(head_op);
        if factor_of(operands[upto - 1], head_op, associative, on_the_left) == factor {
            earlier.push(
                folded(
                    head_op,
                    rest_of(operands[upto - 1], head_op, associative, on_the_left),
                    Some(model.empty_operation_symbol),
                ),
            )
        } else {
            earlier
        }
    }
}

/// The operand of index `index` is the first to offer its factor under `head_op`.
pub open spec fn is_first_to_offer<LOS>(
    operands: Seq<TermModel<LOS>>,
    head_op: LOS,
    model: DistributivityModel<LOS>,
    on_the_left: bool,
    index: int,
) -> bool {
    forall|j: int|
        0 <= j < index ==> factor_of(#[trigger] operands[j], head_op, (model.associative)(head_op), on_the_left) != factor_of(
            operands[index],
            head_op,
            (model.associative)(head_op),
            on_the_left,
        )
}

/// The term in which `factor` is factored out of the operands that offer it
/// under `head_op`: `head_op(factor, op2(..))` on the left,
/// `head_op(op2(..), factor)` on the right.
pub open spec fn factorized_group<LOS>(
    operands: Seq<TermModel<LOS>>,
    op2: LOS,
    head_op: LOS,
    model: DistributivityModel<LOS>,
    on_the_left: bool,
    factor: TermModel<LOS>,
) -> TermModel<LOS> {
    let others = folded(
        op2,
        remainders(operands, head_op, model, on_the_left, factor, operands.len() as int),
        Some(model.empty_operation_symbol),
    );
    if on_the_left {
        node(head_op, seq![factor, others])
    } else {
        node(head_op, seq![others, factor])
    }
}

/// At least two of `operands` offer `factor` under `head_op`.
pub open spec fn is_shared<LOS>(
    operands: Seq<TermModel<LOS>>,
    head_op: LOS,
    model: DistributivityModel<LOS>,
    on_the_left: bool,
    factor: TermModel<LOS>,
) -> bool {
    remainders(operands, head_op, model, on_the_left, factor, operands.len() as int).len() > 1
}

/// The factorized terms under `head_op`: one for each factor that at least
/// two of `operands` offer, in the order in which the first `upto` operands
/// first offer them.
pub open spec fn factorized_under<LOS>(
    operands: Seq<TermModel<LOS>>,
    op2: LOS,
    head_op: LOS,
    model: DistributivityModel<LOS>,
    on_the_left: bool,
    upto: int,
) -> Seq<TermModel<LOS>>
    decreases upto,
{
    if upto <= 0 {
        Seq::empty()
    } else {
        let earlier = factorized_under(operands, op2, head_op, model, on_the_left, upto - 1);
        let factor = factor_of(operands[upto - 1], head_op, (model.associative)(head_op), on_the_left);
        if is_first_to_offer(operands, head_op, model, on_the_left, upto - 1) && is_shared(
            operands,
            head_op,
            model,
            on_the_left,
            factor,
        ) {
            earlier.push(factorized_group(operands, op2, head_op, model, on_the_left, factor))
        } else {
            earlier
        }
    }
}

/// The factorized terms under the first `upto` of the operators `heads`.
pub open spec fn factorized_terms<LOS>(
    operands: Seq<TermModel<LOS>>,
    op2: LOS,
    heads: Seq<LOS>,
    model: DistributivityModel<LOS>,
    on_the_left: bool,
    upto: int,
) -> Seq<TermModel<LOS>>
    decreases upto,
{
    if upto <= 0 {
        Seq::empty()
    } else {
        factorized_terms(operands, op2, heads, model, on_the_left, upto - 1) + factorized_under(
            operands,
            op2,
            heads[upto - 1],
            model,
            on_the_left,
            operands.len() as int,
        )
    }
}

/// The operand of index `index` went into a factorized term under one of
/// the first `upto` of the operators `heads`.
pub open spec fn is_factorized<LOS>(
    operands: Seq<TermModel<LOS>>,
    heads: Seq<LOS>,
    model: DistributivityModel<LOS>,
    on_the_left: bool,
    index: int,
    upto: int,
) -> bool {
    exists|k: int|
        0 <= k < upto && is_shared(
            operands,
            #[trigger] heads[k],
            model,
            on_the_left,
            factor_of(operands[index], heads[k], (model.associative)(heads[k]), on_the_left),
        )
}

/// Those of the first `upto` of `operands` that went into no factorized term.
pub open spec fn kept_operands<LOS>(
    operands: Seq<TermModel<LOS>>,
    heads: Seq<LOS>,
    model: DistributivityModel<LOS>,
    on_the_left: bool,
    upto: int,
) -> Seq<TermModel<LOS>>
    decreases upto,
{
    if upto <= 0 {
        Seq::empty()
    } else {
        let earlier = kept_operands(operands, heads, model, on_the_left, upto - 1);
        if is_factorized(operands, heads, model, on_the_left, upto - 1, heads.len() as int) {
            earlier
        } else {
            earlier.push(operands[upto - 1])
        }
    }
}

/// `term` with the factors that several of its operands share factored out,
/// where the operator `op2` of `term` is binary and commutative:
/// - the operands of `term` are those of its whole chain where `op2` is
///   associative, its direct sub-terms where it is not;
/// - for each binary operator among those of the operands that is distributive
///   over `op2`, and for each factor that at least two operands offer under that
///   operator, the operands that offer it are replaced by one factorized term;
/// - the operands that are left come first, then the factorized terms, folded
///   together under `op2`;
/// - `None` where no two operands share a factor.
pub open spec fn factorized_modulo_ac<LOS>(term: TermModel<LOS>, model: DistributivityModel<LOS>, on_the_left: bool) -> Option<
    TermModel<LOS>,
> {
    let op2 = term.operator;
    if !((model.binary)(op2) && (model.commutative)(op2)) {
        None
    } else {
        let operands = operands_under(term, (model.associative)(op2));
        let heads = head_operators(operands, op2, model, on_the_left, operands.len() as int);
        let factorized = factorized_terms(operands, op2, heads, model, on_the_left, heads.len() as int);
        if factorized.len() == 0 {
            None
        } else {
            Some(
                folded(
                    op2,
                    kept_operands(operands, heads, model, on_the_left, operands.len() as int) + factorized,
                    Some(model.empty_operation_symbol),
                ),
            )
        }
    }
}

/// The operands under the root of `term`.
fn get_operands_under<'a, LOS: RewritableLanguageOperatorSymbol>(
    checker: &Box<dyn DistributivityChecker<LOS>>,
    term: &'a LanguageTerm<LOS>,
) -> (operands: Vec<&'a LanguageTerm<LOS>>)
    ensures
        models_of_borrowed(operands@) == operands_under(term@, checker.associative(term@.operator)),
{
    if checker.is_associative(&term.operator) {
        get_associative_sub_terms_recursively(term, &term.operator)
    } else {
        let mut operands: Vec<&'a LanguageTerm<LOS>> = Vec::new();
        let mut i: usize = 0;
        while i < term.sub_terms.len()
            invariant
                i <= term.sub_terms@.len(),
                operands@.len() == i,
                forall|k: int| 0 <= k < i ==> (#[trigger] operands@[k])@ == term@.sub_terms[k],
            decreases term.sub_terms@.len() - i,
        {
            operands.push(&term.sub_terms[i]);
            assert(term@.sub_terms[i as int] == term.sub_terms@[i as int]@);
            i += 1;
        }
        assert(models_of_borrowed(operands@) =~= term@.sub_terms);
        operands
    }
}

/// Whether `op` is among `operators`.
fn contains_operator<LOS: RewritableLanguageOperatorSymbol>(operators: &Vec<LOS>, op: &LOS) -> (found: bool)
    ensures
        found == operators@.contains(*op),
{
    let mut i: usize = 0;
    while i < operators.len()
        invariant
            i <= operators@.len(),
            forall|k: int| 0 <= k < i ==> operators@[k] != *op,
        decreases operators@.len() - i,
    {
        if is_same_symbol(&operators[i], op) {
            return true;
        }
        i += 1;
    }
    false
}

/// The operators that the operands may be factorized by.
fn get_head_operators<LOS: RewritableLanguageOperatorSymbol>(
    checker: &Box<dyn DistributivityChecker<LOS>>,
    operands: &Vec<&LanguageTerm<LOS>>,
    op2: &LOS,
    on_the_left: bool,
) -> (heads: Vec<LOS>)
    ensures
        heads@ == head_operators(
            models_of_borrowed(operands@),
            *op2,
            distributivity_of(checker),
            on_the_left,
            operands@.len() as int,
        ),
{
    let ghost model = distributivity_of(checker);
    let mut heads: Vec<LOS> = Vec::new();
    let mut i: usize = 0;
    while i < operands.len()
        invariant
            i <= operands@.len(),
            model == distributivity_of(checker),
            heads@ == head_operators(models_of_borrowed(operands@), *op2, model, on_the_left, i as int),
        decreases operands@.len() - i,
    {
        let op = &operands[i].operator;
        assert(models_of_borrowed(operands@)[i as int].operator == *op);
        let distributive = if on_the_left {
            checker.is_left_distributive_over(op, op2)
        } else {
            checker.is_right_distributive_over(op, op2)
        };
        if checker.is_binary(op) && distributive && !contains_operator(&heads, op) {
            heads.push(operands[i].clone_operator());
        }
        i += 1;
    }
    heads
}

/// The factor that each operand offers under `head_op`, and what is left of
/// each operand once its factor is taken out.
fn split_operands<'a, LOS: RewritableLanguageOperatorSymbol>(
    checker: &Box<dyn DistributivityChecker<LOS>>,
    operands: &Vec<&'a LanguageTerm<LOS>>,
    head_op: &LOS,
    on_the_left: bool,
) -> (split: (Vec<&'a LanguageTerm<LOS>>, Vec<Vec<&'a LanguageTerm<LOS>>>))
    ensures
        split.0@.len() == operands@.len(),
        split.1@.len() == operands@.len(),
        forall|i: int|
            0 <= i < operands@.len() ==> (#[trigger] split.0@[i])@ == factor_of(
                operands@[i]@,
                *head_op,
                checker.associative(*head_op),
                on_the_left,
            ),
        forall|i: int|
            0 <= i < operands@.len() ==> models_of_borrowed((#[trigger] split.1@[i])@) == rest_of(
                operands@[i]@,
                *head_op,
                checker.associative(*head_op),
                on_the_left,
            ),
{
    let associative = checker.is_associative(head_op);
    let mut factors: Vec<&'a LanguageTerm<LOS>> = Vec::new();
    let mut rests: Vec<Vec<&'a LanguageTerm<LOS>>> = Vec::new();
    let mut i: usize = 0;
    while i < operands.len()
        invariant
            i <= operands@.len(),
            associative == checker.associative(*head_op),
            factors@.len() == i,
            rests@.len() == i,
            forall|k: int|
                0 <= k < i ==> (#[trigger] factors@[k])@ == factor_of(operands@[k]@, *head_op, associative, on_the_left),
            forall|k: int|
                0 <= k < i ==> models_of_borrowed((#[trigger] rests@[k])@) == rest_of(
                    operands@[k]@,
                    *head_op,
                    associative,
                    on_the_left,
                ),
        decreases operands@.len() - i,
    {
        let operand: &'a LanguageTerm<LOS> = operands[i];
        let mut parts: Vec<&'a LanguageTerm<LOS>> = Vec::new();
        if operand.has_operator(head_op) {
            if associative {
                parts = get_associative_sub_terms_recursively(operand, head_op);
            } else {
                let mut k: usize = 0;
                while k < operand.sub_terms.len()
                    invariant
                        k <= operand.sub_terms@.len(),
                        parts@.len() == k,
                        forall|m: int| 0 <= m < k ==> (#[trigger] parts@[m])@ == operand@.sub_terms[m],
                    decreases operand.sub_terms@.len() - k,
                {
                    parts.push(&operand.sub_terms[k]);
                    assert(operand@.sub_terms[k as int] == operand.sub_terms@[k as int]@);
                    k += 1;
                }
                assert(models_of_borrowed(parts@) =~= operand@.sub_terms);
            }
            assert(models_of_borrowed(parts@) == operands_under(operand@, associative));
        }
        if parts.len() > 0 {
            let ghost all = models_of_borrowed(parts@);
            if on_the_left {
                let factor = parts.remove(0);
                assert(models_of_borrowed(parts@) =~= all.drop_first());
                assert(factor@ == all.first());
                factors.push(factor);
            } else {
                let factor = parts.pop().unwrap();
                assert(models_of_borrowed(parts@) =~= all.drop_last());
                assert(factor@ == all.last());
                factors.push(factor);
            }
            rests.push(parts);
        } else {
            assert(models_of_borrowed(parts@) =~= Seq::empty());
            factors.push(operand);
            rests.push(parts);
        }
        i += 1;
    }
    (factors, rests)
}

/// What is left of the operands that offer `factor`, each folded into one term.
fn get_remainders<LOS: RewritableLanguageOperatorSymbol>(
    checker: &Box<dyn DistributivityChecker<LOS>>,
    Ghost(operands): Ghost<Seq<TermModel<LOS>>>,
    head_op: &LOS,
    on_the_left: bool,
    factors: &Vec<&LanguageTerm<LOS>>,
    rests: &Vec<Vec<&LanguageTerm<LOS>>>,
    factor: &LanguageTerm<LOS>,
) -> (folded_rests: Vec<LanguageTerm<LOS>>)
    requires
        is_split(operands, *head_op, checker.associative(*head_op), on_the_left, factors@, rests@),
    ensures
        models_of(folded_rests@) == remainders(
            operands,
            *head_op,
            distributivity_of(checker),
            on_the_left,
            factor@,
            operands.len() as int,
        ),
{
    let ghost model = distributivity_of(checker);
    let mut folded_rests: Vec<LanguageTerm<LOS>> = Vec::new();
    let mut j: usize = 0;
    assert(models_of(folded_rests@) =~= Seq::empty());
    while j < factors.len()
        invariant
            j <= factors@.len(),
            model == distributivity_of(checker),
            is_split(operands, *head_op, checker.associative(*head_op), on_the_left, factors@, rests@),
            models_of(folded_rests@) == remainders(operands, *head_op, model, on_the_left, factor@, j as int),
        decreases factors@.len() - j,
    {
        let ghost _rest = rests@[j as int];
        if factors[j] == factor {
            let mut rest = clone_borrowed(&rests[j]);
            let ghost before = models_of(folded_rests@);
            let folded_rest = fold_associative_sub_terms_recursively(
                head_op,
                &mut rest,
                &Some(checker.get_empty_operation_symbol()),
            );
            folded_rests.push(folded_rest);
            assert(models_of(folded_rests@) =~= before.push(folded_rest@));
        }
        j += 1;
    }
    folded_rests
}

/// `factors` and `rests` are the factors that `operands` offer under
/// `head_op`, and what is left of them.
pub open spec fn is_split<LOS: RewritableLanguageOperatorSymbol>(
    operands: Seq<TermModel<LOS>>,
    head_op: LOS,
    associative: bool,
    on_the_left: bool,
    factors: Seq<&LanguageTerm<LOS>>,
    rests: Seq<Vec<&LanguageTerm<LOS>>>,
) -> bool {
    &&& factors.len() == operands.len()
    &&& rests.len() == operands.len()
    &&& forall|i: int|
        0 <= i < operands.len() ==> (#[trigger] factors[i])@ == factor_of(operands[i], head_op, associative, on_the_left)
    &&& forall|i: int|
        0 <= i < operands.len() ==> models_of_borrowed((#[trigger] rests[i])@) == rest_of(
            operands[i],
            head_op,
            associative,
            on_the_left,
        )
}

/// Whether at least two operands offer `factor`.
fn check_is_shared<LOS: RewritableLanguageOperatorSymbol>(
    checker: &Box<dyn DistributivityChecker<LOS>>,
    Ghost(operands): Ghost<Seq<TermModel<LOS>>>,
    head_op: &LOS,
    on_the_left: bool,
    factors: &Vec<&LanguageTerm<LOS>>,
    Ghost(rests): Ghost<Seq<Vec<&LanguageTerm<LOS>>>>,
    factor: &LanguageTerm<LOS>,
) -> (shared: bool)
    requires
        is_split(operands, *head_op, checker.associative(*head_op), on_the_left, factors@, rests),
    ensures
        shared == is_shared(operands, *head_op, distributivity_of(checker), on_the_left, factor@),
{
    let ghost model = distributivity_of(checker);
    let mut count: usize = 0;
    let mut j: usize = 0;
    while j < factors.len()
        invariant
            j <= factors@.len(),
            model == distributivity_of(checker),
            is_split(operands, *head_op, checker.associative(*head_op), on_the_left, factors@, rests),
            count == remainders(operands, *head_op, model, on_the_left, factor@, j as int).len(),
            count <= j,
        decreases factors@.len() - j,
    {
        if factors[j] == factor {
            count += 1;
        }
        j += 1;
    }
    count > 1
}

/// Whether the operand of index `index` is the first to offer its factor.
fn check_is_first_to_offer<LOS: RewritableLanguageOperatorSymbol>(
    checker: &Box<dyn DistributivityChecker<LOS>>,
    Ghost(operands): Ghost<Seq<TermModel<LOS>>>,
    head_op: &LOS,
    on_the_left: bool,
    factors: &Vec<&LanguageTerm<LOS>>,
    Ghost(rests): Ghost<Seq<Vec<&LanguageTerm<LOS>>>>,
    index: usize,
) -> (first: bool)
    requires
        is_split(operands, *head_op, checker.associative(*head_op), on_the_left, factors@, rests),
        index < operands.len(),
    ensures
        first == is_first_to_offer(operands, *head_op, distributivity_of(checker), on_the_left, index as int),
{
    let ghost model = distributivity_of(checker);
    let mut j: usize = 0;
    while j < index
        invariant
            j <= index < factors@.len(),
            model == distributivity_of(checker),
            is_split(operands, *head_op, checker.associative(*head_op), on_the_left, factors@, rests),
            forall|k: int|
                0 <= k < j ==> factor_of(#[trigger] operands[k], *head_op, (model.associative)(*head_op), on_the_left)
                    != factor_of(operands[index as int], *head_op, (model.associative)(*head_op), on_the_left),
        decreases index - j,
    {
        let ghost _one = factors@[j as int];
        let ghost _other = factors@[index as int];
        if factors[j] == factors[index] {
            assert(factor_of(operands[j as int], *head_op, (model.associative)(*head_op), on_the_left) == factor_of(
                operands[index as int],
                *head_op,
                (model.associative)(*head_op),
                on_the_left,
            ));
            return false;
        }
        j += 1;
    }
    true
}

/// Going into a factorized term under one of the first operators is going
/// into one under one of those before the last, or under the last.
proof fn lemma_is_factorized_step<LOS>(
    operands: Seq<TermModel<LOS>>,
    heads: Seq<LOS>,
    model: DistributivityModel<LOS>,
    on_the_left: bool,
    index: int,
    upto: int,
)
    requires
        0 <= upto < heads.len(),
    ensures
        is_factorized(operands, heads, model, on_the_left, index, upto + 1) == (is_factorized(
            operands,
            heads,
            model,
            on_the_left,
            index,
            upto,
        ) || is_shared(
            operands,
            heads[upto],
            model,
            on_the_left,
            factor_of(operands[index], heads[upto], (model.associative)(heads[upto]), on_the_left),
        )),
{
    if is_factorized(operands, heads, model, on_the_left, index, upto + 1) {
        let k = choose|k: int|
            0 <= k < upto + 1 && is_shared(
                operands,
                #[trigger] heads[k],
                model,
                on_the_left,
                factor_of(operands[index], heads[k], (model.associative)(heads[k]), on_the_left),
            );
        if k < upto {
            assert(is_factorized(operands, heads, model, on_the_left, index, upto));
        }
    }
    if is_factorized(operands, heads, model, on_the_left, index, upto) {
        let k = choose|k: int|
            0 <= k < upto && is_shared(
                operands,
                #[trigger] heads[k],
                model,
                on_the_left,
                factor_of(operands[index], heads[k], (model.associative)(heads[k]), on_the_left),
            );
        assert(0 <= k < upto + 1);
    }
    if is_shared(
        operands,
        heads[upto],
        model,
        on_the_left,
        factor_of(operands[index], heads[upto], (model.associative)(heads[upto]), on_the_left),
    ) {
        assert(0 <= upto < upto + 1);
    }
}

/// Factors out what several operands of `term` share, on the side in question.
#[verifier::loop_isolation(false)]
fn factorize_modulo_ac<LOS: RewritableLanguageOperatorSymbol>(
    checker: &Box<dyn DistributivityChecker<LOS>>,
    term: &LanguageTerm<LOS>,
    on_the_left: bool,
) -> (outcome: Option<LanguageTerm<LOS>>)
    ensures
        outcome_model(outcome) == factorized_modulo_ac(term@, distributivity_of(checker), on_the_left),
{
    let ghost model = distributivity_of(checker);
    let op2 = &term.operator;
    if !(checker.is_binary(op2) && checker.is_commutative(op2)) {
        return None;
    }
    let operands = get_operands_under(checker, term);
    let ghost operand_models = models_of_borrowed(operands@);
    let heads = get_head_operators(checker, &operands, op2, on_the_left);
    let count = operands.len();
    let mut factorized_flags: Vec<bool> = Vec::new();
    let mut j: usize = 0;
    while j < count
        invariant
            j <= count,
            factorized_flags@.len() == j,
            forall|m: int| 0 <= m < j ==> !(#[trigger] factorized_flags@[m]),
        decreases count - j,
    {
        factorized_flags.push(false);
        j += 1;
    }
    let mut new_factorized_sub_terms: Vec<LanguageTerm<LOS>> = Vec::new();
    let mut k: usize = 0;
    assert(models_of(new_factorized_sub_terms@) =~= Seq::empty());
    while k < heads.len()
        invariant
            k <= heads@.len(),
            factorized_flags@.len() == count,
            forall|m: int|
                0 <= m < count ==> #[trigger] factorized_flags@[m] == is_factorized(
                    operand_models,
                    heads@,
                    model,
                    on_the_left,
                    m,
                    k as int,
                ),
            models_of(new_factorized_sub_terms@) == factorized_terms(
                operand_models,
                *op2,
                heads@,
                model,
                on_the_left,
                k as int,
            ),
        decreases heads@.len() - k,
    {
        let head_op = &heads[k];
        let (factors, rests) = split_operands(checker, &operands, head_op, on_the_left);
        assert(is_split(operand_models, *head_op, checker.associative(*head_op), on_the_left, factors@, rests@)) by {
            assert forall|i: int| 0 <= i < operand_models.len() implies (#[trigger] factors@[i])@ == factor_of(
                operand_models[i],
                *head_op,
                checker.associative(*head_op),
                on_the_left,
            ) by {
                assert(operand_models[i] == operands@[i]@);
            }
            assert forall|i: int| 0 <= i < operand_models.len() implies models_of_borrowed((#[trigger] rests@[i])@)
                == rest_of(operand_models[i], *head_op, checker.associative(*head_op), on_the_left) by {
                assert(operand_models[i] == operands@[i]@);
            }
        }
        let ghost before = models_of(new_factorized_sub_terms@);
        let mut i: usize = 0;
        assert(models_of(new_factorized_sub_terms@) =~= before + Seq::empty());
        while i < count
            invariant
                i <= count,
                factorized_flags@.len() == count,
                forall|m: int|
                    0 <= m < i ==> #[trigger] factorized_flags@[m] == is_factorized(
                        operand_models,
                        heads@,
                        model,
                        on_the_left,
                        m,
                        k + 1,
                    ),
                forall|m: int|
                    i <= m < count ==> #[trigger] factorized_flags@[m] == is_factorized(
                        operand_models,
                        heads@,
                        model,
                        on_the_left,
                        m,
                        k as int,
                    ),
                models_of(new_factorized_sub_terms@) == before + factorized_under(
                    operand_models,
                    *op2,
                    *head_op,
                    model,
                    on_the_left,
                    i as int,
                ),
            decreases count - i,
        {
            let factor = factors[i];
            let ghost factor_model = factor_of(operand_models[i as int], *head_op, (model.associative)(*head_op), on_the_left);
            assert(factor@ == factor_model) by {
                let _ = factors@[i as int];
            }
            let shared = check_is_shared(
                checker,
                Ghost(operand_models),
                head_op,
                on_the_left,
                &factors,
                Ghost(rests@),
                factor,
            );
            proof {
                lemma_is_factorized_step(operand_models, heads@, model, on_the_left, i as int, k as int);
            }
            if shared {
                factorized_flags.set(i, true);
                let first = check_is_first_to_offer(
                    checker,
                    Ghost(operand_models),
                    head_op,
                    on_the_left,
                    &factors,
                    Ghost(rests@),
                    i,
                );
                if first {
                    let mut folded_rests = get_remainders(
                        checker,
                        Ghost(operand_models),
                        head_op,
                        on_the_left,
                        &factors,
                        &rests,
                        factor,
                    );
                    let others = fold_associative_sub_terms_recursively(
                        op2,
                        &mut folded_rests,
                        &Some(checker.get_empty_operation_symbol()),
                    );
                    let factorized = if on_the_left {
                        LanguageTerm::new_binary(clone_symbol(head_op), factor.clone(), others)
                    } else {
                        LanguageTerm::new_binary(clone_symbol(head_op), others, factor.clone())
                    };
                    let ghost so_far = models_of(new_factorized_sub_terms@);
                    new_factorized_sub_terms.push(factorized);
                    assert(models_of(new_factorized_sub_terms@) =~= so_far.push(factorized@));
                    assert(factorized@ == factorized_group(
                        operand_models,
                        *op2,
                        *head_op,
                        model,
                        on_the_left,
                        factor_model,
                    ));
                    assert(so_far.push(factorized@) =~= before + factorized_under(
                        operand_models,
                        *op2,
                        *head_op,
                        model,
                        on_the_left,
                        i + 1,
                    ));
                }
            }
            i += 1;
        }
        k += 1;
    }
    if new_factorized_sub_terms.len() == 0 {
        return None;
    }
    let mut new_sub_terms: Vec<LanguageTerm<LOS>> = Vec::new();
    let mut m: usize = 0;
    assert(models_of(new_sub_terms@) =~= Seq::empty());
    while m < count
        invariant
            m <= count,
            models_of(new_sub_terms@) == kept_operands(operand_models, heads@, model, on_the_left, m as int),
        decreases count - m,
    {
        if !factorized_flags[m] {
            let ghost so_far = models_of(new_sub_terms@);
            let kept = operands[m].clone();
            new_sub_terms.push(kept);
            assert(operand_models[m as int] == operands@[m as int]@);
            assert(models_of(new_sub_terms@) =~= so_far.push(kept@));
        }
        m += 1;
    }
    let ghost kept_models = models_of(new_sub_terms@);
    let ghost factorized_models = models_of(new_factorized_sub_terms@);
    new_sub_terms.append(&mut new_factorized_sub_terms);
    assert(models_of(new_sub_terms@) =~= kept_models + factorized_models);
    Some(
        fold_associative_sub_terms_recursively(op2, &mut new_sub_terms, &Some(checker.get_empty_operation_symbol())),
    )
}

/// Factorizes on the left modulo associativity and commutativity: under a
/// commutative operator `op2`, the operands `op1(x,y1)`, .., `op1(x,yn)` that
/// share the factor `x` under an operator `op1` that is left distributive
/// over `op2` become the one operand `op1(x,op2(y1,..,yn))`.
pub fn transformation_factorize_left_distributive_modulo_ac<LOS: RewritableLanguageOperatorSymbol>(
    checker: &Box<dyn DistributivityChecker<LOS>>,
    term: &LanguageTerm<LOS>,
    _context_term: &LanguageTerm<LOS>,
    _position_in_context_term: &PositionInLanguageTerm,
) -> (outcome: Option<LanguageTerm<LOS>>)
    ensures
        outcome_model(outcome) == factorized_modulo_ac(term@, distributivity_of(checker), true),
{
    factorize_modulo_ac(checker, term, true)
}

/// Factorizes on the right modulo associativity and commutativity: under a
/// commutative operator `op2`, the operands `op1(y1,x)`, .., `op1(yn,x)` that
/// share the factor `x` under an operator `op1` that is right distributive
/// over `op2` become the one operand `op1(op2(y1,..,yn),x)`.
pub fn transformation_factorize_right_distributive_modulo_ac<LOS: RewritableLanguageOperatorSymbol>(
    checker: &Box<dyn DistributivityChecker<LOS>>,
    term: &LanguageTerm<LOS>,
    _context_term: &LanguageTerm<LOS>,
    _position_in_context_term: &PositionInLanguageTerm,
) -> (outcome: Option<LanguageTerm<LOS>>)
    ensures
        outcome_model(outcome) == factorized_modulo_ac(term@, distributivity_of(checker), false),
{
    factorize_modulo_ac(checker, term, false)
}

} // verus!
