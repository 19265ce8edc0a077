use crate::builtin_trs::interface::BuiltinTermRewritingInterface;
use crate::builtin_trs::rules::binary_idempotence::{
    deduplicated,
    transformation_eliminate_duplicates_under_binary_idempotent_operator,
};
use crate::builtin_trs::rules::defactorize::{
    binary_operators_of,
    development_of,
    transformation_defactorize_left_distributive,
    transformation_defactorize_right_distributive,
};
use crate::builtin_trs::rules::factorization::defactorize::{
    defactorized_left_distributive,
    defactorized_right_distributive,
};
use crate::builtin_trs::rules::factorization::factorize_simple::{
    as_two_alike_binary_sub_terms,
    factorize_on_the_left,
    factorize_on_the_right,
    factorized_left_distributive,
    factorized_right_distributive,
};
use crate::builtin_trs::rules::flush::{
    AssociativityChecker,
    flushed_to_the_left,
    flushed_to_the_right,
    transformation_flush_to_the_left,
    transformation_flush_to_the_right,
};
use crate::builtin_trs::rules::reorder_commute::{
    CommutativeCheckerAndOrderer,
    PrecedenceOfCommutativeChecker,
    commutation_of,
    reordered_under_commutative_operator,
    transformation_reorder_subterms_under_commutative_operator,
};
use crate::builtin_trs::rules::simpl_neutral_elements::{
    at_fixpoint,
    neutrality_of,
    transformation_simpl_fixpoint_under_unary_operator,
    transformation_simpl_neutral_under_binary_operator,
    without_neutral_element,
};
use crate::builtin_trs::rules::unary_composition::{
    operator_underneath,
    transformation_simpl_compositions_of_unary_operators,
    with_composed_unary_operators,
};
use crate::builtin_trs::util::{arity_of, comparison_of};
use crate::rewriting_core::rule::outcome_model;
use crate::rewriting_core::terms::position::PositionInLanguageTerm;
use crate::rewriting_core::terms::term::{LanguageTerm, TermModel};
use std::cmp::Ordering;
use vstd::prelude::*;

verus! {

/// The names of the builtin transformations.
#[derive(Clone, Copy, PartialEq, Eq, Hash, Debug)]
pub enum BuiltinRewriteTransformations {
    /// `op(op(x,y),z) -> op(x,op(y,z))`
    AssociativeFlushRight,
    /// `op(x,op(y,z)) -> op(op(x,y),z)`
    AssociativeFlushLeft,
    /// `op(y,x) -> op(x,y)` where `y` dominates `x`
    ReorderOperandsIfCommutative,
    /// `op(x,c) -> x` and `op(c,x) -> x` for a neutral `c`
    SimplifyBinaryNeutral,
    /// `op(c) -> c` for a fixpoint `c`
    SimplifyUnaryFixpoint,
    /// `F(G(x)) -> H(x)`
    SimplifyCompositionsOfUnaryOperators,
    /// `op(x,x) -> x`
    DeduplicateUnderBinaryIdempotent,
    /// `op2(op1(x,y),op1(x,z)) -> op1(x,op2(y,z))`
    FactorizeLeftDistributive,
    /// `op1(x,op2(y,z)) -> op2(op1(x,y),op1(x,z))`
    DeFactorizeLeftDistributive,
    /// `op2(op1(y,x),op1(z,x)) -> op1(op2(y,z),x)`
    FactorizeRightDistributive,
    /// `op1(op2(y,z),x) -> op2(op1(y,x),op1(z,x))`
    DeFactorizeRightDistributive,
}

/// What a language knows of its operators, in the form that the rules
/// with a checker ask for.
pub struct InterfaceAsChecker<STRI: BuiltinTermRewritingInterface> {
    pub interface: core::marker::PhantomData<STRI>,
}

impl<STRI: BuiltinTermRewritingInterface> AssociativityChecker<STRI::LanguageOperatorSymbol> for InterfaceAsChecker<STRI> {
    open spec fn binary_associative(&self, op: STRI::LanguageOperatorSymbol) -> bool {
        STRI::arity(op) == 2 && STRI::binary_associative(op)
    }

    fn is_binary_associative(&self, op: &STRI::LanguageOperatorSymbol) -> (associative: bool) {
        STRI::op_arity(op) == 2 && STRI::op_is_binary_associative(op)
    }
}

impl<STRI: BuiltinTermRewritingInterface> CommutativeCheckerAndOrderer<
    STRI::LanguageOperatorSymbol,
> for InterfaceAsChecker<STRI> {
    open spec fn considered(&self, op: STRI::LanguageOperatorSymbol) -> bool {
        STRI::arity(op) == 2 && STRI::binary_commutative(op)
    }

    open spec fn commutable_under(
        &self,
        parent_op: STRI::LanguageOperatorSymbol,
        left_sub_term: TermModel<STRI::LanguageOperatorSymbol>,
        right_sub_term: TermModel<STRI::LanguageOperatorSymbol>,
    ) -> bool {
        true
    }

    open spec fn comparison(&self, op1: STRI::LanguageOperatorSymbol, op2: STRI::LanguageOperatorSymbol) -> Ordering {
        STRI::comparison(op1, op2)
    }

    open spec fn arity(&self, op: STRI::LanguageOperatorSymbol) -> nat {
        STRI::arity(op)
    }

    open spec fn associative(&self, op: STRI::LanguageOperatorSymbol) -> bool {
        STRI::binary_associative(op)
    }

    fn is_a_binary_operator_we_may_consider(&self, op: &STRI::LanguageOperatorSymbol) -> (considered: bool) {
        STRI::op_arity(op) == 2 && STRI::op_is_binary_commutative(op)
    }

    fn may_commute_under(
        &self,
        parent_op: &STRI::LanguageOperatorSymbol,
        left_sub_term: &LanguageTerm<STRI::LanguageOperatorSymbol>,
        right_sub_term: &LanguageTerm<STRI::LanguageOperatorSymbol>,
    ) -> (commutable: bool) {
        true
    }

    fn compare_operators(&self, op1: &STRI::LanguageOperatorSymbol, op2: &STRI::LanguageOperatorSymbol) -> (ordering:
        Ordering) {
        STRI::compare_operators(op1, op2)
    }

    fn get_arity(&self, op: &STRI::LanguageOperatorSymbol) -> (arity: usize) {
        STRI::op_arity(op)
    }

    fn is_associative(&self, op: &STRI::LanguageOperatorSymbol) -> (associative: bool) {
        STRI::op_is_binary_associative(op)
    }
}

/// Any two operands may be exchanged.
pub open spec fn always_commutable<LOS>() -> spec_fn(LOS, TermModel<LOS>, TermModel<LOS>) -> bool {
    |parent_op: LOS, left_sub_term: TermModel<LOS>, right_sub_term: TermModel<LOS>| true
}

/// How the language compares its operators, as a function.
pub open spec fn comparison_in<STRI: BuiltinTermRewritingInterface>() -> spec_fn(
    STRI::LanguageOperatorSymbol,
    STRI::LanguageOperatorSymbol,
) -> Ordering {
    |op1: STRI::LanguageOperatorSymbol, op2: STRI::LanguageOperatorSymbol| STRI::comparison(op1, op2)
}

/// The arities of the operators of the language, as a function.
pub open spec fn arity_in<STRI: BuiltinTermRewritingInterface>() -> spec_fn(STRI::LanguageOperatorSymbol) -> nat {
    |op: STRI::LanguageOperatorSymbol| STRI::arity(op)
}

/// What the builtin transformation `kind` rewrites `term` to in the language
/// `STRI`; `None` where it does not apply.
pub open spec fn builtin_rewrite<STRI: BuiltinTermRewritingInterface>(
    kind: BuiltinRewriteTransformations,
    term: TermModel<STRI::LanguageOperatorSymbol>,
) -> Option<TermModel<STRI::LanguageOperatorSymbol>> {
    let binary = STRI::arity(term.operator) == 2;
    match kind {
        BuiltinRewriteTransformations::AssociativeFlushRight => flushed_to_the_right(
            term,
            binary && STRI::binary_associative(term.operator),
        ),
        BuiltinRewriteTransformations::AssociativeFlushLeft => flushed_to_the_left(
            term,
            binary && STRI::binary_associative(term.operator),
        ),
        BuiltinRewriteTransformations::ReorderOperandsIfCommutative => reordered_under_commutative_operator(
            term,
            binary && STRI::binary_commutative(term.operator),
            STRI::binary_associative(term.operator),
            always_commutable(),
            comparison_in::<STRI>(),
            arity_in::<STRI>(),
        ),
        BuiltinRewriteTransformations::SimplifyBinaryNeutral => without_neutral_element(
            term,
            binary,
            neutrality_of::<STRI>(),
        ),
        BuiltinRewriteTransformations::SimplifyUnaryFixpoint => at_fixpoint(
            term,
            STRI::arity(term.operator) == 1,
            neutrality_of::<STRI>(),
        ),
        BuiltinRewriteTransformations::SimplifyCompositionsOfUnaryOperators => with_composed_unary_operators(
            term,
            STRI::arity(term.operator) == 1 && STRI::arity(operator_underneath(term)) == 1,
            STRI::composition(term.operator, operator_underneath(term)),
        ),
        BuiltinRewriteTransformations::DeduplicateUnderBinaryIdempotent => deduplicated(
            term,
            binary && STRI::binary_idempotent(term.operator),
            STRI::binary_associative(term.operator),
        ),
        BuiltinRewriteTransformations::FactorizeLeftDistributive => factorized_left_distributive(
            term,
            binary_operators_of::<STRI>(),
            development_of::<STRI>(),
        ),
        BuiltinRewriteTransformations::DeFactorizeLeftDistributive => defactorized_left_distributive(
            term,
            binary_operators_of::<STRI>(),
            development_of::<STRI>(),
        ),
        BuiltinRewriteTransformations::FactorizeRightDistributive => factorized_right_distributive(
            term,
            binary_operators_of::<STRI>(),
            development_of::<STRI>(),
        ),
        BuiltinRewriteTransformations::DeFactorizeRightDistributive => defactorized_right_distributive(
            term,
            binary_operators_of::<STRI>(),
            development_of::<STRI>(),
        ),
    }
}

impl BuiltinRewriteTransformations {
    /// The name that the language `STRI` gives to this transformation.
    pub fn get_transformation_kind<STRI: BuiltinTermRewritingInterface>(&self) -> (kind: STRI::TransformationKind)
        ensures
            kind == STRI::generic_transformation_kind(*self),
    {
        STRI::from_builtin_to_generic_transformation_kind(self)
    }

    /// Applies this transformation at the root of `term`, if it applies there.
    pub fn try_apply<STRI: BuiltinTermRewritingInterface + 'static>(
        &self,
        term: &LanguageTerm<STRI::LanguageOperatorSymbol>,
    ) -> (outcome: Option<LanguageTerm<STRI::LanguageOperatorSymbol>>)
        ensures
            outcome_model(outcome) == builtin_rewrite::<STRI>(*self, term@),
    {
        let root = PositionInLanguageTerm::get_root_position();
        match self {
            BuiltinRewriteTransformations::AssociativeFlushRight => {
                let checker: Box<dyn AssociativityChecker<STRI::LanguageOperatorSymbol>> = Box::new(
                    InterfaceAsChecker::<STRI> { interface: core::marker::PhantomData },
                );
                transformation_flush_to_the_right(&checker, term, term, &root)
            },
            BuiltinRewriteTransformations::AssociativeFlushLeft => {
                let checker: Box<dyn AssociativityChecker<STRI::LanguageOperatorSymbol>> = Box::new(
                    InterfaceAsChecker::<STRI> { interface: core::marker::PhantomData },
                );
                transformation_flush_to_the_left(&checker, term, term, &root)
            },
            BuiltinRewriteTransformations::ReorderOperandsIfCommutative => {
                let checker: Box<dyn CommutativeCheckerAndOrderer<STRI::LanguageOperatorSymbol>> = Box::new(
                    InterfaceAsChecker::<STRI> { interface: core::marker::PhantomData },
                );
                proof {
                    assert(commutation_of(&checker) =~= always_commutable());
                    assert(comparison_of(PrecedenceOfCommutativeChecker { checker: &checker }) =~= comparison_in::<
                        STRI,
                    >());
                    assert(arity_of(PrecedenceOfCommutativeChecker { checker: &checker }) =~= arity_in::<STRI>());
                }
                transformation_reorder_subterms_under_commutative_operator(&checker, term, term, &root)
            },
            BuiltinRewriteTransformations::SimplifyBinaryNeutral => transformation_simpl_neutral_under_binary_operator::<
                STRI,
            >(term),
            BuiltinRewriteTransformations::SimplifyUnaryFixpoint => transformation_simpl_fixpoint_under_unary_operator::<
                STRI,
            >(term),
            BuiltinRewriteTransformations::SimplifyCompositionsOfUnaryOperators => transformation_simpl_compositions_of_unary_operators::<
                STRI,
            >(term),
            BuiltinRewriteTransformations::DeduplicateUnderBinaryIdempotent => transformation_eliminate_duplicates_under_binary_idempotent_operator::<
                STRI,
            >(term),
            BuiltinRewriteTransformations::FactorizeLeftDistributive => {
                if STRI::op_arity(&term.operator) == 2 {
                    if let Some((left_sub_term, right_sub_term)) = as_two_alike_binary_sub_terms(term) {
                        if STRI::op_arity(&left_sub_term.operator) == 2 && STRI::op_distributes_over(
                            &term.operator,
                            &left_sub_term.operator,
                        ) {
                            return factorize_on_the_left(term, left_sub_term, right_sub_term);
                        }
                    }
                }
                None
            },
            BuiltinRewriteTransformations::DeFactorizeLeftDistributive => transformation_defactorize_left_distributive::<
                STRI,
            >(term),
            BuiltinRewriteTransformations::FactorizeRightDistributive => {
                if STRI::op_arity(&term.operator) == 2 {
                    if let Some((left_sub_term, right_sub_term)) = as_two_alike_binary_sub_terms(term) {
                        if STRI::op_arity(&left_sub_term.operator) == 2 && STRI::op_distributes_over(
                            &term.operator,
                            &left_sub_term.operator,
                        ) {
                            return factorize_on_the_right(term, left_sub_term, right_sub_term);
                        }
                    }
                }
                None
            },
            BuiltinRewriteTransformations::DeFactorizeRightDistributive => transformation_defactorize_right_distributive::<
                STRI,
            >(term),
        }
    }
}

} // verus!
