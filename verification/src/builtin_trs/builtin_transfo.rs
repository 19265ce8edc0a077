use crate::builtin_trs::rules::factorization::defactorize::{
    defactorized_left_distributive,
    defactorized_right_distributive,
    transformation_defactorize_left_distributive,
    transformation_defactorize_right_distributive,
};
use crate::builtin_trs::rules::factorization::distributivity_checker::DistributivityChecker;
use crate::builtin_trs::rules::factorization::factorize_modulo_ac::{
    distributivity_of,
    factorized_modulo_ac,
    transformation_factorize_left_distributive_modulo_ac,
    transformation_factorize_right_distributive_modulo_ac,
};
use crate::builtin_trs::rules::factorization::factorize_simple::{
    binary_of,
    factorized_left_distributive,
    factorized_right_distributive,
    left_distributivity_of,
    right_distributivity_of,
    transformation_factorize_left_distributive,
    transformation_factorize_right_distributive,
};
use crate::builtin_trs::rules::flush::{
    AssociativityChecker,
    flushed_to_the_left,
    flushed_to_the_right,
    transformation_flush_to_the_left,
    transformation_flush_to_the_right,
};
use crate::builtin_trs::rules::modulo_ac_reorderer::{
    ModuloAssociativePartialReorderer,
    PrecedenceOfReorderer,
    partial_commutation_of,
    reordered_modulo_associativity,
    transformation_modulo_assoc_partial_reordering,
};
use crate::builtin_trs::rules::modulo_associative_flattened_transfo::{
    ModuloAssociativeGenericFlattenedChecker,
    flattened_transformation,
    required_parent_of,
    transformation_modulo_associative_generic_flattened_transfo,
    transformation_of,
};
use crate::builtin_trs::rules::reorder_commute::{
    CommutativeCheckerAndOrderer,
    PrecedenceOfCommutativeChecker,
    commutation_of,
    reordered_under_commutative_operator,
    transformation_reorder_subterms_under_commutative_operator,
};
use crate::builtin_trs::rules::simpl_binary::{
    GenericBinaryOperatorSimplifier,
    binary_simplification_of,
    simplified_binary_term,
    transformation_generic_simpl_under_binary_operator,
};
use crate::builtin_trs::rules::simpl_unary::{
    GenericUnaryOperatorSimplifier,
    simplified_unary_term,
    transformation_generic_simpl_under_unary_operator,
    unary_simplification_of,
};
use crate::builtin_trs::util::{arity_of, comparison_of};
use crate::rewriting_core::rule::RewriteRule;
use crate::rewriting_core::terms::position::PositionInLanguageTerm;
use crate::rewriting_core::terms::term::{LanguageTerm, RewritableLanguageOperatorSymbol, TermModel, parent_operator_at};
use vstd::prelude::*;

verus! {

/// The builtin transformations, each with what it needs to know of the operators.
#[verifier::reject_recursive_types(LOS)]
pub enum BuiltinRewriteTransformationKind<LOS: RewritableLanguageOperatorSymbol> {
    /// `op(op(x,y),z) -> op(x,op(y,z))`
    AssociativeFlushRight(Box<dyn AssociativityChecker<LOS>>),
    /// `op(x,op(y,z)) -> op(op(x,y),z)`
    AssociativeFlushLeft(Box<dyn AssociativityChecker<LOS>>),
    /// `op(y,x) -> op(x,y)` where `y` dominates `x`
    ReorderOperandsIfCommuteBasic(Box<dyn CommutativeCheckerAndOrderer<LOS>>),
    /// the operands of a whole chain put in order
    ReorderOperandsIfCommuteModuloAC(Box<dyn ModuloAssociativePartialReorderer<LOS>>),
    /// what a simplifier makes of a term under a unary operator
    GenericSimplifyUnderUnary(Box<dyn GenericUnaryOperatorSimplifier<LOS>>),
    /// what a simplifier makes of a term under a binary operator
    GenericSimplifyUnderBinary(Box<dyn GenericBinaryOperatorSimplifier<LOS>>),
    /// `op2(op1(x,y),op1(x,z)) -> op1(x,op2(y,z))`
    FactorizeLeftDistributiveSimple(Box<dyn DistributivityChecker<LOS>>),
    /// the factors that operands of a whole chain share, factored out on the left
    FactorizeLeftDistributiveModuloAC(Box<dyn DistributivityChecker<LOS>>),
    /// `op2(op1(y,x),op1(z,x)) -> op1(op2(y,z),x)`
    FactorizeRightDistributiveSimple(Box<dyn DistributivityChecker<LOS>>),
    /// the factors that operands of a whole chain share, factored out on the right
    FactorizeRightDistributiveModuloAC(Box<dyn DistributivityChecker<LOS>>),
    /// `op1(x,op2(y,z)) -> op2(op1(x,y),op1(x,z))`
    DeFactorizeLeftDistributive(Box<dyn DistributivityChecker<LOS>>),
    /// `op1(op2(y,z),x) -> op2(op1(y,x),op1(z,x))`
    DeFactorizeRightDistributive(Box<dyn DistributivityChecker<LOS>>),
    /// the operands of a whole chain transformed
    ModuloAssociativeGenericFlattenedTransfo(Box<dyn ModuloAssociativeGenericFlattenedChecker<LOS>>),
}

/// A builtin transformation as a rewrite rule, with its description.
#[verifier::reject_recursive_types(LOS)]
pub struct BuiltinRewriteTransformation<LOS: RewritableLanguageOperatorSymbol> {
    pub kind: BuiltinRewriteTransformationKind<LOS>,
    pub desc: String,
}

impl<LOS: RewritableLanguageOperatorSymbol> RewriteRule<LOS> for BuiltinRewriteTransformation<LOS> {
    open spec fn rewrites_to(&self, term: TermModel<LOS>, context_term: TermModel<LOS>, position: Seq<usize>) -> Option<
        TermModel<LOS>,
    > {
        match self.kind {
            BuiltinRewriteTransformationKind::AssociativeFlushRight(checker) => flushed_to_the_right(
                term,
                checker.binary_associative(term.operator),
            ),
            BuiltinRewriteTransformationKind::AssociativeFlushLeft(checker) => flushed_to_the_left(
                term,
                checker.binary_associative(term.operator),
            ),
            BuiltinRewriteTransformationKind::ReorderOperandsIfCommuteBasic(
                checker,
            ) => reordered_under_commutative_operator(
                term,
                checker.considered(term.operator),
                checker.associative(term.operator),
                commutation_of(&checker),
                comparison_of(PrecedenceOfCommutativeChecker { checker: &checker }),
                arity_of(PrecedenceOfCommutativeChecker { checker: &checker }),
            ),
            BuiltinRewriteTransformationKind::ReorderOperandsIfCommuteModuloAC(
                checker,
            ) => reordered_modulo_associativity(
                term,
                checker.considered(term.operator),
                parent_operator_at(context_term, position),
                partial_commutation_of(&checker),
                comparison_of(PrecedenceOfReorderer { checker: &checker }),
                arity_of(PrecedenceOfReorderer { checker: &checker }),
            ),
            BuiltinRewriteTransformationKind::GenericSimplifyUnderUnary(checker) => simplified_unary_term(
                term,
                checker.unary(term.operator),
                unary_simplification_of(&checker),
            ),
            BuiltinRewriteTransformationKind::GenericSimplifyUnderBinary(checker) => simplified_binary_term(
                term,
                checker.binary(term.operator),
                binary_simplification_of(&checker),
            ),
            BuiltinRewriteTransformationKind::FactorizeLeftDistributiveSimple(
                checker,
            ) => factorized_left_distributive(term, binary_of(&checker), left_distributivity_of(&checker)),
            BuiltinRewriteTransformationKind::FactorizeLeftDistributiveModuloAC(checker) => factorized_modulo_ac(
                term,
                distributivity_of(&checker),
                true,
            ),
            BuiltinRewriteTransformationKind::FactorizeRightDistributiveSimple(
                checker,
            ) => factorized_right_distributive(term, binary_of(&checker), right_distributivity_of(&checker)),
            BuiltinRewriteTransformationKind::FactorizeRightDistributiveModuloAC(checker) => factorized_modulo_ac(
                term,
                distributivity_of(&checker),
                false,
            ),
            BuiltinRewriteTransformationKind::DeFactorizeLeftDistributive(
                checker,
            ) => defactorized_left_distributive(term, binary_of(&checker), left_distributivity_of(&checker)),
            BuiltinRewriteTransformationKind::DeFactorizeRightDistributive(
                checker,
            ) => defactorized_right_distributive(term, binary_of(&checker), right_distributivity_of(&checker)),
            BuiltinRewriteTransformationKind::ModuloAssociativeGenericFlattenedTransfo(
                checker,
            ) => flattened_transformation(
                term,
                checker.considered(term.operator),
                parent_operator_at(context_term, position),
                checker.parent_required(),
                required_parent_of(&checker),
                transformation_of(&checker),
            ),
        }
    }

    open spec fn description(&self) -> Seq<char> {
        self.desc@
    }

    fn get_desc(&self) -> (description: String) {
        self.desc.clone()
    }

    fn try_apply(
        &self,
        term: &LanguageTerm<LOS>,
        context_term: &LanguageTerm<LOS>,
        position_in_context_term: &PositionInLanguageTerm,
    ) -> (outcome: Option<LanguageTerm<LOS>>) {
        match &self.kind {
            BuiltinRewriteTransformationKind::AssociativeFlushRight(
                rule_application_checker,
            ) => transformation_flush_to_the_right(
                rule_application_checker,
                term,
                context_term,
                position_in_context_term,
            ),
            BuiltinRewriteTransformationKind::AssociativeFlushLeft(
                rule_application_checker,
            ) => transformation_flush_to_the_left(
                rule_application_checker,
                term,
                context_term,
                position_in_context_term,
            ),
            BuiltinRewriteTransformationKind::ReorderOperandsIfCommuteBasic(
                rule_application_checker,
            ) => transformation_reorder_subterms_under_commutative_operator(
                rule_application_checker,
                term,
                context_term,
                position_in_context_term,
            ),
            BuiltinRewriteTransformationKind::ReorderOperandsIfCommuteModuloAC(
                rule_application_checker,
            ) => transformation_modulo_assoc_partial_reordering(
                rule_application_checker,
                term,
                context_term,
                position_in_context_term,
            ),
            BuiltinRewriteTransformationKind::GenericSimplifyUnderUnary(
                rule_application_checker,
            ) => transformation_generic_simpl_under_unary_operator(
                rule_application_checker,
                term,
                context_term,
                position_in_context_term,
            ),
            BuiltinRewriteTransformationKind::GenericSimplifyUnderBinary(
                rule_application_checker,
            ) => transformation_generic_simpl_under_binary_operator(
                rule_application_checker,
                term,
                context_term,
                position_in_context_term,
            ),
            BuiltinRewriteTransformationKind::FactorizeLeftDistributiveSimple(
                rule_application_checker,
            ) => transformation_factorize_left_distributive(
                rule_application_checker,
                term,
                context_term,
                position_in_context_term,
            ),
            BuiltinRewriteTransformationKind::FactorizeLeftDistributiveModuloAC(
                rule_application_checker,
            ) => transformation_factorize_left_distributive_modulo_ac(
                rule_application_checker,
                term,
                context_term,
                position_in_context_term,
            ),
            BuiltinRewriteTransformationKind::FactorizeRightDistributiveModuloAC(
                rule_application_checker,
            ) => transformation_factorize_right_distributive_modulo_ac(
                rule_application_checker,
                term,
                context_term,
                position_in_context_term,
            ),
            BuiltinRewriteTransformationKind::FactorizeRightDistributiveSimple(
                rule_application_checker,
            ) => transformation_factorize_right_distributive(
                rule_application_checker,
                term,
                context_term,
                position_in_context_term,
            ),
            BuiltinRewriteTransformationKind::DeFactorizeLeftDistributive(
                rule_application_checker,
            ) => transformation_defactorize_left_distributive(
                rule_application_checker,
                term,
                context_term,
                position_in_context_term,
            ),
            BuiltinRewriteTransformationKind::DeFactorizeRightDistributive(
                rule_application_checker,
            ) => transformation_defactorize_right_distributive(
                rule_application_checker,
                term,
                context_term,
                position_in_context_term,
            ),
            BuiltinRewriteTransformationKind::ModuloAssociativeGenericFlattenedTransfo(
                rule_application_checker,
            ) => transformation_modulo_associative_generic_flattened_transfo(
                rule_application_checker,
                term,
                context_term,
                position_in_context_term,
            ),
        }
    }
}

} // verus!
