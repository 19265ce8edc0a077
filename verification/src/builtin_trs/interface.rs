use crate::builtin_trs::builtin_transfo_kind::BuiltinRewriteTransformations;
use crate::rewriting_core::terms::term::{LanguageTerm, RewritableLanguageOperatorSymbol, TermModel};
use std::cmp::Ordering;
use crate::rewriting_core::model::some_function_of;
use vstd::prelude::*;

verus! {

/// The language that is rewritten: its operator symbols, and the names of the
/// transformations that rewrite its terms.
pub trait SimpleTermRewritingInterface {
    type LanguageOperatorSymbol: RewritableLanguageOperatorSymbol;

    type TransformationKind: Clone + PartialEq + Eq + core::hash::Hash;
}

/// What the builtin rules need to know of the operators of a language.
pub trait BuiltinTermRewritingInterface: SimpleTermRewritingInterface {
    /// The number of sub-terms that `op` takes.
    open spec fn arity(op: Self::LanguageOperatorSymbol) -> nat {
        some_function_of::<Self, _, _>("arity", op)
    }

    /// `op` is associative.
    open spec fn binary_associative(op: Self::LanguageOperatorSymbol) -> bool {
        some_function_of::<Self, _, _>("binary_associative", op)
    }

    /// `op` is commutative.
    open spec fn binary_commutative(op: Self::LanguageOperatorSymbol) -> bool {
        some_function_of::<Self, _, _>("binary_commutative", op)
    }

    /// `op` is idempotent.
    open spec fn binary_idempotent(op: Self::LanguageOperatorSymbol) -> bool {
        some_function_of::<Self, _, _>("binary_idempotent", op)
    }

    /// `op1(op2(x,y),op2(x,z))` is equivalent to `op2(x,op1(y,z))`.
    open spec fn distributes_over(op1: Self::LanguageOperatorSymbol, op2: Self::LanguageOperatorSymbol) -> bool {
        some_function_of::<Self, _, _>("distributes_over", (op1, op2))
    }

    /// `sub_term` is a neutral element of the binary operator `parent_operator`,
    /// or a fixpoint of the unary operator `parent_operator`.
    open spec fn neutral_element_or_fixpoint_for(
        sub_term: TermModel<Self::LanguageOperatorSymbol>,
        parent_operator: Self::LanguageOperatorSymbol,
    ) -> bool {
        some_function_of::<Self, _, _>("neutral_element_or_fixpoint_for", (sub_term, parent_operator))
    }

    /// How `op1` compares to `op2`, in a total order on the operators.
    open spec fn comparison(op1: Self::LanguageOperatorSymbol, op2: Self::LanguageOperatorSymbol) -> Ordering {
        some_function_of::<Self, _, _>("comparison", (op1, op2))
    }

    /// The unary operator that `operator_on_top` applied after
    /// `operator_underneath` amounts to, if there is one.
    open spec fn composition(
        operator_on_top: Self::LanguageOperatorSymbol,
        operator_underneath: Self::LanguageOperatorSymbol,
    ) -> Option<Self::LanguageOperatorSymbol> {
        some_function_of::<Self, _, _>("composition", (operator_on_top, operator_underneath))
    }

    /// The name that the language gives to the builtin transformation
    /// `builtin_transfo`.
    open spec fn generic_transformation_kind(builtin_transfo: BuiltinRewriteTransformations) -> Self::TransformationKind {
        some_function_of::<Self, _, _>("generic_transformation_kind", builtin_transfo)
    }

    /// Returns the arity of the operators.
    fn op_arity(op: &Self::LanguageOperatorSymbol) -> (arity: usize)
        ensures
            arity == Self::arity(*op),
    ;

    /// Whether or not binary operators are associative.
    fn op_is_binary_associative(op: &Self::LanguageOperatorSymbol) -> (associative: bool)
        ensures
            associative == Self::binary_associative(*op),
    ;

    /// Whether or not binary operators are commutative.
    fn op_is_binary_commutative(op: &Self::LanguageOperatorSymbol) -> (commutative: bool)
        ensures
            commutative == Self::binary_commutative(*op),
    ;

    /// Whether or not binary operators are idempotent.
    fn op_is_binary_idempotent(op: &Self::LanguageOperatorSymbol) -> (idempotent: bool)
        ensures
            idempotent == Self::binary_idempotent(*op),
    ;

    /// Whether `op1(op2(x,y),op2(x,z))` is equivalent to `op2(x,op1(y,z))`.
    fn op_distributes_over(op1: &Self::LanguageOperatorSymbol, op2: &Self::LanguageOperatorSymbol) -> (distributes: bool)
        ensures
            distributes == Self::distributes_over(*op1, *op2),
    ;

    /// Returns true if the provided sub-term is a neutral element or a
    /// fixpoint for the given operator: 0 for the addition, 1 for the square.
    fn is_neutral_element_or_fixpoint_for(
        sub_term: &LanguageTerm<Self::LanguageOperatorSymbol>,
        parent_operator: &Self::LanguageOperatorSymbol,
    ) -> (neutral: bool)
        ensures
            neutral == Self::neutral_element_or_fixpoint_for(sub_term@, *parent_operator),
    ;

    /// The name that the language gives to a builtin transformation.
    fn from_builtin_to_generic_transformation_kind(builtin_transfo: &BuiltinRewriteTransformations) -> (kind:
        Self::TransformationKind)
        ensures
            kind == Self::generic_transformation_kind(*builtin_transfo),
    ;

    /// Compares two operators, in a total order on the operators: only an
    /// operator compares equal to itself.
    fn compare_operators(op1: &Self::LanguageOperatorSymbol, op2: &Self::LanguageOperatorSymbol) -> (ordering: Ordering)
        ensures
            ordering == Self::comparison(*op1, *op2),
    ;

    /// For two unary operators F and G, the unary operator H such that
    /// F(G(x)) is equivalent to H(x) for any x, if there is one.
    fn compose_nested_unary_operators(
        operator_on_top: &Self::LanguageOperatorSymbol,
        operator_underneath: &Self::LanguageOperatorSymbol,
    ) -> (composed: Option<Self::LanguageOperatorSymbol>)
        ensures
            composed == Self::composition(*operator_on_top, *operator_underneath),
    ;
}

} // verus!
