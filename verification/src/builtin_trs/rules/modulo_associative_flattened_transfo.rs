use crate::builtin_trs::util::{
    flattened,
    fold_associative_sub_terms_recursively,
    folded,
    get_associative_sub_terms_recursively,
    models_of_borrowed,
};
use crate::rewriting_core::rule::outcome_model;
use crate::rewriting_core::terms::position::PositionInLanguageTerm;
use crate::rewriting_core::terms::term::{
    LanguageTerm,
    RewritableLanguageOperatorSymbol,
    TermModel,
    models_of,
    node,
    parent_operator_at,
};
use crate::rewriting_core::model::some_function_of;
use vstd::prelude::*;

verus! {

/// Something that rewrites the flattened operands of a chain of an associative
/// operator: from `(x \/ (y \/ z)) \/ ((z \/ y) \/ x)` the operands are
/// `x, y, z, z, y, x`, and a transformation may keep one of each. The
/// transformation may be confined to chains that stand under a given unary
/// operator, as in `(a* + b + c*)* -> (a + b + c)*`.
pub trait ModuloAssociativeGenericFlattenedChecker<LOS: RewritableLanguageOperatorSymbol> {
    /// `op` is an associative binary operator to consider.
    open spec fn considered(&self, op: LOS) -> bool {
        some_function_of::<Self, _, _>("considered", (self, op))
    }

    /// The transformation needs a specific operator right above the chain.
    open spec fn parent_required(&self) -> bool {
        some_function_of::<Self, _, _>("parent_required", self)
    }

    /// `op` is an operator that the transformation needs right above the chain.
    open spec fn required_parent(&self, op: LOS) -> bool {
        some_function_of::<Self, _, _>("required_parent", (self, op))
    }

    /// What the operands of a chain of `considered_ac_op` under
    /// `considered_parent_op` are rewritten to, if to anything.
    open spec fn transformed(
        &self,
        considered_ac_op: LOS,
        considered_parent_op: Option<LOS>,
        flattened_subterms: Seq<TermModel<LOS>>,
    ) -> Option<Seq<TermModel<LOS>>> {
        some_function_of::<Self, _, _>("transformed", (self, considered_ac_op, considered_parent_op, flattened_subterms))
    }

    fn is_an_associative_binary_operator_we_may_consider(&self, op: &LOS) -> (considered: bool)
        ensures
            considered == self.considered(*op),
    ;

    /// Whether the transformation needs a specific parent operator above the
    /// root of the chain.
    fn requires_a_specific_parent_operator(&self) -> (required: bool)
        ensures
            required == self.parent_required(),
    ;

    /// Whether `op` is the parent operator that the transformation needs.
    fn is_the_required_parent_operator(&self, op: &LOS) -> (required: bool)
        ensures
            required == self.required_parent(*op),
    ;

    /// Transforms the operands `z_1 .. z_n` of a chain into the operands
    /// `z'_1 .. z'_m` that take their place. There is at least one of these:
    /// a chain of no operand is no term.
    fn transform_flattened_sub_terms(
        &self,
        considered_ac_op: &LOS,
        considered_parent_op: Option<&LOS>,
        flattened_subterms: Vec<&LanguageTerm<LOS>>,
    ) -> (transformed: Option<Vec<LanguageTerm<LOS>>>)
        ensures
            match transformed {
                Some(operands) => operands@.len() > 0 && self.transformed(
                    *considered_ac_op,
                    operator_model(considered_parent_op),
                    models_of_borrowed(flattened_subterms@),
                ) == Some(models_of(operands@)),
                None => self.transformed(
                    *considered_ac_op,
                    operator_model(considered_parent_op),
                    models_of_borrowed(flattened_subterms@),
                ).is_none(),
            },
    ;
}

/// The operator that `operator` borrows, if any.
pub open spec fn operator_model<LOS>(operator: Option<&LOS>) -> Option<LOS> {
    match operator {
        Some(op) => Some(*op),
        None => None,
    }
}

/// Whether the transformation may take place at a chain of `op` of which
/// `parent_operator` is the operator right above, and if so, the parent
/// operator that it is to be told of:
/// - where a parent is required, the parent has to be there and to be the
///   required one, and the transformation is told of it;
/// - where none is required, the parent must not be `op` itself (there the
///   rewrite is made from above), and the transformation is told of none.
pub open spec fn parent_check<LOS>(
    op: LOS,
    parent_operator: Option<LOS>,
    parent_required: bool,
    required_parent: spec_fn(LOS) -> bool,
) -> Option<Option<LOS>> {
    match parent_operator {
        None => if parent_required {
            None
        } else {
            Some(None)
        },
        Some(parent) => if parent_required {
            if required_parent(parent) {
                Some(Some(parent))
            } else {
                None
            }
        } else if parent == op {
            None
        } else {
            Some(None)
        },
    }
}

/// The chain of `op` at the root of `term` with its operands transformed and
/// folded again, under the parent operator where one was required; `None`
/// where `op` is not to be considered, the parent is not as it has to be, or
/// the operands are left as they are.
pub open spec fn flattened_transformation<LOS>(
    term: TermModel<LOS>,
    considered: bool,
    parent_operator: Option<LOS>,
    parent_required: bool,
    required_parent: spec_fn(LOS) -> bool,
    transformed: spec_fn(LOS, Option<LOS>, Seq<TermModel<LOS>>) -> Option<Seq<TermModel<LOS>>>,
) -> Option<TermModel<LOS>> {
    if !considered {
        None
    } else {
        match parent_check(term.operator, parent_operator, parent_required, required_parent) {
            None => None,
            Some(told_parent) => match transformed(term.operator, told_parent, flattened(term, term.operator)) {
                None => None,
                Some(operands) => {
                    let chain = folded(term.operator, operands, None);
                    match told_parent {
                        None => Some(chain),
                        Some(parent) => Some(node(parent, seq![chain])),
                    }
                },
            },
        }
    }
}

/// Which parent operators `checker` requires, as a function.
pub open spec fn required_parent_of<LOS: RewritableLanguageOperatorSymbol>(
    checker: &Box<dyn ModuloAssociativeGenericFlattenedChecker<LOS>>,
) -> spec_fn(LOS) -> bool {
    |op: LOS| checker.required_parent(op)
}

/// The transformation of `checker`, as a function.
pub open spec fn transformation_of<LOS: RewritableLanguageOperatorSymbol>(
    checker: &Box<dyn ModuloAssociativeGenericFlattenedChecker<LOS>>,
) -> spec_fn(LOS, Option<LOS>, Seq<TermModel<LOS>>) -> Option<Seq<TermModel<LOS>>> {
    |op: LOS, parent: Option<LOS>, operands: Seq<TermModel<LOS>>| checker.transformed(op, parent, operands)
}

/// Checks the operator right above the chain against what `checker` requires.
fn ad_hoc_parent_checking_for_modulo_assoc_flattened_transfo<'a, LOS: RewritableLanguageOperatorSymbol>(
    checker: &Box<dyn ModuloAssociativeGenericFlattenedChecker<LOS>>,
    context_term: &'a LanguageTerm<LOS>,
    position_in_context_term: &PositionInLanguageTerm,
    considered_associative_operator: &LOS,
) -> (checked: Option<Option<&'a LOS>>)
    ensures
        match checked {
            Some(told_parent) => parent_check(
                *considered_associative_operator,
                parent_operator_at(context_term@, position_in_context_term@),
                checker.parent_required(),
                required_parent_of(checker),
            ) == Some(operator_model(told_parent)),
            None => parent_check(
                *considered_associative_operator,
                parent_operator_at(context_term@, position_in_context_term@),
                checker.parent_required(),
                required_parent_of(checker),
            ).is_none(),
        },
{
    proof {
        LOS::symbol_laws();
    }
    match context_term.get_parent_operator_at_position(position_in_context_term) {
        None => {
            if checker.requires_a_specific_parent_operator() {
                None
            } else {
                Some(None)
            }
        },
        Some(parent_operator) => {
            if checker.requires_a_specific_parent_operator() {
                if checker.is_the_required_parent_operator(parent_operator) {
                    Some(Some(parent_operator))
                } else {
                    None
                }
            } else if parent_operator == considered_associative_operator {
                None
            } else {
                Some(None)
            }
        },
    }
}

/// Flattens the chain of an associative operator at the root of `term`, lets
/// `checker` transform its operands, and folds them again.
pub fn transformation_modulo_associative_generic_flattened_transfo<LOS: RewritableLanguageOperatorSymbol>(
    checker: &Box<dyn ModuloAssociativeGenericFlattenedChecker<LOS>>,
    term: &LanguageTerm<LOS>,
    context_term: &LanguageTerm<LOS>,
    position_in_context_term: &PositionInLanguageTerm,
) -> (outcome: Option<LanguageTerm<LOS>>)
    ensures
        outcome_model(outcome) == flattened_transformation(
            term@,
            checker.considered(term@.operator),
            parent_operator_at(context_term@, position_in_context_term@),
            checker.parent_required(),
            required_parent_of(checker),
            transformation_of(checker),
        ),
{
    if !checker.is_an_associative_binary_operator_we_may_consider(&term.operator) {
        return None;
    }
    let considered_associative_operator = &term.operator;
    if let Some(if_req_parent_op) = ad_hoc_parent_checking_for_modulo_assoc_flattened_transfo(
        checker,
        context_term,
        position_in_context_term,
        considered_associative_operator,
    ) {
        let flattened_sub_terms = get_associative_sub_terms_recursively(term, considered_associative_operator);
        if let Some(mut transformed_flattened) = checker.transform_flattened_sub_terms(
            considered_associative_operator,
            if_req_parent_op,
            flattened_sub_terms,
        ) {
            let folded_transformed = fold_associative_sub_terms_recursively(
                considered_associative_operator,
                &mut transformed_flattened,
                &None,
            );
            let got = match if_req_parent_op {
                None => folded_transformed,
                Some(parent_op) => {
                    let operator = parent_op.clone();
                    proof {
                        LOS::symbol_laws();
                        assert(cloned(*parent_op, operator));
                    }
                    LanguageTerm::new_unary(operator, folded_transformed)
                },
            };
            return Some(got);
        }
    }
    None
}

} // verus!
