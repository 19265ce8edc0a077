use simple_term_rewriter::builtin_trs::builtin_transfo_kind::BuiltinRewriteTransformations;
use simple_term_rewriter::builtin_trs::interface::{BuiltinTermRewritingInterface, SimpleTermRewritingInterface};
use simple_term_rewriter::builtin_trs::rules::binary_idempotence::transformation_eliminate_duplicates_under_binary_idempotent_operator;
use simple_term_rewriter::builtin_trs::rules::defactorize::{
    transformation_defactorize_left_distributive, transformation_defactorize_right_distributive,
};
use simple_term_rewriter::builtin_trs::rules::simpl_neutral_elements::{
    transformation_simpl_fixpoint_under_unary_operator, transformation_simpl_neutral_under_binary_operator,
};
use simple_term_rewriter::builtin_trs::rules::unary_composition::transformation_simpl_compositions_of_unary_operators;
use simple_term_rewriter::rewriting_core::conversion::from_rewritable_term::{
    from_rewritable_term, FromRewritableTermToDomainSpecificTerm,
};
use simple_term_rewriter::rewriting_core::conversion::to_rewritable_term::{
    to_rewritable_term, FromDomainSpecificTermToRewritableTerm,
};
use simple_term_rewriter::rewriting_core::predicate::PredicateOnTerm;
use simple_term_rewriter::rewriting_core::terms::term::{LanguageTerm, RewritableLanguageOperatorSymbol};
use simple_term_rewriter::rewriting_process::context::RewritingProcessContextAndParameterization;
use simple_term_rewriter::rewriting_process::filter::{
    RewriteFilter, RewriteFilterCriterion, RewriteNodePreFilter, RewriteStepFilter,
};
use simple_term_rewriter::rewriting_process::filtration::{RewriteFilterEliminationKind, RewritingFiltrationResult};
use simple_term_rewriter::rewriting_process::node::RewriteNodeKind;
use simple_term_rewriter::rewriting_process::priorities::RewritePriorities;
use simple_term_rewriter::rewriting_process::state::RewritingProcessState;
use simple_term_rewriter::rewriting_process::step::RewriteStepKind;
use simple_term_rewriter::rewriting_process::term_set::TermSet;
use std::cmp::Ordering;

#[derive(Clone, Copy, PartialEq, Eq, PartialOrd, Ord, Hash, Debug)]
enum Bool {
    TRUE,
    FALSE,
    X,
    Y,
    Z,
    NEG,
    ID,
    AND,
    OR,
}

impl RewritableLanguageOperatorSymbol for Bool {
    fn symbol_laws() {}
}

type Term = LanguageTerm<Bool>;

fn c(op: Bool) -> Term {
    LanguageTerm::new(op, vec![])
}

fn neg(x: Term) -> Term {
    LanguageTerm::new(Bool::NEG, vec![x])
}

fn and(x: Term, y: Term) -> Term {
    LanguageTerm::new(Bool::AND, vec![x, y])
}

fn or(x: Term, y: Term) -> Term {
    LanguageTerm::new(Bool::OR, vec![x, y])
}

struct BooleanLogic {}

impl SimpleTermRewritingInterface for BooleanLogic {
    type LanguageOperatorSymbol = Bool;
    type TransformationKind = BuiltinRewriteTransformations;
}

impl BuiltinTermRewritingInterface for BooleanLogic {
    fn op_arity(op: &Bool) -> usize {
        match op {
            Bool::AND | Bool::OR => 2,
            Bool::NEG | Bool::ID => 1,
            _ => 0,
        }
    }

    fn op_is_binary_associative(op: &Bool) -> bool {
        matches!(op, Bool::AND | Bool::OR)
    }

    fn op_is_binary_commutative(op: &Bool) -> bool {
        matches!(op, Bool::AND | Bool::OR)
    }

    fn op_is_binary_idempotent(op: &Bool) -> bool {
        matches!(op, Bool::AND | Bool::OR)
    }

    fn op_distributes_over(op1: &Bool, op2: &Bool) -> bool {
        // OR(AND(x,y),AND(x,z)) is AND(x,OR(y,z))
        matches!((op1, op2), (Bool::OR, Bool::AND))
    }

    fn is_neutral_element_or_fixpoint_for(sub_term: &Term, parent_operator: &Bool) -> bool {
        matches!(
            (&sub_term.operator, parent_operator),
            (Bool::TRUE, Bool::AND) | (Bool::FALSE, Bool::OR) | (Bool::TRUE, Bool::ID) | (Bool::FALSE, Bool::ID)
        )
    }

    fn from_builtin_to_generic_transformation_kind(
        builtin_transfo: &BuiltinRewriteTransformations,
    ) -> BuiltinRewriteTransformations {
        builtin_transfo.clone()
    }

    fn compare_operators(op1: &Bool, op2: &Bool) -> Ordering {
        op1.cmp(op2)
    }

    fn compose_nested_unary_operators(operator_on_top: &Bool, operator_underneath: &Bool) -> Option<Bool> {
        match (operator_on_top, operator_underneath) {
            (Bool::NEG, Bool::NEG) => Some(Bool::ID),
            (Bool::ID, other) => Some(*other),
            (other, Bool::ID) => Some(*other),
            _ => None,
        }
    }
}

#[test]
fn duplicates_under_an_idempotent_operator_are_dropped() {
    let x = neg(c(Bool::X));
    let term = or(x.clone(), x.clone());
    assert_eq!(
        transformation_eliminate_duplicates_under_binary_idempotent_operator::<BooleanLogic>(&term),
        Some(x.clone())
    );
    // op(x,op(x,y)) -> op(x,y)
    let term = or(x.clone(), or(x.clone(), c(Bool::Y)));
    assert_eq!(
        transformation_eliminate_duplicates_under_binary_idempotent_operator::<BooleanLogic>(&term),
        Some(or(x.clone(), c(Bool::Y)))
    );
    // op(op(y,x),x) -> op(y,x)
    let term = or(or(c(Bool::Y), x.clone()), x.clone());
    assert_eq!(
        transformation_eliminate_duplicates_under_binary_idempotent_operator::<BooleanLogic>(&term),
        Some(or(c(Bool::Y), x.clone()))
    );
    let term = or(x.clone(), and(x.clone(), c(Bool::Y)));
    assert_eq!(transformation_eliminate_duplicates_under_binary_idempotent_operator::<BooleanLogic>(&term), None);
    let term = neg(neg(x));
    assert_eq!(transformation_eliminate_duplicates_under_binary_idempotent_operator::<BooleanLogic>(&term), None);
}

#[test]
fn neutral_elements_and_fixpoints_are_dropped() {
    let term = and(c(Bool::TRUE), c(Bool::X));
    assert_eq!(transformation_simpl_neutral_under_binary_operator::<BooleanLogic>(&term), Some(c(Bool::X)));
    let term = or(c(Bool::X), c(Bool::FALSE));
    assert_eq!(transformation_simpl_neutral_under_binary_operator::<BooleanLogic>(&term), Some(c(Bool::X)));
    let term = or(c(Bool::X), c(Bool::TRUE));
    assert_eq!(transformation_simpl_neutral_under_binary_operator::<BooleanLogic>(&term), None);
    let term = LanguageTerm::new(Bool::ID, vec![c(Bool::TRUE)]);
    assert_eq!(transformation_simpl_neutral_under_binary_operator::<BooleanLogic>(&term), None);
    assert_eq!(transformation_simpl_fixpoint_under_unary_operator::<BooleanLogic>(&term), Some(c(Bool::TRUE)));
    let term = neg(c(Bool::TRUE));
    assert_eq!(transformation_simpl_fixpoint_under_unary_operator::<BooleanLogic>(&term), None);
    let term = and(c(Bool::TRUE), c(Bool::TRUE));
    assert_eq!(transformation_simpl_fixpoint_under_unary_operator::<BooleanLogic>(&term), None);
}

#[test]
fn nested_unary_operators_are_composed() {
    let term = neg(neg(c(Bool::X)));
    assert_eq!(
        transformation_simpl_compositions_of_unary_operators::<BooleanLogic>(&term),
        Some(LanguageTerm::new(Bool::ID, vec![c(Bool::X)]))
    );
    let term = neg(c(Bool::X));
    assert_eq!(transformation_simpl_compositions_of_unary_operators::<BooleanLogic>(&term), None);
    let term = neg(and(c(Bool::X), c(Bool::Y)));
    assert_eq!(transformation_simpl_compositions_of_unary_operators::<BooleanLogic>(&term), None);
}

#[test]
fn development_in_the_language_of_the_interface() {
    // AND(x,OR(y,z)) -> OR(AND(x,y),AND(x,z))
    let term = and(c(Bool::X), or(c(Bool::Y), c(Bool::Z)));
    assert_eq!(
        transformation_defactorize_left_distributive::<BooleanLogic>(&term),
        Some(or(and(c(Bool::X), c(Bool::Y)), and(c(Bool::X), c(Bool::Z))))
    );
    assert_eq!(transformation_defactorize_right_distributive::<BooleanLogic>(&term), None);
    // AND(OR(y,z),x) -> OR(AND(y,x),AND(z,x))
    let term = and(or(c(Bool::Y), c(Bool::Z)), c(Bool::X));
    assert_eq!(
        transformation_defactorize_right_distributive::<BooleanLogic>(&term),
        Some(or(and(c(Bool::Y), c(Bool::X)), and(c(Bool::Z), c(Bool::X))))
    );
    assert_eq!(transformation_defactorize_left_distributive::<BooleanLogic>(&term), None);
    let term = or(c(Bool::X), and(c(Bool::Y), c(Bool::Z)));
    assert_eq!(transformation_defactorize_left_distributive::<BooleanLogic>(&term), None);
}

#[test]
fn builtin_transformations_by_name() {
    let flush_right = BuiltinRewriteTransformations::AssociativeFlushRight;
    let term = or(or(c(Bool::X), c(Bool::Y)), c(Bool::Z));
    assert_eq!(
        flush_right.try_apply::<BooleanLogic>(&term),
        Some(or(c(Bool::X), or(c(Bool::Y), c(Bool::Z))))
    );
    assert_eq!(
        BuiltinRewriteTransformations::AssociativeFlushLeft
            .try_apply::<BooleanLogic>(&or(c(Bool::X), or(c(Bool::Y), c(Bool::Z)))),
        Some(term.clone())
    );
    assert_eq!(
        BuiltinRewriteTransformations::ReorderOperandsIfCommutative
            .try_apply::<BooleanLogic>(&and(c(Bool::Y), c(Bool::X))),
        Some(and(c(Bool::X), c(Bool::Y)))
    );
    assert_eq!(
        BuiltinRewriteTransformations::ReorderOperandsIfCommutative
            .try_apply::<BooleanLogic>(&and(c(Bool::X), c(Bool::Y))),
        None
    );
    assert_eq!(
        BuiltinRewriteTransformations::SimplifyBinaryNeutral.try_apply::<BooleanLogic>(&and(c(Bool::X), c(Bool::TRUE))),
        Some(c(Bool::X))
    );
    assert_eq!(
        BuiltinRewriteTransformations::SimplifyUnaryFixpoint
            .try_apply::<BooleanLogic>(&LanguageTerm::new(Bool::ID, vec![c(Bool::FALSE)])),
        Some(c(Bool::FALSE))
    );
    assert_eq!(
        BuiltinRewriteTransformations::SimplifyCompositionsOfUnaryOperators
            .try_apply::<BooleanLogic>(&neg(neg(c(Bool::X)))),
        Some(LanguageTerm::new(Bool::ID, vec![c(Bool::X)]))
    );
    assert_eq!(
        BuiltinRewriteTransformations::DeduplicateUnderBinaryIdempotent
            .try_apply::<BooleanLogic>(&and(c(Bool::X), c(Bool::X))),
        Some(c(Bool::X))
    );
    let developed = or(and(c(Bool::X), c(Bool::Y)), and(c(Bool::X), c(Bool::Z)));
    let factorized = and(c(Bool::X), or(c(Bool::Y), c(Bool::Z)));
    assert_eq!(
        BuiltinRewriteTransformations::FactorizeLeftDistributive.try_apply::<BooleanLogic>(&developed),
        Some(factorized.clone())
    );
    assert_eq!(
        BuiltinRewriteTransformations::DeFactorizeLeftDistributive.try_apply::<BooleanLogic>(&factorized),
        Some(developed.clone())
    );
    assert_eq!(BuiltinRewriteTransformations::FactorizeRightDistributive.try_apply::<BooleanLogic>(&developed), None);
    let developed = or(and(c(Bool::Y), c(Bool::X)), and(c(Bool::Z), c(Bool::X)));
    let factorized = and(or(c(Bool::Y), c(Bool::Z)), c(Bool::X));
    assert_eq!(
        BuiltinRewriteTransformations::FactorizeRightDistributive.try_apply::<BooleanLogic>(&developed),
        Some(factorized.clone())
    );
    assert_eq!(
        BuiltinRewriteTransformations::DeFactorizeRightDistributive.try_apply::<BooleanLogic>(&factorized),
        Some(developed)
    );
    assert_eq!(
        flush_right.get_transformation_kind::<BooleanLogic>(),
        BuiltinRewriteTransformations::AssociativeFlushRight
    );
}

/// The formulae of a domain of its own.
#[derive(Clone, PartialEq, Eq, Debug)]
enum Formula {
    Variable(Bool),
    Not(Box<Formula>),
    Both(Box<Formula>, Box<Formula>),
}

impl FromDomainSpecificTermToRewritableTerm<Bool> for Formula {
    fn get_operator_at_root(&self) -> Bool {
        match self {
            Formula::Variable(name) => *name,
            Formula::Not(_) => Bool::NEG,
            Formula::Both(_, _) => Bool::AND,
        }
    }

    fn get_subterms<'a>(&'a self) -> Vec<&'a Self> {
        match self {
            Formula::Variable(_) => vec![],
            Formula::Not(x) => vec![x],
            Formula::Both(x, y) => vec![x, y],
        }
    }
}

impl FromRewritableTermToDomainSpecificTerm<Bool> for Formula {
    fn instantiate_term_under_operator(operator: &Bool, sub_terms: &mut Vec<Self>) -> Self {
        match operator {
            Bool::NEG => Formula::Not(Box::new(sub_terms.remove(0))),
            Bool::AND => {
                let left = sub_terms.remove(0);
                let right = sub_terms.remove(0);
                Formula::Both(Box::new(left), Box::new(right))
            }
            name => Formula::Variable(*name),
        }
    }
}

#[test]
fn terms_of_a_domain_are_converted_both_ways() {
    let formula = Formula::Both(
        Box::new(Formula::Not(Box::new(Formula::Variable(Bool::X)))),
        Box::new(Formula::Variable(Bool::Y)),
    );
    let term = to_rewritable_term(&formula);
    assert_eq!(term, and(neg(c(Bool::X)), c(Bool::Y)));
    let back: Formula = from_rewritable_term(&term);
    assert_eq!(back, formula);
}

struct IsConstant {}

impl PredicateOnTerm<Bool> for IsConstant {
    fn term_satisfies(&self, term: &Term) -> bool {
        term.sub_terms.is_empty()
    }

    fn get_desc(&self) -> String {
        "is a constant".to_string()
    }
}

#[test]
fn filters_stop_the_exploration() {
    let context: RewritingProcessContextAndParameterization<Bool> =
        RewritingProcessContextAndParameterization::new(vec![], false);
    let node = RewriteNodeKind::new(neg(c(Bool::X)), 0);
    let mut state = RewritingProcessState::get_initial_state(&context, &node);
    let step: RewriteStepKind<Bool> = RewriteStepKind::GoToSuccessorPhase(false);
    let filter = RewriteStepFilter::MaxNodeNumber(2);
    assert!(filter.apply_filter(&context, &state, &node, &step).is_none());
    state.update_on_node_reached(&context, &node);
    assert!(filter.apply_filter(&context, &state, &node, &step).is_none());
    state.update_on_node_reached(&context, &node);
    assert_eq!(state.node_count, 2);
    assert!(matches!(
        filter.apply_filter(&context, &state, &node, &step),
        Some(RewritingFiltrationResult::MaxNodeNumber)
    ));

    let pre_filter: RewriteNodePreFilter<Bool> = RewriteNodePreFilter::MustSatPredicate(Box::new(IsConstant {}));
    match pre_filter.apply_filter(&context, &state, &node) {
        Some(RewritingFiltrationResult::PredicateUnsat(desc)) => assert_eq!(desc, "is a constant"),
        _ => panic!("the node is to be filtered out"),
    }
    let constant = RewriteNodeKind::new(c(Bool::X), 0);
    assert!(pre_filter.apply_filter(&context, &state, &constant).is_none());

    let criterion = RewriteFilterCriterion {};
    assert_eq!(RewriteFilter::MaxProcessDepth(3).apply_filter(3, 100, &criterion), None);
    assert_eq!(
        RewriteFilter::MaxProcessDepth(3).apply_filter(4, 0, &criterion),
        Some(RewriteFilterEliminationKind::MaxProcessDepth)
    );
    assert_eq!(RewriteFilter::MaxNodeNumber(3).apply_filter(100, 2, &criterion), None);
    assert_eq!(
        RewriteFilter::MaxNodeNumber(3).apply_filter(0, 3, &criterion),
        Some(RewriteFilterEliminationKind::MaxNodeNumber)
    );
    assert_eq!(RewritePriorities {}.get_priority_of_step(&step), 0);
}

#[test]
fn a_set_of_terms_holds_each_term_once() {
    let mut set: TermSet<Bool> = TermSet::new();
    assert_eq!(set.len(), 0);
    assert!(set.insert(c(Bool::X)));
    assert!(set.insert(neg(c(Bool::X))));
    assert!(!set.insert(c(Bool::X)));
    assert_eq!(set.len(), 2);
    assert!(set.contains(&neg(c(Bool::X))));
    assert!(!set.contains(&c(Bool::Y)));
    assert_eq!(set.as_slice(), &[c(Bool::X), neg(c(Bool::X))]);
    let single = TermSet::singleton(c(Bool::Y));
    assert_eq!(single.as_slice(), &[c(Bool::Y)]);
}

#[test]
fn nodes_are_memoized_by_term_and_phase() {
    let node = RewriteNodeKind::new(neg(c(Bool::X)), 1);
    assert!(node.is_included_for_memoization(&RewriteNodeKind::new(neg(c(Bool::X)), 1)));
    assert!(!node.is_included_for_memoization(&RewriteNodeKind::new(neg(c(Bool::X)), 0)));
    assert!(!node.is_included_for_memoization(&RewriteNodeKind::new(neg(c(Bool::Y)), 1)));
}
