use simple_term_rewriter::builtin_trs::builtin_transfo::{
    BuiltinRewriteTransformation, BuiltinRewriteTransformationKind,
};
use simple_term_rewriter::builtin_trs::rules::factorization::defactorize::{
    transformation_defactorize_left_distributive, transformation_defactorize_right_distributive,
};
use simple_term_rewriter::builtin_trs::rules::factorization::distributivity_checker::DistributivityChecker;
use simple_term_rewriter::builtin_trs::rules::factorization::factorize_modulo_ac::{
    transformation_factorize_left_distributive_modulo_ac, transformation_factorize_right_distributive_modulo_ac,
};
use simple_term_rewriter::builtin_trs::rules::factorization::factorize_simple::{
    transformation_factorize_left_distributive, transformation_factorize_right_distributive,
};
use simple_term_rewriter::builtin_trs::rules::flush::{
    transformation_flush_to_the_left, transformation_flush_to_the_right, AssociativityChecker,
};
use simple_term_rewriter::builtin_trs::rules::modulo_associative_flattened_transfo::{
    transformation_modulo_associative_generic_flattened_transfo, ModuloAssociativeGenericFlattenedChecker,
};
use simple_term_rewriter::builtin_trs::rules::reorder_commute::{
    transformation_reorder_subterms_under_commutative_operator, CommutativeCheckerAndOrderer,
};
use simple_term_rewriter::builtin_trs::rules::simpl_binary::{
    transformation_generic_simpl_under_binary_operator, GenericBinaryOperatorSimplifier,
};
use simple_term_rewriter::builtin_trs::rules::simpl_unary::{
    transformation_generic_simpl_under_unary_operator, GenericUnaryOperatorSimplifier,
};
use simple_term_rewriter::builtin_trs::util::{
    is_greater_as_per_lexicographic_path_ordering, lexicographic_path_ordering, term_respects_arity,
    OperatorPrecedence,
};
use simple_term_rewriter::rewriting_core::apply::get_transformations;
use simple_term_rewriter::rewriting_core::rule::RewriteRule;
use simple_term_rewriter::rewriting_core::terms::position::PositionInLanguageTerm;
use simple_term_rewriter::rewriting_core::terms::term::{LanguageTerm, RewritableLanguageOperatorSymbol};
use std::cmp::Ordering;

/// A small algebra: the constants come first in the order of the operators,
/// then the unary star, then the product and the sum.
#[derive(Clone, Copy, PartialEq, Eq, PartialOrd, Ord, Hash, Debug)]
enum Op {
    Zero,
    A,
    B,
    C,
    D,
    Star,
    Times,
    Meet,
    Plus,
}

impl RewritableLanguageOperatorSymbol for Op {
    fn symbol_laws() {}
}

type Term = LanguageTerm<Op>;

fn c(op: Op) -> Term {
    LanguageTerm::new(op, vec![])
}

fn star(x: Term) -> Term {
    LanguageTerm::new(Op::Star, vec![x])
}

fn times(x: Term, y: Term) -> Term {
    LanguageTerm::new(Op::Times, vec![x, y])
}

fn plus(x: Term, y: Term) -> Term {
    LanguageTerm::new(Op::Plus, vec![x, y])
}

fn root() -> PositionInLanguageTerm {
    PositionInLanguageTerm::get_root_position()
}

fn arity(op: &Op) -> usize {
    match op {
        Op::Times | Op::Meet | Op::Plus => 2,
        Op::Star => 1,
        _ => 0,
    }
}

struct Algebra {}

impl OperatorPrecedence<Op> for Algebra {
    fn compare_operators(&self, op1: &Op, op2: &Op) -> Ordering {
        op1.cmp(op2)
    }

    fn get_arity(&self, op: &Op) -> usize {
        arity(op)
    }
}

impl AssociativityChecker<Op> for Algebra {
    fn is_binary_associative(&self, op: &Op) -> bool {
        matches!(op, Op::Times | Op::Plus)
    }
}

impl CommutativeCheckerAndOrderer<Op> for Algebra {
    fn is_a_binary_operator_we_may_consider(&self, op: &Op) -> bool {
        matches!(op, Op::Plus)
    }

    fn may_commute_under(&self, _parent_op: &Op, _left_sub_term: &Term, _right_sub_term: &Term) -> bool {
        true
    }

    fn compare_operators(&self, op1: &Op, op2: &Op) -> Ordering {
        op1.cmp(op2)
    }

    fn get_arity(&self, op: &Op) -> usize {
        arity(op)
    }

    fn is_associative(&self, op: &Op) -> bool {
        matches!(op, Op::Times | Op::Plus)
    }
}

impl DistributivityChecker<Op> for Algebra {
    fn is_binary(&self, op: &Op) -> bool {
        arity(op) == 2
    }

    fn is_associative(&self, op: &Op) -> bool {
        matches!(op, Op::Times | Op::Plus)
    }

    fn is_commutative(&self, op: &Op) -> bool {
        matches!(op, Op::Plus)
    }

    fn is_left_distributive_over(&self, op1: &Op, op2: &Op) -> bool {
        matches!((op1, op2), (Op::Times, Op::Plus))
    }

    fn is_right_distributive_over(&self, op1: &Op, op2: &Op) -> bool {
        matches!((op1, op2), (Op::Times, Op::Plus))
    }

    fn get_empty_operation_symbol(&self) -> Op {
        Op::Zero
    }
}

/// Only the product is distributive on the left: what a rule makes of the
/// right is then seen to ask for the right.
struct LeftOnly {}

impl DistributivityChecker<Op> for LeftOnly {
    fn is_binary(&self, op: &Op) -> bool {
        arity(op) == 2
    }

    fn is_associative(&self, _op: &Op) -> bool {
        false
    }

    fn is_commutative(&self, op: &Op) -> bool {
        matches!(op, Op::Plus)
    }

    fn is_left_distributive_over(&self, op1: &Op, op2: &Op) -> bool {
        matches!((op1, op2), (Op::Times, Op::Plus))
    }

    fn is_right_distributive_over(&self, _op1: &Op, _op2: &Op) -> bool {
        false
    }

    fn get_empty_operation_symbol(&self) -> Op {
        Op::Zero
    }
}

/// Two operators are distributive over the sum.
struct TwoProducts {}

impl DistributivityChecker<Op> for TwoProducts {
    fn is_binary(&self, op: &Op) -> bool {
        arity(op) == 2
    }

    fn is_associative(&self, op: &Op) -> bool {
        matches!(op, Op::Plus)
    }

    fn is_commutative(&self, op: &Op) -> bool {
        matches!(op, Op::Plus)
    }

    fn is_left_distributive_over(&self, op1: &Op, op2: &Op) -> bool {
        matches!((op1, op2), (Op::Times, Op::Plus) | (Op::Meet, Op::Plus))
    }

    fn is_right_distributive_over(&self, _op1: &Op, _op2: &Op) -> bool {
        false
    }

    fn get_empty_operation_symbol(&self) -> Op {
        Op::Zero
    }
}

#[test]
fn an_operand_may_go_into_the_factorized_terms_of_two_operators() {
    let checker: Box<dyn DistributivityChecker<Op>> = Box::new(TwoProducts {});
    let meet = |x: Term, y: Term| LanguageTerm::new(Op::Meet, vec![x, y]);
    // A*B + A*C + A*B + (D meet A): A is shared under the product, and A*B, as a whole, under the meet
    let term = plus(
        times(c(Op::A), c(Op::B)),
        plus(
            times(c(Op::A), c(Op::C)),
            plus(times(c(Op::A), c(Op::B)), meet(c(Op::D), c(Op::A))),
        ),
    );
    assert_eq!(
        transformation_factorize_left_distributive_modulo_ac(&checker, &term, &term, &root()),
        Some(plus(
            meet(c(Op::D), c(Op::A)),
            plus(
                times(c(Op::A), plus(c(Op::B), plus(c(Op::C), c(Op::B)))),
                meet(times(c(Op::A), c(Op::B)), plus(c(Op::Zero), c(Op::Zero)))
            )
        ))
    );
}

#[test]
fn flush_to_the_right_and_to_the_left() {
    let checker: Box<dyn AssociativityChecker<Op>> = Box::new(Algebra {});
    let left_leaning = plus(plus(c(Op::A), c(Op::B)), c(Op::C));
    let right_leaning = plus(c(Op::A), plus(c(Op::B), c(Op::C)));
    assert_eq!(
        transformation_flush_to_the_right(&checker, &left_leaning, &left_leaning, &root()),
        Some(right_leaning.clone())
    );
    assert_eq!(
        transformation_flush_to_the_left(&checker, &right_leaning, &right_leaning, &root()),
        Some(left_leaning.clone())
    );
    assert_eq!(transformation_flush_to_the_right(&checker, &right_leaning, &right_leaning, &root()), None);
    assert_eq!(transformation_flush_to_the_left(&checker, &left_leaning, &left_leaning, &root()), None);
    // another operator underneath
    let mixed = plus(times(c(Op::A), c(Op::B)), c(Op::C));
    assert_eq!(transformation_flush_to_the_right(&checker, &mixed, &mixed, &root()), None);
    // an operator that is not associative
    let starred = star(star(c(Op::A)));
    assert_eq!(transformation_flush_to_the_right(&checker, &starred, &starred, &root()), None);
    // a term that does not have the two sub-terms of a binary operator is declined
    let short = LanguageTerm::new(Op::Plus, vec![c(Op::A)]);
    assert_eq!(transformation_flush_to_the_right(&checker, &short, &short, &root()), None);
    assert_eq!(transformation_flush_to_the_left(&checker, &short, &short, &root()), None);
}

#[test]
fn the_ordering_of_terms_follows_the_ordering_of_operators() {
    let algebra = Algebra {};
    // the greater operator at the root dominates where the term dominates every sub-term of the other
    assert!(is_greater_as_per_lexicographic_path_ordering(&c(Op::B), &c(Op::A), &algebra));
    assert!(!is_greater_as_per_lexicographic_path_ordering(&c(Op::A), &c(Op::B), &algebra));
    assert!(!is_greater_as_per_lexicographic_path_ordering(&c(Op::A), &c(Op::A), &algebra));
    assert!(is_greater_as_per_lexicographic_path_ordering(&star(c(Op::A)), &c(Op::D), &algebra));
    // Plus > Times, but Plus(A,A) does not dominate the sub-term Plus(B,B) of the product
    let sum = plus(c(Op::A), c(Op::A));
    let product = times(plus(c(Op::B), c(Op::B)), c(Op::A));
    assert!(!is_greater_as_per_lexicographic_path_ordering(&sum, &product, &algebra));
    assert!(is_greater_as_per_lexicographic_path_ordering(&product, &sum, &algebra));
    // the lesser operator at the root dominates where a sub-term is the other term
    assert!(is_greater_as_per_lexicographic_path_ordering(&star(sum.clone()), &sum, &algebra));
    // equal operators: the first pair of sub-terms that differ decides
    assert!(is_greater_as_per_lexicographic_path_ordering(
        &plus(c(Op::A), c(Op::C)),
        &plus(c(Op::A), c(Op::B)),
        &algebra
    ));
    assert!(!is_greater_as_per_lexicographic_path_ordering(
        &plus(c(Op::A), c(Op::C)),
        &plus(c(Op::B), c(Op::A)),
        &algebra
    ));
    assert_eq!(lexicographic_path_ordering(&c(Op::A), &c(Op::A), &algebra), Ordering::Equal);
    assert_eq!(lexicographic_path_ordering(&c(Op::B), &c(Op::A), &algebra), Ordering::Greater);
    assert_eq!(lexicographic_path_ordering(&c(Op::A), &c(Op::B), &algebra), Ordering::Less);
}

#[test]
fn of_two_terms_one_dominates_the_other_or_they_are_equal() {
    let algebra = Algebra {};
    let terms = vec![
        c(Op::A),
        c(Op::B),
        star(c(Op::A)),
        star(star(c(Op::B))),
        plus(c(Op::A), c(Op::B)),
        plus(c(Op::B), c(Op::A)),
        times(c(Op::A), star(c(Op::A))),
        times(plus(c(Op::A), c(Op::B)), c(Op::Zero)),
        plus(times(c(Op::A), c(Op::B)), star(c(Op::C))),
    ];
    for s in &terms {
        for t in &terms {
            let forth = is_greater_as_per_lexicographic_path_ordering(s, t, &algebra);
            let back = is_greater_as_per_lexicographic_path_ordering(t, s, &algebra);
            let cases = [s == t, forth, back].iter().filter(|x| **x).count();
            assert_eq!(cases, 1);
        }
    }
}

#[test]
fn arities_are_checked_down_to_the_constants() {
    let algebra = Algebra {};
    assert!(term_respects_arity(&plus(star(c(Op::A)), c(Op::B)), &algebra));
    assert!(!term_respects_arity(&plus(star(c(Op::A)), LanguageTerm::new(Op::B, vec![c(Op::A)])), &algebra));
    assert!(!term_respects_arity(&LanguageTerm::new(Op::Plus, vec![c(Op::A)]), &algebra));
}

#[test]
fn commutative_reordering_reaches_a_fixpoint() {
    let checker: Box<dyn CommutativeCheckerAndOrderer<Op>> = Box::new(Algebra {});
    // op(y,x) -> op(x,y) where x < y
    let term = plus(c(Op::B), c(Op::A));
    let reordered =
        transformation_reorder_subterms_under_commutative_operator(&checker, &term, &term, &root()).unwrap();
    assert_eq!(reordered, plus(c(Op::A), c(Op::B)));
    assert_eq!(
        transformation_reorder_subterms_under_commutative_operator(&checker, &reordered, &reordered, &root()),
        None
    );
    // op(y,op(x,z)) -> op(x,op(y,z))
    let nested = plus(c(Op::B), plus(c(Op::A), c(Op::C)));
    assert_eq!(
        transformation_reorder_subterms_under_commutative_operator(&checker, &nested, &nested, &root()),
        Some(plus(c(Op::A), plus(c(Op::B), c(Op::C))))
    );
    // op(op(z,y),x) -> op(op(z,x),y)
    let nested = plus(plus(c(Op::A), c(Op::C)), c(Op::D));
    assert_eq!(
        transformation_reorder_subterms_under_commutative_operator(&checker, &nested, &nested, &root()),
        Some(plus(c(Op::D), plus(c(Op::A), c(Op::C))))
    );
    let nested = plus(plus(c(Op::A), c(Op::C)), c(Op::B));
    assert_eq!(
        transformation_reorder_subterms_under_commutative_operator(&checker, &nested, &nested, &root()),
        Some(plus(c(Op::B), plus(c(Op::A), c(Op::C))))
    );
    // the product is not commutative
    let product = times(c(Op::B), c(Op::A));
    assert_eq!(
        transformation_reorder_subterms_under_commutative_operator(&checker, &product, &product, &root()),
        None
    );
    // a term that does not respect the arities is declined
    let odd = plus(c(Op::B), LanguageTerm::new(Op::A, vec![c(Op::A)]));
    assert_eq!(transformation_reorder_subterms_under_commutative_operator(&checker, &odd, &odd, &root()), None);
}

#[test]
fn simple_factorization_and_development() {
    let checker: Box<dyn DistributivityChecker<Op>> = Box::new(Algebra {});
    let developed = plus(times(c(Op::A), c(Op::B)), times(c(Op::A), c(Op::C)));
    let factorized = times(c(Op::A), plus(c(Op::B), c(Op::C)));
    assert_eq!(
        transformation_factorize_left_distributive(&checker, &developed, &developed, &root()),
        Some(factorized.clone())
    );
    assert_eq!(
        transformation_defactorize_left_distributive(&checker, &factorized, &factorized, &root()),
        Some(developed.clone())
    );
    assert_eq!(transformation_factorize_right_distributive(&checker, &developed, &developed, &root()), None);
    let developed = plus(times(c(Op::B), c(Op::A)), times(c(Op::C), c(Op::A)));
    let factorized = times(plus(c(Op::B), c(Op::C)), c(Op::A));
    assert_eq!(
        transformation_factorize_right_distributive(&checker, &developed, &developed, &root()),
        Some(factorized.clone())
    );
    assert_eq!(
        transformation_defactorize_right_distributive(&checker, &factorized, &factorized, &root()),
        Some(developed.clone())
    );
    assert_eq!(transformation_factorize_left_distributive(&checker, &developed, &developed, &root()), None);
    // the sum is not distributive over the product
    let other = times(plus(c(Op::A), c(Op::B)), plus(c(Op::A), c(Op::C)));
    assert_eq!(transformation_factorize_left_distributive(&checker, &other, &other, &root()), None);
    assert_eq!(transformation_defactorize_left_distributive(&checker, &developed, &developed, &root()), None);
}

#[test]
fn factorization_on_the_right_asks_for_distributivity_on_the_right() {
    let checker: Box<dyn DistributivityChecker<Op>> = Box::new(LeftOnly {});
    let developed = plus(times(c(Op::B), c(Op::A)), times(c(Op::C), c(Op::A)));
    assert_eq!(transformation_factorize_right_distributive(&checker, &developed, &developed, &root()), None);
    let factorized = times(plus(c(Op::B), c(Op::C)), c(Op::A));
    assert_eq!(transformation_defactorize_right_distributive(&checker, &factorized, &factorized, &root()), None);
}

#[test]
fn factorization_modulo_associativity_and_commutativity() {
    let checker: Box<dyn DistributivityChecker<Op>> = Box::new(Algebra {});
    // A*B + C + A*D  ->  C + A*(B + D)
    let term = plus(times(c(Op::A), c(Op::B)), plus(c(Op::C), times(c(Op::A), c(Op::D))));
    assert_eq!(
        transformation_factorize_left_distributive_modulo_ac(&checker, &term, &term, &root()),
        Some(plus(c(Op::C), times(c(Op::A), plus(c(Op::B), c(Op::D)))))
    );
    // B*A + C + D*A  ->  C + (B + D)*A
    let term = plus(times(c(Op::B), c(Op::A)), plus(c(Op::C), times(c(Op::D), c(Op::A))));
    assert_eq!(
        transformation_factorize_right_distributive_modulo_ac(&checker, &term, &term, &root()),
        Some(plus(c(Op::C), times(plus(c(Op::B), c(Op::D)), c(Op::A))))
    );
    // the factor is the first operand of a chain of products: A*B*C + A*D -> A*(B*C + D)
    let term = plus(times(c(Op::A), times(c(Op::B), c(Op::C))), times(c(Op::A), c(Op::D)));
    assert_eq!(
        transformation_factorize_left_distributive_modulo_ac(&checker, &term, &term, &root()),
        Some(times(c(Op::A), plus(times(c(Op::B), c(Op::C)), c(Op::D))))
    );
    // an operand that is the factor itself leaves the empty operation: A*B + A -> A*(B + 0)
    let term = plus(times(c(Op::A), c(Op::B)), c(Op::A));
    assert_eq!(
        transformation_factorize_left_distributive_modulo_ac(&checker, &term, &term, &root()),
        Some(times(c(Op::A), plus(c(Op::B), c(Op::Zero))))
    );
    // two groups are factored out in one application: A*B + C*B + A*D + C*D -> A*(B+D) + C*(B+D)
    let term = plus(
        times(c(Op::A), c(Op::B)),
        plus(times(c(Op::C), c(Op::B)), plus(times(c(Op::A), c(Op::D)), times(c(Op::C), c(Op::D)))),
    );
    assert_eq!(
        transformation_factorize_left_distributive_modulo_ac(&checker, &term, &term, &root()),
        Some(plus(
            times(c(Op::A), plus(c(Op::B), c(Op::D))),
            times(c(Op::C), plus(c(Op::B), c(Op::D)))
        ))
    );
    // nothing is shared
    let term = plus(times(c(Op::A), c(Op::B)), times(c(Op::C), c(Op::D)));
    assert_eq!(transformation_factorize_left_distributive_modulo_ac(&checker, &term, &term, &root()), None);
    // the product is not commutative
    let term = times(plus(c(Op::A), c(Op::B)), plus(c(Op::A), c(Op::C)));
    assert_eq!(transformation_factorize_left_distributive_modulo_ac(&checker, &term, &term, &root()), None);
}

struct Simplifier {}

impl GenericBinaryOperatorSimplifier<Op> for Simplifier {
    fn is_binary(&self, op: &Op) -> bool {
        arity(op) == 2
    }

    fn try_simplify_under_binary_operator(&self, top_operator: &Op, left: &Term, right: &Term) -> Option<Term> {
        match top_operator {
            Op::Plus if left.operator == Op::Zero => Some(right.clone()),
            Op::Plus if right.operator == Op::Zero => Some(left.clone()),
            Op::Plus if left == right => Some(left.clone()),
            _ => None,
        }
    }
}

impl GenericUnaryOperatorSimplifier<Op> for Simplifier {
    fn is_unary(&self, op: &Op) -> bool {
        arity(op) == 1
    }

    fn try_simplify_under_unary_operator(&self, top_operator: &Op, term_underneath: &Term) -> Option<Term> {
        match (top_operator, &term_underneath.operator) {
            (Op::Star, Op::Star) => Some(term_underneath.clone()),
            (Op::Star, Op::Zero) => Some(term_underneath.clone()),
            _ => None,
        }
    }
}

#[test]
fn generic_simplification() {
    let binary: Box<dyn GenericBinaryOperatorSimplifier<Op>> = Box::new(Simplifier {});
    let unary: Box<dyn GenericUnaryOperatorSimplifier<Op>> = Box::new(Simplifier {});
    let term = plus(c(Op::Zero), c(Op::A));
    assert_eq!(transformation_generic_simpl_under_binary_operator(&binary, &term, &term, &root()), Some(c(Op::A)));
    let term = plus(c(Op::A), c(Op::A));
    assert_eq!(transformation_generic_simpl_under_binary_operator(&binary, &term, &term, &root()), Some(c(Op::A)));
    let term = plus(c(Op::A), c(Op::B));
    assert_eq!(transformation_generic_simpl_under_binary_operator(&binary, &term, &term, &root()), None);
    let term = star(c(Op::A));
    assert_eq!(transformation_generic_simpl_under_binary_operator(&binary, &term, &term, &root()), None);
    let term = star(star(c(Op::A)));
    assert_eq!(
        transformation_generic_simpl_under_unary_operator(&unary, &term, &term, &root()),
        Some(star(c(Op::A)))
    );
    let term = star(c(Op::A));
    assert_eq!(transformation_generic_simpl_under_unary_operator(&unary, &term, &term, &root()), None);
    let term = plus(c(Op::A), c(Op::A));
    assert_eq!(transformation_generic_simpl_under_unary_operator(&unary, &term, &term, &root()), None);
}

/// Keeps one of each operand of a sum, under a star where `under_star`.
struct Deduplicate {
    under_star: bool,
}

impl ModuloAssociativeGenericFlattenedChecker<Op> for Deduplicate {
    fn is_an_associative_binary_operator_we_may_consider(&self, op: &Op) -> bool {
        matches!(op, Op::Plus)
    }

    fn requires_a_specific_parent_operator(&self) -> bool {
        self.under_star
    }

    fn is_the_required_parent_operator(&self, op: &Op) -> bool {
        matches!(op, Op::Star)
    }

    fn transform_flattened_sub_terms(
        &self,
        _considered_ac_op: &Op,
        _considered_parent_op: Option<&Op>,
        flattened_subterms: Vec<&Term>,
    ) -> Option<Vec<Term>> {
        let mut kept: Vec<Term> = vec![];
        for operand in &flattened_subterms {
            if !kept.contains(*operand) {
                kept.push((*operand).clone());
            }
        }
        if kept.len() < flattened_subterms.len() {
            Some(kept)
        } else {
            None
        }
    }
}

#[test]
fn flattened_transformation() {
    let checker: Box<dyn ModuloAssociativeGenericFlattenedChecker<Op>> = Box::new(Deduplicate { under_star: false });
    // (A + (B + C)) + ((C + B) + A)  ->  A + (B + C)
    let term = plus(
        plus(c(Op::A), plus(c(Op::B), c(Op::C))),
        plus(plus(c(Op::C), c(Op::B)), c(Op::A)),
    );
    assert_eq!(
        transformation_modulo_associative_generic_flattened_transfo(&checker, &term, &term, &root()),
        Some(plus(c(Op::A), plus(c(Op::B), c(Op::C))))
    );
    // one operand is left: A + A -> A
    let term = plus(c(Op::A), c(Op::A));
    assert_eq!(
        transformation_modulo_associative_generic_flattened_transfo(&checker, &term, &term, &root()),
        Some(c(Op::A))
    );
    // nothing to drop
    let term = plus(c(Op::A), c(Op::B));
    assert_eq!(transformation_modulo_associative_generic_flattened_transfo(&checker, &term, &term, &root()), None);
    // under the same operator, the rewrite is left to the parent
    let context = plus(c(Op::B), plus(c(Op::A), c(Op::A)));
    let position = root().get_position_of_nth_child(1);
    let inner = context.get_sub_term_at_position(&position).unwrap();
    assert_eq!(
        transformation_modulo_associative_generic_flattened_transfo(&checker, inner, &context, &position),
        None
    );
    // under another operator it is made
    let context = star(plus(c(Op::A), c(Op::A)));
    let position = root().get_position_of_nth_child(0);
    let inner = context.get_sub_term_at_position(&position).unwrap();
    assert_eq!(
        transformation_modulo_associative_generic_flattened_transfo(&checker, inner, &context, &position),
        Some(c(Op::A))
    );
    // where a parent is required, there is none at the root
    let under_star: Box<dyn ModuloAssociativeGenericFlattenedChecker<Op>> = Box::new(Deduplicate { under_star: true });
    let term = plus(c(Op::A), c(Op::A));
    assert_eq!(
        transformation_modulo_associative_generic_flattened_transfo(&under_star, &term, &term, &root()),
        None
    );
    // and the result is set under the parent that was required
    assert_eq!(
        transformation_modulo_associative_generic_flattened_transfo(&under_star, inner, &context, &position),
        Some(star(c(Op::A)))
    );
    let context = times(plus(c(Op::A), c(Op::A)), c(Op::B));
    let inner = context.get_sub_term_at_position(&position).unwrap();
    assert_eq!(
        transformation_modulo_associative_generic_flattened_transfo(&under_star, inner, &context, &position),
        None
    );
}

#[test]
fn builtin_transformations_are_rewrite_rules() {
    let flush = BuiltinRewriteTransformation {
        kind: BuiltinRewriteTransformationKind::AssociativeFlushRight(Box::new(Algebra {})),
        desc: "flush right".to_string(),
    };
    let reorder = BuiltinRewriteTransformation {
        kind: BuiltinRewriteTransformationKind::ReorderOperandsIfCommuteBasic(Box::new(Algebra {})),
        desc: "reorder".to_string(),
    };
    assert_eq!(flush.get_desc(), "flush right");
    let rules: Vec<Box<dyn RewriteRule<Op>>> = vec![Box::new(flush), Box::new(reorder)];
    // (B + A) + C: the flush at the root, the reordering at the root and at [0]
    let term = plus(plus(c(Op::B), c(Op::A)), c(Op::C));
    let got = get_transformations(0, &rules, &term, false);
    assert_eq!(got.len(), 3);
    assert_eq!(got[0].rule_index_in_phase, 0);
    assert_eq!(got[0].position, root());
    assert_eq!(got[0].result, plus(c(Op::B), plus(c(Op::A), c(Op::C))));
    assert_eq!(got[1].rule_index_in_phase, 1);
    assert_eq!(got[1].position, root());
    assert_eq!(got[1].result, plus(c(Op::C), plus(c(Op::B), c(Op::A))));
    assert_eq!(got[2].rule_index_in_phase, 1);
    assert_eq!(got[2].position, PositionInLanguageTerm::from_absolute_coordinates(vec![0]));
    assert_eq!(got[2].result, plus(plus(c(Op::A), c(Op::B)), c(Op::C)));
}
