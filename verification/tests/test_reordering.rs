use simple_term_rewriter::builtin_trs::rules::modulo_ac_reorderer::{
    transformation_modulo_assoc_partial_reordering, ModuloAssociativePartialReorderer,
};
use simple_term_rewriter::builtin_trs::util::{
    fold_associative_sub_terms_recursively, get_associative_sub_terms_recursively,
};
use simple_term_rewriter::rewriting_core::terms::position::PositionInLanguageTerm;
use simple_term_rewriter::rewriting_core::terms::term::{LanguageTerm, RewritableLanguageOperatorSymbol};

#[derive(Clone, PartialEq, Eq, Hash, Debug)]
enum TestOperator {
    USIZE(usize),
    STOP,
    THEN,
}

impl RewritableLanguageOperatorSymbol for TestOperator {
    fn symbol_laws() {}
}

struct ReordererChecker {}

impl ModuloAssociativePartialReorderer<TestOperator> for ReordererChecker {
    fn is_an_associative_partially_commutative_binary_operator_we_may_consider(&self, op: &TestOperator) -> bool {
        op == &TestOperator::THEN
    }

    fn may_commute_under(
        &self,
        parent_op: &TestOperator,
        left_sub_term: &LanguageTerm<TestOperator>,
        right_sub_term: &LanguageTerm<TestOperator>,
    ) -> bool {
        assert!(parent_op == &TestOperator::THEN);
        left_sub_term.operator != TestOperator::STOP && right_sub_term.operator != TestOperator::STOP
    }

    fn compare_operators(&self, op1: &TestOperator, op2: &TestOperator) -> std::cmp::Ordering {
        match (op1, op2) {
            (TestOperator::USIZE(u1), TestOperator::USIZE(u2)) => usize::cmp(u1, u2),
            (TestOperator::USIZE(_), _) => std::cmp::Ordering::Less,
            (_, TestOperator::USIZE(_)) => std::cmp::Ordering::Greater,
            (TestOperator::STOP, TestOperator::STOP) => std::cmp::Ordering::Equal,
            (TestOperator::STOP, _) => std::cmp::Ordering::Less,
            (_, TestOperator::STOP) => std::cmp::Ordering::Greater,
            (TestOperator::THEN, TestOperator::THEN) => std::cmp::Ordering::Equal,
        }
    }

    fn get_arity(&self, op: &TestOperator) -> usize {
        match op {
            TestOperator::THEN => 2,
            _ => 0,
        }
    }
}

fn chain_of(operators: Vec<TestOperator>) -> LanguageTerm<TestOperator> {
    let mut sub_terms: Vec<LanguageTerm<TestOperator>> =
        operators.into_iter().map(|x| LanguageTerm::new(x, vec![])).collect();
    fold_associative_sub_terms_recursively(&TestOperator::THEN, &mut sub_terms, &None)
}

fn operands_of(term: &LanguageTerm<TestOperator>) -> Vec<TestOperator> {
    get_associative_sub_terms_recursively(term, &TestOperator::THEN)
        .into_iter()
        .map(|x| x.operator.clone())
        .collect()
}

#[test]
fn test_reordering() {
    let term = chain_of(vec![
        TestOperator::USIZE(3),
        TestOperator::USIZE(9),
        TestOperator::USIZE(7),
        TestOperator::STOP,
        TestOperator::USIZE(4),
        TestOperator::USIZE(10),
        TestOperator::STOP,
        TestOperator::USIZE(2),
        TestOperator::USIZE(1),
        TestOperator::USIZE(6),
    ]);
    let reordered: Box<dyn ModuloAssociativePartialReorderer<TestOperator>> = Box::new(ReordererChecker {});

    let got = transformation_modulo_assoc_partial_reordering(
        &reordered,
        &term,
        &term,
        &PositionInLanguageTerm::get_root_position(),
    );
    assert!(got.is_some());
    if let Some(reordered) = got {
        let flattened_reordered: Vec<TestOperator> = operands_of(&reordered);
        assert_eq!(
            flattened_reordered,
            vec![
                TestOperator::USIZE(3),
                TestOperator::USIZE(7),
                TestOperator::USIZE(9),
                TestOperator::STOP,
                TestOperator::USIZE(4),
                TestOperator::USIZE(10),
                TestOperator::STOP,
                TestOperator::USIZE(1),
                TestOperator::USIZE(2),
                TestOperator::USIZE(6)
            ]
        );
    }
}

#[test]
fn reordering_leaves_an_ordered_chain_alone() {
    let term = chain_of(vec![TestOperator::USIZE(1), TestOperator::USIZE(2), TestOperator::STOP, TestOperator::USIZE(0)]);
    let checker: Box<dyn ModuloAssociativePartialReorderer<TestOperator>> = Box::new(ReordererChecker {});
    let got = transformation_modulo_assoc_partial_reordering(
        &checker,
        &term,
        &term,
        &PositionInLanguageTerm::get_root_position(),
    );
    assert!(got.is_none());
}

#[test]
fn reordering_is_left_to_the_top_of_the_chain() {
    let term = chain_of(vec![TestOperator::USIZE(5), TestOperator::USIZE(4), TestOperator::USIZE(3)]);
    let checker: Box<dyn ModuloAssociativePartialReorderer<TestOperator>> = Box::new(ReordererChecker {});
    let inner_position = PositionInLanguageTerm::get_root_position().get_position_of_nth_child(1);
    let inner = term.get_sub_term_at_position(&inner_position).unwrap();
    let got = transformation_modulo_assoc_partial_reordering(&checker, inner, &term, &inner_position);
    assert!(got.is_none());
    let at_root = transformation_modulo_assoc_partial_reordering(
        &checker,
        &term,
        &term,
        &PositionInLanguageTerm::get_root_position(),
    );
    assert_eq!(
        operands_of(&at_root.unwrap()),
        vec![TestOperator::USIZE(3), TestOperator::USIZE(4), TestOperator::USIZE(5)]
    );
}

#[test]
fn reordering_gives_the_same_chain_for_every_order_of_the_operands() {
    let orders = vec![
        vec![1, 2, 3],
        vec![1, 3, 2],
        vec![2, 1, 3],
        vec![2, 3, 1],
        vec![3, 1, 2],
        vec![3, 2, 1],
    ];
    let checker: Box<dyn ModuloAssociativePartialReorderer<TestOperator>> = Box::new(ReordererChecker {});
    for order in orders {
        let term = chain_of(order.iter().map(|x| TestOperator::USIZE(*x)).collect());
        let got = transformation_modulo_assoc_partial_reordering(
            &checker,
            &term,
            &term,
            &PositionInLanguageTerm::get_root_position(),
        );
        let operands = match got {
            Some(reordered) => operands_of(&reordered),
            None => operands_of(&term),
        };
        assert_eq!(
            operands,
            vec![TestOperator::USIZE(1), TestOperator::USIZE(2), TestOperator::USIZE(3)]
        );
    }
}

#[test]
fn folding_gives_a_right_leaning_chain() {
    let term = chain_of(vec![TestOperator::USIZE(1), TestOperator::USIZE(2), TestOperator::USIZE(3)]);
    let expected = LanguageTerm::new(
        TestOperator::THEN,
        vec![
            LanguageTerm::new(TestOperator::USIZE(1), vec![]),
            LanguageTerm::new(
                TestOperator::THEN,
                vec![
                    LanguageTerm::new(TestOperator::USIZE(2), vec![]),
                    LanguageTerm::new(TestOperator::USIZE(3), vec![]),
                ],
            ),
        ],
    );
    assert_eq!(term, expected);
    let single = chain_of(vec![TestOperator::USIZE(7)]);
    assert_eq!(single, LanguageTerm::new(TestOperator::USIZE(7), vec![]));
    let mut none: Vec<LanguageTerm<TestOperator>> = vec![];
    let empty = fold_associative_sub_terms_recursively(&TestOperator::THEN, &mut none, &Some(TestOperator::STOP));
    assert_eq!(empty, LanguageTerm::new(TestOperator::STOP, vec![]));
}
