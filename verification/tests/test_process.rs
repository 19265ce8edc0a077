use simple_term_rewriter::rewriting_core::apply::get_transformations;
use simple_term_rewriter::rewriting_core::rule::RewriteRule;
use simple_term_rewriter::rewriting_core::terms::position::PositionInLanguageTerm;
use simple_term_rewriter::rewriting_core::terms::term::{LanguageTerm, RewritableLanguageOperatorSymbol};
use simple_term_rewriter::rewriting_process::context::{
    AbstractRewritingPhase, RewritingProcessContextAndParameterization,
};
use simple_term_rewriter::rewriting_process::handler::RewriteProcessHandler;
use simple_term_rewriter::rewriting_process::node::RewriteNodeKind;
use simple_term_rewriter::rewriting_process::state::RewritingProcessState;
use simple_term_rewriter::rewriting_process::step::RewriteStepKind;

#[derive(Clone, PartialEq, Eq, Hash, Debug)]
enum SimplisticBooleanLogicOperators {
    TRUE,
    FALSE,
    OR,
    AND,
    NEG,
}

impl RewritableLanguageOperatorSymbol for SimplisticBooleanLogicOperators {
    fn symbol_laws() {}
}

#[derive(Clone, PartialEq, Eq, Hash, Debug)]
enum MinimalExampleTransformationKind {
    DoubleNegation,
    EvaluateNeg,
    EvaluateAnd,
    EvaluateOr,
}

fn constant(operator: SimplisticBooleanLogicOperators) -> LanguageTerm<SimplisticBooleanLogicOperators> {
    LanguageTerm::new(operator, vec![])
}

impl RewriteRule<SimplisticBooleanLogicOperators> for MinimalExampleTransformationKind {
    fn try_apply(
        &self,
        term: &LanguageTerm<SimplisticBooleanLogicOperators>,
        _context_term: &LanguageTerm<SimplisticBooleanLogicOperators>,
        _position_in_context_term: &PositionInLanguageTerm,
    ) -> Option<LanguageTerm<SimplisticBooleanLogicOperators>> {
        match self {
            MinimalExampleTransformationKind::DoubleNegation => {
                if term.operator == SimplisticBooleanLogicOperators::NEG {
                    let sub_term = term.sub_terms.first().unwrap();
                    if sub_term.operator == SimplisticBooleanLogicOperators::NEG {
                        Some(sub_term.sub_terms.first().unwrap().clone())
                    } else {
                        None
                    }
                } else {
                    None
                }
            }
            MinimalExampleTransformationKind::EvaluateNeg => {
                if term.operator == SimplisticBooleanLogicOperators::NEG {
                    let sub_term = term.sub_terms.first().unwrap();
                    if sub_term.operator == SimplisticBooleanLogicOperators::TRUE {
                        Some(constant(SimplisticBooleanLogicOperators::FALSE))
                    } else if sub_term.operator == SimplisticBooleanLogicOperators::FALSE {
                        Some(constant(SimplisticBooleanLogicOperators::TRUE))
                    } else {
                        None
                    }
                } else {
                    None
                }
            }
            MinimalExampleTransformationKind::EvaluateAnd => {
                if term.operator == SimplisticBooleanLogicOperators::AND {
                    let sub_term1 = term.sub_terms.first().unwrap();
                    let sub_term2 = term.sub_terms.get(1).unwrap();
                    match (&sub_term1.operator, &sub_term2.operator) {
                        (SimplisticBooleanLogicOperators::TRUE, SimplisticBooleanLogicOperators::TRUE) => {
                            Some(constant(SimplisticBooleanLogicOperators::TRUE))
                        }
                        (SimplisticBooleanLogicOperators::TRUE, SimplisticBooleanLogicOperators::FALSE) => {
                            Some(constant(SimplisticBooleanLogicOperators::FALSE))
                        }
                        (SimplisticBooleanLogicOperators::FALSE, SimplisticBooleanLogicOperators::TRUE) => {
                            Some(constant(SimplisticBooleanLogicOperators::FALSE))
                        }
                        (SimplisticBooleanLogicOperators::FALSE, SimplisticBooleanLogicOperators::FALSE) => {
                            Some(constant(SimplisticBooleanLogicOperators::FALSE))
                        }
                        (_, _) => None,
                    }
                } else {
                    None
                }
            }
            MinimalExampleTransformationKind::EvaluateOr => {
                if term.operator == SimplisticBooleanLogicOperators::OR {
                    let sub_term1 = term.sub_terms.first().unwrap();
                    let sub_term2 = term.sub_terms.get(1).unwrap();
                    match (&sub_term1.operator, &sub_term2.operator) {
                        (SimplisticBooleanLogicOperators::TRUE, SimplisticBooleanLogicOperators::TRUE) => {
                            Some(constant(SimplisticBooleanLogicOperators::TRUE))
                        }
                        (SimplisticBooleanLogicOperators::TRUE, SimplisticBooleanLogicOperators::FALSE) => {
                            Some(constant(SimplisticBooleanLogicOperators::TRUE))
                        }
                        (SimplisticBooleanLogicOperators::FALSE, SimplisticBooleanLogicOperators::TRUE) => {
                            Some(constant(SimplisticBooleanLogicOperators::TRUE))
                        }
                        (SimplisticBooleanLogicOperators::FALSE, SimplisticBooleanLogicOperators::FALSE) => {
                            Some(constant(SimplisticBooleanLogicOperators::FALSE))
                        }
                        (_, _) => None,
                    }
                } else {
                    None
                }
            }
        }
    }

    fn get_desc(&self) -> String {
        format!("{:?}", self)
    }
}

fn get_term_1() -> LanguageTerm<SimplisticBooleanLogicOperators> {
    LanguageTerm::new(
        SimplisticBooleanLogicOperators::AND,
        vec![
            LanguageTerm::new(
                SimplisticBooleanLogicOperators::NEG,
                vec![LanguageTerm::new(
                    SimplisticBooleanLogicOperators::NEG,
                    vec![LanguageTerm::new(SimplisticBooleanLogicOperators::TRUE, vec![])],
                )],
            ),
            LanguageTerm::new(
                SimplisticBooleanLogicOperators::OR,
                vec![
                    LanguageTerm::new(
                        SimplisticBooleanLogicOperators::AND,
                        vec![
                            LanguageTerm::new(SimplisticBooleanLogicOperators::FALSE, vec![]),
                            LanguageTerm::new(SimplisticBooleanLogicOperators::FALSE, vec![]),
                        ],
                    ),
                    LanguageTerm::new(SimplisticBooleanLogicOperators::TRUE, vec![]),
                ],
            ),
        ],
    )
}

fn boolean_rules() -> Vec<Box<dyn RewriteRule<SimplisticBooleanLogicOperators>>> {
    vec![
        Box::new(MinimalExampleTransformationKind::DoubleNegation),
        Box::new(MinimalExampleTransformationKind::EvaluateNeg),
        Box::new(MinimalExampleTransformationKind::EvaluateAnd),
        Box::new(MinimalExampleTransformationKind::EvaluateOr),
    ]
}

/// Explores, depth first, every node that the process reaches from `term`,
/// and returns the state that it ends in.
fn run_process(
    context_and_param: &RewritingProcessContextAndParameterization<SimplisticBooleanLogicOperators>,
    term: &LanguageTerm<SimplisticBooleanLogicOperators>,
) -> RewritingProcessState<SimplisticBooleanLogicOperators> {
    assert!(context_and_param.check_is_well_formed());
    let initial_node = RewriteNodeKind::new(term.clone(), 0);
    let mut global_state = RewritingProcessState::get_initial_state(context_and_param, &initial_node);
    let mut memoized = vec![initial_node.clone()];
    let mut queue = vec![initial_node];
    while let Some(node) = queue.pop() {
        global_state.update_on_node_reached(context_and_param, &node);
        assert!(RewriteProcessHandler::check_is_node_of(context_and_param, &global_state, &node));
        let steps = RewriteProcessHandler::collect_next_steps(context_and_param, &mut global_state, &node);
        for step in steps.iter().rev() {
            assert!(RewriteProcessHandler::check_is_step_from(context_and_param, &global_state, &node, step));
            let next = RewriteProcessHandler::process_new_step(context_and_param, &mut global_state, &node, step);
            if !memoized.iter().any(|known| next.is_included_for_memoization(known)) {
                memoized.push(next.clone());
                queue.push(next);
            }
        }
    }
    global_state
}

#[test]
fn the_process_normalizes_the_example_term() {
    let term = get_term_1();
    let phase = AbstractRewritingPhase::new(boolean_rules(), None, None);
    let context_and_param = RewritingProcessContextAndParameterization::new(vec![phase], false);

    let global_state = run_process(&context_and_param, &term);

    let irreducible_terms = &global_state.concrete_phases.last().unwrap().final_irreducible_terms;

    let expected_term = LanguageTerm::new(SimplisticBooleanLogicOperators::TRUE, vec![]);
    assert_eq!(irreducible_terms.as_slice(), &[expected_term]);
}

#[test]
fn normalization_of_a_normal_form_changes_nothing() {
    let term = constant(SimplisticBooleanLogicOperators::TRUE);
    let phase = AbstractRewritingPhase::new(boolean_rules(), None, None);
    let context_and_param = RewritingProcessContextAndParameterization::new(vec![phase], false);
    let global_state = run_process(&context_and_param, &term);
    assert_eq!(global_state.concrete_phases.len(), 1);
    assert_eq!(global_state.node_count, 1);
    assert_eq!(
        global_state.concrete_phases[0].final_irreducible_terms.as_slice(),
        &[constant(SimplisticBooleanLogicOperators::TRUE)]
    );
}

#[test]
fn phases_follow_one_another_as_configured() {
    // phase 0 removes double negations; what it changed goes to phase 1, what it did not to phase 2
    let remove_double_negations = AbstractRewritingPhase::new(
        vec![Box::new(MinimalExampleTransformationKind::DoubleNegation)],
        Some(1),
        Some(2),
    );
    let evaluate = AbstractRewritingPhase::new(boolean_rules(), None, None);
    let nothing = AbstractRewritingPhase::new(vec![], None, None);
    let context_and_param =
        RewritingProcessContextAndParameterization::new(vec![remove_double_negations, evaluate, nothing], true);

    let changed = run_process(&context_and_param, &get_term_1());
    assert_eq!(changed.concrete_phases.len(), 2);
    assert_eq!(changed.concrete_phases[1].model_abstract_phase_id, 1);
    assert_eq!(changed.successors_on_changed.get(&0), Some(&1));
    assert!(changed.successors_on_unchanged.is_empty());
    assert_eq!(
        changed.concrete_phases[1].final_irreducible_terms.as_slice(),
        &[constant(SimplisticBooleanLogicOperators::TRUE)]
    );

    let unchanged_term = LanguageTerm::new(
        SimplisticBooleanLogicOperators::NEG,
        vec![constant(SimplisticBooleanLogicOperators::TRUE)],
    );
    let unchanged = run_process(&context_and_param, &unchanged_term);
    assert_eq!(unchanged.concrete_phases.len(), 2);
    assert_eq!(unchanged.concrete_phases[1].model_abstract_phase_id, 2);
    assert_eq!(unchanged.successors_on_unchanged.get(&0), Some(&1));
    assert_eq!(
        unchanged.concrete_phases[1].final_irreducible_terms.as_slice(),
        &[unchanged_term.clone()]
    );
    assert_eq!(unchanged.concrete_phases[1].initial_input_terms.as_slice(), &[unchanged_term]);
}

#[test]
fn a_phase_that_follows_no_phase_of_the_process_is_refused() {
    let phase = AbstractRewritingPhase::new(boolean_rules(), Some(3), None);
    let context_and_param = RewritingProcessContextAndParameterization::new(vec![phase], false);
    assert!(!context_and_param.check_is_well_formed());
    let none: RewritingProcessContextAndParameterization<SimplisticBooleanLogicOperators> =
        RewritingProcessContextAndParameterization::new(vec![], false);
    assert!(!none.check_is_well_formed());
}

#[test]
fn double_negation_is_removed_in_one_step() {
    let x = LanguageTerm::new(
        SimplisticBooleanLogicOperators::OR,
        vec![
            constant(SimplisticBooleanLogicOperators::FALSE),
            constant(SimplisticBooleanLogicOperators::TRUE),
        ],
    );
    let term = LanguageTerm::new(
        SimplisticBooleanLogicOperators::NEG,
        vec![LanguageTerm::new(SimplisticBooleanLogicOperators::NEG, vec![x.clone()])],
    );
    let rules: Vec<Box<dyn RewriteRule<SimplisticBooleanLogicOperators>>> =
        vec![Box::new(MinimalExampleTransformationKind::DoubleNegation)];
    let got = get_transformations(0, &rules, &term, false);
    assert_eq!(got.len(), 1);
    assert_eq!(got[0].result, x);
    assert_eq!(got[0].position, PositionInLanguageTerm::get_root_position());
    assert_eq!(got[0].rule_index_in_phase, 0);
}

#[test]
fn constants_under_and_and_or_are_evaluated_in_one_step() {
    let or = LanguageTerm::new(
        SimplisticBooleanLogicOperators::OR,
        vec![
            constant(SimplisticBooleanLogicOperators::FALSE),
            constant(SimplisticBooleanLogicOperators::TRUE),
        ],
    );
    let got = get_transformations(0, &boolean_rules(), &or, false);
    assert_eq!(got.len(), 1);
    assert_eq!(got[0].result, constant(SimplisticBooleanLogicOperators::TRUE));
    assert_eq!(got[0].rule_index_in_phase, 3);

    let and = LanguageTerm::new(
        SimplisticBooleanLogicOperators::AND,
        vec![
            constant(SimplisticBooleanLogicOperators::TRUE),
            constant(SimplisticBooleanLogicOperators::FALSE),
        ],
    );
    let got = get_transformations(7, &boolean_rules(), &and, false);
    assert_eq!(got.len(), 1);
    assert_eq!(got[0].result, constant(SimplisticBooleanLogicOperators::FALSE));
    assert_eq!(got[0].rule_index_in_phase, 2);
    assert_eq!(got[0].phase_index, 7);
}

#[test]
fn every_rule_at_every_position_gives_one_transformation() {
    // AND(NEG(NEG(TRUE)), OR(AND(FALSE,FALSE), TRUE))
    let term = get_term_1();
    let got = get_transformations(0, &boolean_rules(), &term, false);
    // the double negation at [0], the evaluation of NEG(TRUE) at [0,0] and that of AND(FALSE,FALSE) at [1,0]
    assert_eq!(got.len(), 3);
    assert_eq!(got[0].rule_index_in_phase, 0);
    assert_eq!(got[0].position, PositionInLanguageTerm::from_absolute_coordinates(vec![0]));
    assert_eq!(
        got[0].result,
        LanguageTerm::new(
            SimplisticBooleanLogicOperators::AND,
            vec![
                constant(SimplisticBooleanLogicOperators::TRUE),
                term.sub_terms[1].clone()
            ]
        )
    );
    assert_eq!(got[1].rule_index_in_phase, 1);
    assert_eq!(got[1].position, PositionInLanguageTerm::from_absolute_coordinates(vec![0, 0]));
    assert_eq!(
        got[1].result,
        LanguageTerm::new(
            SimplisticBooleanLogicOperators::AND,
            vec![
                LanguageTerm::new(
                    SimplisticBooleanLogicOperators::NEG,
                    vec![constant(SimplisticBooleanLogicOperators::FALSE)]
                ),
                term.sub_terms[1].clone()
            ]
        )
    );
    assert_eq!(got[2].rule_index_in_phase, 2);
    assert_eq!(got[2].position, PositionInLanguageTerm::from_absolute_coordinates(vec![1, 0]));
    assert_eq!(
        got[2].result,
        LanguageTerm::new(
            SimplisticBooleanLogicOperators::AND,
            vec![
                term.sub_terms[0].clone(),
                LanguageTerm::new(
                    SimplisticBooleanLogicOperators::OR,
                    vec![
                        constant(SimplisticBooleanLogicOperators::FALSE),
                        constant(SimplisticBooleanLogicOperators::TRUE)
                    ]
                )
            ]
        )
    );
}

#[test]
fn keeping_only_one_prefers_the_root_and_then_the_first_sub_term() {
    // NEG(NEG(NEG(NEG(TRUE)))): the double negation applies at the root and at [0] and at [0,0]
    let inner = LanguageTerm::new(
        SimplisticBooleanLogicOperators::NEG,
        vec![LanguageTerm::new(
            SimplisticBooleanLogicOperators::NEG,
            vec![constant(SimplisticBooleanLogicOperators::TRUE)],
        )],
    );
    let term = LanguageTerm::new(
        SimplisticBooleanLogicOperators::NEG,
        vec![LanguageTerm::new(SimplisticBooleanLogicOperators::NEG, vec![inner.clone()])],
    );
    let all = get_transformations(0, &boolean_rules(), &term, false);
    // the double negation at the root, at [0] and at [0,0], and the evaluation of NEG(TRUE) at [0,0,0]
    assert_eq!(all.len(), 4);
    let one = get_transformations(0, &boolean_rules(), &term, true);
    assert_eq!(one.len(), 1);
    assert_eq!(one[0].position, PositionInLanguageTerm::get_root_position());
    assert_eq!(one[0].result, inner);

    let below = get_transformations(0, &boolean_rules(), &get_term_1(), true);
    assert_eq!(below.len(), 1);
    assert_eq!(below[0].position, PositionInLanguageTerm::from_absolute_coordinates(vec![0]));

    let none = get_transformations(0, &boolean_rules(), &constant(SimplisticBooleanLogicOperators::TRUE), true);
    assert!(none.is_empty());
}

#[test]
fn steps_are_rewrites_or_the_way_to_the_next_phase() {
    let phase = AbstractRewritingPhase::new(boolean_rules(), Some(0), None);
    let context_and_param = RewritingProcessContextAndParameterization::new(vec![phase], false);
    let node = RewriteNodeKind::new(get_term_1(), 0);
    let mut global_state = RewritingProcessState::get_initial_state(&context_and_param, &node);
    let steps = RewriteProcessHandler::collect_next_steps(&context_and_param, &mut global_state, &node);
    assert_eq!(steps.len(), 3);
    assert!(matches!(steps[0], RewriteStepKind::TransformInSamePhase(_)));
    assert!(global_state.concrete_phases[0].final_irreducible_terms.as_slice().is_empty());

    // an irreducible term that the phase did not enter with goes on as a changed term
    let normal = RewriteNodeKind::new(constant(SimplisticBooleanLogicOperators::TRUE), 0);
    let steps = RewriteProcessHandler::collect_next_steps(&context_and_param, &mut global_state, &normal);
    assert_eq!(steps.len(), 1);
    assert!(matches!(steps[0], RewriteStepKind::GoToSuccessorPhase(true)));
    assert_eq!(global_state.concrete_phases[0].final_irreducible_terms.len(), 1);
    let next = RewriteProcessHandler::process_new_step(&context_and_param, &mut global_state, &normal, &steps[0]);
    assert_eq!(next.concrete_rewrite_phase_index, 1);
    assert_eq!(next.term, normal.term);
    assert_eq!(global_state.concrete_phases.len(), 2);
    // the same step again leads to the phase that was entered before
    let again = RewriteProcessHandler::process_new_step(&context_and_param, &mut global_state, &normal, &steps[0]);
    assert_eq!(again.concrete_rewrite_phase_index, 1);
    assert_eq!(global_state.concrete_phases.len(), 2);
    // no phase follows for unchanged terms
    let unchanged = RewriteStepKind::GoToSuccessorPhase(false);
    assert!(!RewriteProcessHandler::check_is_step_from(&context_and_param, &global_state, &normal, &unchanged));
    assert!(!global_state.warrants_termination_of_the_process(&context_and_param));
}
