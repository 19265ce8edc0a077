use std::collections::HashMap;

use simple_term_rewriter::process::context::{RewritingProcessContextAndParameterization, RewritingProcessPhase};
use simple_term_rewriter::process::handler::RewriteProcessHandler;
use simple_term_rewriter::process::node::RewriteNodeKind;
use simple_term_rewriter::process::priorities::RewritePriorities;
use simple_term_rewriter::process::state::RewritingProcessState;
use simple_term_rewriter::process::step::RewriteStepKind;
use simple_term_rewriter::process::verdict::RewriteGlobalVerdict;
use simple_term_rewriter::rewriting_core::apply::TermTransformationResult;
use simple_term_rewriter::rewriting_core::rule::RewriteRule;
use simple_term_rewriter::rewriting_core::terms::position::PositionInLanguageTerm;
use simple_term_rewriter::rewriting_core::terms::term::{LanguageTerm, RewritableLanguageOperatorSymbol};

#[derive(Clone, PartialEq, Eq, Hash, Debug)]
enum Logic {
    TRUE,
    FALSE,
    NEG,
}

impl RewritableLanguageOperatorSymbol for Logic {
    fn symbol_laws() {}
}

fn constant(operator: Logic) -> LanguageTerm<Logic> {
    LanguageTerm::new(operator, vec![])
}

fn neg(x: LanguageTerm<Logic>) -> LanguageTerm<Logic> {
    LanguageTerm::new(Logic::NEG, vec![x])
}

struct DoubleNegation {}

impl RewriteRule<Logic> for DoubleNegation {
    fn get_desc(&self) -> String {
        "double negation".to_string()
    }

    fn try_apply(
        &self,
        term: &LanguageTerm<Logic>,
        _context_term: &LanguageTerm<Logic>,
        _position_in_context_term: &PositionInLanguageTerm,
    ) -> Option<LanguageTerm<Logic>> {
        if term.operator == Logic::NEG && term.sub_terms[0].operator == Logic::NEG {
            Some(term.sub_terms[0].sub_terms[0].clone())
        } else {
            None
        }
    }
}

struct EvaluateNeg {}

impl RewriteRule<Logic> for EvaluateNeg {
    fn get_desc(&self) -> String {
        "evaluate".to_string()
    }

    fn try_apply(
        &self,
        term: &LanguageTerm<Logic>,
        _context_term: &LanguageTerm<Logic>,
        _position_in_context_term: &PositionInLanguageTerm,
    ) -> Option<LanguageTerm<Logic>> {
        match (&term.operator, term.sub_terms.first().map(|x| &x.operator)) {
            (Logic::NEG, Some(Logic::TRUE)) => Some(constant(Logic::FALSE)),
            (Logic::NEG, Some(Logic::FALSE)) => Some(constant(Logic::TRUE)),
            _ => None,
        }
    }
}

#[test]
fn a_term_goes_through_the_phases_one_after_another() {
    let context = RewritingProcessContextAndParameterization::new(vec![
        RewritingProcessPhase::new(vec![Box::new(DoubleNegation {})], true),
        RewritingProcessPhase::new(vec![Box::new(EvaluateNeg {})], false),
    ]);
    let mut state = RewritingProcessState::get_initial_state(&context);
    let mut verdict = RewriteGlobalVerdict::get_baseline_verdict();
    // NEG(NEG(NEG(TRUE)))
    let mut node = RewriteNodeKind::new(neg(neg(neg(constant(Logic::TRUE)))), 0);
    let mut visited = vec![];
    loop {
        state.update_on_node_reached(&context, &node);
        let steps = RewriteProcessHandler::collect_next_steps(&context, &node);
        if node.rewrite_system_index < state.irreducible_terms_per_phase.len() {
            state.update_on_next_steps_collected_reached(&context, &node, &steps);
        }
        visited.push((node.term.clone(), node.rewrite_system_index));
        match steps.first() {
            None => {
                verdict = verdict.update_with_local_verdict(&node.term);
                break;
            }
            Some(step) => {
                node = RewriteProcessHandler::process_new_step(&context, &node, step);
            }
        }
    }
    assert_eq!(
        visited,
        vec![
            (neg(neg(neg(constant(Logic::TRUE)))), 0),
            (neg(constant(Logic::TRUE)), 0),
            (neg(constant(Logic::TRUE)), 1),
            (constant(Logic::FALSE), 1),
            (constant(Logic::FALSE), 2),
        ]
    );
    assert_eq!(verdict.normalized_terms, vec![constant(Logic::FALSE)]);
    assert_eq!(state.node_count, 5);
    assert_eq!(state.irreducible_terms_per_phase[0].as_slice(), &[neg(constant(Logic::TRUE))]);
    assert_eq!(state.irreducible_terms_per_phase[1].as_slice(), &[constant(Logic::FALSE)]);
    assert!(!state.warrants_termination_of_the_process(&context));
}

#[test]
fn priorities_of_the_steps() {
    let at = |phase_index: usize, rule_index_in_phase: usize, coordinates: Vec<usize>| {
        RewriteStepKind::Transform(TermTransformationResult::new(
            phase_index,
            rule_index_in_phase,
            PositionInLanguageTerm::from_absolute_coordinates(coordinates),
            constant(Logic::TRUE),
        ))
    };
    let default_priorities = RewritePriorities::default();
    assert_eq!(
        default_priorities.get_priority_of_step::<Logic>(&RewriteStepKind::GoToNextPhase),
        1
    );
    assert_eq!(default_priorities.get_priority_of_step(&at(0, 0, vec![1, 2])), 0);

    let mut rules_of_phase_0 = HashMap::new();
    rules_of_phase_0.insert(1, 10);
    let mut rewrite_rules_priorities = HashMap::new();
    rewrite_rules_priorities.insert(0, rules_of_phase_0);
    let mut depth_modifiers = HashMap::new();
    depth_modifiers.insert(0, -3);
    depth_modifiers.insert(1, 2);
    let priorities = RewritePriorities::new(rewrite_rules_priorities, depth_modifiers, -5);
    // the score of the rule, and the depth modifier times the depth
    assert_eq!(priorities.get_priority_of_step(&at(0, 1, vec![1, 2])), 10 - 3 * 2);
    assert_eq!(priorities.get_priority_of_step(&at(0, 0, vec![1, 2, 0])), -9);
    assert_eq!(priorities.get_priority_of_step(&at(0, 1, vec![])), 10);
    assert_eq!(priorities.get_priority_of_step(&at(1, 1, vec![4])), 2);
    assert_eq!(priorities.get_priority_of_step(&at(2, 1, vec![4])), 0);
    assert_eq!(priorities.get_priority_of_step::<Logic>(&RewriteStepKind::GoToNextPhase), -5);
}
