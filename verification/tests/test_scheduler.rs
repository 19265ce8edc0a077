use std::hash::{Hash, Hasher};
use std::marker::PhantomData;

use graph_process_manager_core::process::config::{AbstractNodeKind, AbstractProcessConfiguration};
use graph_process_manager_core::process::filter::GenericFiltersManager;
use graph_process_manager_core::process::handler::AbstractAlgorithmOperationHandler;
use graph_process_manager_core::process::manager::GenericProcessManager;
use graph_process_manager_core::process::persistent_state::AbstractProcessMutablePersistentState;
use graph_process_manager_core::queue::priorities::{AbstractPriorities, GenericProcessPriorities};
use graph_process_manager_core::queue::strategy::QueueSearchStrategy;

use simple_term_rewriter::rewriting_core::rule::RewriteRule;
use simple_term_rewriter::rewriting_core::terms::position::PositionInLanguageTerm;
use simple_term_rewriter::rewriting_core::terms::term::{LanguageTerm, RewritableLanguageOperatorSymbol};
use simple_term_rewriter::rewriting_process::context::{
    AbstractRewritingPhase, RewritingProcessContextAndParameterization,
};
use simple_term_rewriter::rewriting_process::filtration::RewritingFiltrationResult;
use simple_term_rewriter::rewriting_process::handler::RewriteProcessHandler;
use simple_term_rewriter::rewriting_process::node::RewriteNodeKind;
use simple_term_rewriter::rewriting_process::priorities::RewritePriorities;
use simple_term_rewriter::rewriting_process::state::RewritingProcessState;
use simple_term_rewriter::rewriting_process::step::RewriteStepKind;

#[derive(Clone, PartialEq, Eq, Hash, Debug)]
enum SimplisticBooleanLogicOperators {
    TRUE,
    FALSE,
    OR,
    AND,
    NEG,
}

impl RewritableLanguageOperatorSymbol for SimplisticBooleanLogicOperators {
    fn symbol_laws() {}
}

#[derive(Clone, PartialEq, Eq, Hash, Debug)]
enum MinimalExampleTransformationKind {
    DoubleNegation,
    EvaluateNeg,
    EvaluateAnd,
    EvaluateOr,
}

fn constant(operator: SimplisticBooleanLogicOperators) -> LanguageTerm<SimplisticBooleanLogicOperators> {
    LanguageTerm::new(operator, vec![])
}

fn truth_value(term: &LanguageTerm<SimplisticBooleanLogicOperators>) -> Option<bool> {
    match term.operator {
        SimplisticBooleanLogicOperators::TRUE => Some(true),
        SimplisticBooleanLogicOperators::FALSE => Some(false),
        _ => None,
    }
}

fn truth_constant(value: bool) -> LanguageTerm<SimplisticBooleanLogicOperators> {
    if value {
        constant(SimplisticBooleanLogicOperators::TRUE)
    } else {
        constant(SimplisticBooleanLogicOperators::FALSE)
    }
}

impl RewriteRule<SimplisticBooleanLogicOperators> for MinimalExampleTransformationKind {
    fn try_apply(
        &self,
        term: &LanguageTerm<SimplisticBooleanLogicOperators>,
        _context_term: &LanguageTerm<SimplisticBooleanLogicOperators>,
        _position_in_context_term: &PositionInLanguageTerm,
    ) -> Option<LanguageTerm<SimplisticBooleanLogicOperators>> {
        match self {
            MinimalExampleTransformationKind::DoubleNegation => {
                if term.operator == SimplisticBooleanLogicOperators::NEG {
                    let sub_term = term.sub_terms.first().unwrap();
                    if sub_term.operator == SimplisticBooleanLogicOperators::NEG {
                        Some(sub_term.sub_terms.first().unwrap().clone())
                    } else {
                        None
                    }
                } else {
                    None
                }
            }
            MinimalExampleTransformationKind::EvaluateNeg => {
                if term.operator == SimplisticBooleanLogicOperators::NEG {
                    truth_value(term.sub_terms.first().unwrap()).map(|value| truth_constant(!value))
                } else {
                    None
                }
            }
            MinimalExampleTransformationKind::EvaluateAnd => {
                if term.operator == SimplisticBooleanLogicOperators::AND {
                    match (truth_value(&term.sub_terms[0]), truth_value(&term.sub_terms[1])) {
                        (Some(left), Some(right)) => Some(truth_constant(left && right)),
                        _ => None,
                    }
                } else {
                    None
                }
            }
            MinimalExampleTransformationKind::EvaluateOr => {
                if term.operator == SimplisticBooleanLogicOperators::OR {
                    match (truth_value(&term.sub_terms[0]), truth_value(&term.sub_terms[1])) {
                        (Some(left), Some(right)) => Some(truth_constant(left || right)),
                        _ => None,
                    }
                } else {
                    None
                }
            }
        }
    }

    fn get_desc(&self) -> String {
        format!("{:?}", self)
    }
}

struct RewriteConfig<LOS: RewritableLanguageOperatorSymbol> {
    phantom: PhantomData<LOS>,
}

impl<LOS: RewritableLanguageOperatorSymbol + 'static> AbstractProcessConfiguration for RewriteConfig<LOS> {
    type ContextAndParameterization = RewritingProcessContextAndParameterization<LOS>;
    type AlgorithmOperationHandler = ProcessHandler;
    type DomainSpecificNode = ProcessNode<LOS>;
    type DomainSpecificStep = RewriteStepKind<LOS>;
    type Priorities = ProcessPriorities;
    type MutablePersistentState = ProcessState<LOS>;
    type FiltrationResult = RewritingFiltrationResult;
}

struct ProcessNode<LOS: RewritableLanguageOperatorSymbol>(RewriteNodeKind<LOS>);

impl<LOS: RewritableLanguageOperatorSymbol> Clone for ProcessNode<LOS> {
    fn clone(&self) -> Self {
        ProcessNode(self.0.clone())
    }
}

impl<LOS: RewritableLanguageOperatorSymbol> PartialEq for ProcessNode<LOS> {
    fn eq(&self, other: &Self) -> bool {
        self.0.is_included_for_memoization(&other.0)
    }
}

impl<LOS: RewritableLanguageOperatorSymbol> Eq for ProcessNode<LOS> {}

impl<LOS: RewritableLanguageOperatorSymbol> Hash for ProcessNode<LOS> {
    fn hash<H: Hasher>(&self, state: &mut H) {
        self.0.term.hash(state);
        self.0.concrete_rewrite_phase_index.hash(state);
    }
}

impl<LOS: RewritableLanguageOperatorSymbol> AbstractNodeKind for ProcessNode<LOS> {
    fn is_included_for_memoization(&self, memoized_node: &Self) -> bool {
        self.0.is_included_for_memoization(&memoized_node.0)
    }
}

struct ProcessState<LOS: RewritableLanguageOperatorSymbol>(RewritingProcessState<LOS>);

impl<LOS: RewritableLanguageOperatorSymbol + 'static> AbstractProcessMutablePersistentState<RewriteConfig<LOS>>
    for ProcessState<LOS>
{
    fn get_initial_state(
        context_and_param: &RewritingProcessContextAndParameterization<LOS>,
        initial_node: &ProcessNode<LOS>,
    ) -> Self {
        ProcessState(RewritingProcessState::get_initial_state(context_and_param, &initial_node.0))
    }

    fn update_on_node_reached(
        &mut self,
        context_and_param: &RewritingProcessContextAndParameterization<LOS>,
        node: &ProcessNode<LOS>,
    ) {
        assert!(self.0.node_count < u32::MAX);
        self.0.update_on_node_reached(context_and_param, &node.0);
    }

    fn update_on_next_steps_collected_reached(
        &mut self,
        _context_and_param: &RewritingProcessContextAndParameterization<LOS>,
        _node: &ProcessNode<LOS>,
        _steps: &[RewriteStepKind<LOS>],
    ) {
    }

    fn update_on_filtered(
        &mut self,
        _context_and_param: &RewritingProcessContextAndParameterization<LOS>,
        _parent_node: &ProcessNode<LOS>,
        _filtration_result: &RewritingFiltrationResult,
    ) {
    }

    fn warrants_termination_of_the_process(
        &self,
        context_and_param: &RewritingProcessContextAndParameterization<LOS>,
    ) -> bool {
        self.0.warrants_termination_of_the_process(context_and_param)
    }
}

struct ProcessHandler {}

impl<LOS: RewritableLanguageOperatorSymbol + 'static> AbstractAlgorithmOperationHandler<RewriteConfig<LOS>>
    for ProcessHandler
{
    fn process_new_step(
        context_and_param: &RewritingProcessContextAndParameterization<LOS>,
        global_state: &mut ProcessState<LOS>,
        parent_node: &ProcessNode<LOS>,
        step_to_process: &mut RewriteStepKind<LOS>,
    ) -> ProcessNode<LOS> {
        assert!(RewriteProcessHandler::check_is_step_from(
            context_and_param,
            &global_state.0,
            &parent_node.0,
            step_to_process
        ));
        ProcessNode(RewriteProcessHandler::process_new_step(
            context_and_param,
            &mut global_state.0,
            &parent_node.0,
            step_to_process,
        ))
    }

    fn collect_next_steps(
        context_and_param: &RewritingProcessContextAndParameterization<LOS>,
        global_state: &mut ProcessState<LOS>,
        parent_node: &ProcessNode<LOS>,
    ) -> Vec<RewriteStepKind<LOS>> {
        assert!(RewriteProcessHandler::check_is_node_of(context_and_param, &global_state.0, &parent_node.0));
        RewriteProcessHandler::collect_next_steps(context_and_param, &mut global_state.0, &parent_node.0)
    }
}

struct ProcessPriorities(RewritePriorities);

impl<LOS: RewritableLanguageOperatorSymbol> AbstractPriorities<RewriteStepKind<LOS>> for ProcessPriorities {
    fn get_priority_of_step(&self, step: &RewriteStepKind<LOS>) -> i32 {
        self.0.get_priority_of_step(step)
    }
}

fn get_term_1() -> LanguageTerm<SimplisticBooleanLogicOperators> {
    LanguageTerm::new(
        SimplisticBooleanLogicOperators::AND,
        vec![
            LanguageTerm::new(
                SimplisticBooleanLogicOperators::NEG,
                vec![LanguageTerm::new(
                    SimplisticBooleanLogicOperators::NEG,
                    vec![LanguageTerm::new(SimplisticBooleanLogicOperators::TRUE, vec![])],
                )],
            ),
            LanguageTerm::new(
                SimplisticBooleanLogicOperators::OR,
                vec![
                    LanguageTerm::new(
                        SimplisticBooleanLogicOperators::AND,
                        vec![
                            LanguageTerm::new(SimplisticBooleanLogicOperators::FALSE, vec![]),
                            LanguageTerm::new(SimplisticBooleanLogicOperators::FALSE, vec![]),
                        ],
                    ),
                    LanguageTerm::new(SimplisticBooleanLogicOperators::TRUE, vec![]),
                ],
            ),
        ],
    )
}

fn run(
    phases: Vec<AbstractRewritingPhase<SimplisticBooleanLogicOperators>>,
    strategy: QueueSearchStrategy,
    term: &LanguageTerm<SimplisticBooleanLogicOperators>,
) -> GenericProcessManager<RewriteConfig<SimplisticBooleanLogicOperators>> {
    let context_and_param = RewritingProcessContextAndParameterization::new(phases, false);
    assert!(context_and_param.check_is_well_formed());
    let mut manager: GenericProcessManager<RewriteConfig<SimplisticBooleanLogicOperators>> =
        GenericProcessManager::new(
            context_and_param,
            strategy,
            GenericProcessPriorities::new(ProcessPriorities(RewritePriorities {}), false),
            GenericFiltersManager::new(vec![], vec![], vec![]),
            vec![],
            true,
            ProcessNode(RewriteNodeKind::new(term.clone(), 0)),
        );
    manager.start_process();
    manager
}

fn boolean_phase(
    next_phase_id_on_changed: Option<usize>,
    next_phase_id_on_unchanged: Option<usize>,
) -> AbstractRewritingPhase<SimplisticBooleanLogicOperators> {
    AbstractRewritingPhase::new(
        vec![
            Box::new(MinimalExampleTransformationKind::DoubleNegation),
            Box::new(MinimalExampleTransformationKind::EvaluateNeg),
            Box::new(MinimalExampleTransformationKind::EvaluateAnd),
            Box::new(MinimalExampleTransformationKind::EvaluateOr),
        ],
        next_phase_id_on_changed,
        next_phase_id_on_unchanged,
    )
}

#[test]
fn test_test() {
    let term = get_term_1();
    let manager = run(vec![boolean_phase(None, None)], QueueSearchStrategy::DFS, &term);

    let irreducible_terms = &manager.global_state.0.concrete_phases.last().unwrap().final_irreducible_terms;

    let expected_term = LanguageTerm::new(SimplisticBooleanLogicOperators::TRUE, vec![]);
    assert_eq!(irreducible_terms.as_slice(), &[expected_term]);
}

#[test]
fn the_scheduler_reaches_the_same_normal_form_breadth_first() {
    let term = get_term_1();
    let manager = run(vec![boolean_phase(None, None)], QueueSearchStrategy::BFS, &term);
    let irreducible_terms = &manager.global_state.0.concrete_phases.last().unwrap().final_irreducible_terms;
    assert_eq!(irreducible_terms.as_slice(), &[constant(SimplisticBooleanLogicOperators::TRUE)]);
}

#[test]
fn the_scheduler_leaves_a_normal_form_unchanged() {
    // the normal form of the example term, normalized once more, through two phases
    let term = constant(SimplisticBooleanLogicOperators::TRUE);
    let manager = run(
        vec![boolean_phase(None, Some(1)), boolean_phase(None, None)],
        QueueSearchStrategy::DFS,
        &term,
    );
    let phases = &manager.global_state.0.concrete_phases;
    assert_eq!(phases.len(), 2);
    assert_eq!(phases[0].final_irreducible_terms.as_slice(), &[term.clone()]);
    assert_eq!(phases[1].initial_input_terms.as_slice(), &[term.clone()]);
    assert_eq!(phases[1].final_irreducible_terms.as_slice(), &[term]);
}
