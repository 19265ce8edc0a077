use crate::rewriting_core::terms::term::RewritableLanguageOperatorSymbol;
use crate::rewriting_process::context::RewritingProcessContextAndParameterization;
use crate::rewriting_process::node::RewriteNodeKind;
use crate::rewriting_process::term_set::TermSet;
use std::collections::HashMap;
use vstd::prelude::*;

verus! {

/// A concrete phase in the rewriting process.
pub struct ConcreteRewritingPhaseInformation<LOS: RewritableLanguageOperatorSymbol> {
    /// the id of the abstract phase which determines the rewrite rules that are applied during this concrete phase
    pub model_abstract_phase_id: usize,
    /// the initial terms before applying rewriting in this phase
    pub initial_input_terms: TermSet<LOS>,
    /// the final irreducible terms after applying the rewriting in this phase
    pub final_irreducible_terms: TermSet<LOS>,
}

impl<LOS: RewritableLanguageOperatorSymbol> ConcreteRewritingPhaseInformation<LOS> {
    pub fn new(model_abstract_phase_id: usize, initial_input_terms: TermSet<LOS>) -> (phase: Self)
        ensures
            phase.model_abstract_phase_id == model_abstract_phase_id,
            phase.initial_input_terms == initial_input_terms,
            phase.final_irreducible_terms@.len() == 0,
    {
        Self { model_abstract_phase_id, initial_input_terms, final_irreducible_terms: TermSet::new() }
    }
}

/// The persistent global state of the rewriting process.
pub struct RewritingProcessState<LOS: RewritableLanguageOperatorSymbol> {
    /// the concrete phases that the process went through so far
    pub concrete_phases: Vec<ConcreteRewritingPhaseInformation<LOS>>,
    /// the concrete phase that follows a concrete phase, for the terms that it changed
    pub successors_on_changed: HashMap<usize, usize>,
    /// the concrete phase that follows a concrete phase, for the terms that it left as they were
    pub successors_on_unchanged: HashMap<usize, usize>,
    /// the number of nodes reached so far
    pub node_count: u32,
}

impl<LOS: RewritableLanguageOperatorSymbol> RewritingProcessState<LOS> {
    pub fn new(concrete_phases: Vec<ConcreteRewritingPhaseInformation<LOS>>, node_count: u32) -> (state: Self)
        ensures
            state.concrete_phases == concrete_phases,
            state.successors_on_changed@ == Map::<usize, usize>::empty(),
            state.successors_on_unchanged@ == Map::<usize, usize>::empty(),
            state.node_count == node_count,
    {
        Self {
            concrete_phases,
            successors_on_changed: HashMap::new(),
            successors_on_unchanged: HashMap::new(),
            node_count,
        }
    }

    /// The concrete phases that follow a concrete phase, for the terms that it
    /// changed (`true`) or left as they were.
    pub open spec fn successors(&self, term_was_changed: bool) -> Map<usize, usize> {
        if term_was_changed {
            self.successors_on_changed@
        } else {
            self.successors_on_unchanged@
        }
    }

    /// Every concrete phase stands for a phase of `context`, and every
    /// concrete phase that follows another is a concrete phase of the state.
    pub open spec fn is_well_formed(&self, context: &RewritingProcessContextAndParameterization<LOS>) -> bool {
        &&& forall|i: int|
            0 <= i < self.concrete_phases@.len() ==> (#[trigger] self.concrete_phases@[i]).model_abstract_phase_id
                < context.phases@.len()
        &&& forall|i: usize, term_was_changed: bool|
            #![trigger self.successors(term_was_changed).contains_key(i)]
            self.successors(term_was_changed).contains_key(i) ==> i < self.concrete_phases@.len()
                && self.successors(term_was_changed)[i] < self.concrete_phases@.len()
    }

    /// The state in which a process starts at `initial_node`: one concrete
    /// phase, for the first phase of the context, entered with the term of
    /// that node.
    pub fn get_initial_state(
        _context_and_param: &RewritingProcessContextAndParameterization<LOS>,
        initial_node: &RewriteNodeKind<LOS>,
    ) -> (state: Self)
        ensures
            state.concrete_phases@.len() == 1,
            state.concrete_phases@[0].model_abstract_phase_id == 0,
            state.concrete_phases@[0].initial_input_terms@ == seq![initial_node@.term],
            state.concrete_phases@[0].final_irreducible_terms@.len() == 0,
            state.successors_on_changed@ == Map::<usize, usize>::empty(),
            state.successors_on_unchanged@ == Map::<usize, usize>::empty(),
            state.node_count == 0,
            _context_and_param.is_well_formed() ==> state.is_well_formed(_context_and_param),
    {
        let mut concrete_phases: Vec<ConcreteRewritingPhaseInformation<LOS>> = Vec::new();
        concrete_phases.push(ConcreteRewritingPhaseInformation::new(0, TermSet::singleton(initial_node.term.clone())));
        Self::new(concrete_phases, 0)
    }

    /// Counts one more node.
    pub fn update_on_node_reached(
        &mut self,
        _context_and_param: &RewritingProcessContextAndParameterization<LOS>,
        _node: &RewriteNodeKind<LOS>,
    )
        requires
            old(self).node_count < u32::MAX,
        ensures
            final(self).node_count == old(self).node_count + 1,
            final(self).concrete_phases == old(self).concrete_phases,
            final(self).successors_on_changed == old(self).successors_on_changed,
            final(self).successors_on_unchanged == old(self).successors_on_unchanged,
    {
        self.node_count += 1;
    }

    /// Whether the state calls for the end of the process: it never does, the
    /// process ends when no step is left.
    pub fn warrants_termination_of_the_process(
        &self,
        _context_and_param: &RewritingProcessContextAndParameterization<LOS>,
    ) -> (warranted: bool)
        ensures
            !warranted,
    {
        false
    }
}

} // verus!
