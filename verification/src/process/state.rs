use crate::process::context::RewritingProcessContextAndParameterization;
use crate::process::node::RewriteNodeKind;
use crate::process::step::RewriteStepKind;
use crate::rewriting_core::terms::term::RewritableLanguageOperatorSymbol;
use crate::rewriting_process::term_set::TermSet;
use vstd::prelude::*;

verus! {

/// The persistent global state of the process with fixed phases.
pub struct RewritingProcessState<LOS: RewritableLanguageOperatorSymbol> {
    /// the irreducible terms encountered in each phase of the process, by the index of the phase
    pub irreducible_terms_per_phase: Vec<TermSet<LOS>>,
    /// the number of nodes reached so far
    pub node_count: u32,
}

/// The steps say that the term of their node is irreducible in its phase:
/// there is none, or only the step to the next phase.
pub open spec fn marks_irreducible<LOS: RewritableLanguageOperatorSymbol>(steps: Seq<RewriteStepKind<LOS>>) -> bool {
    steps.len() == 0 || (steps.len() == 1 && steps[0] is GoToNextPhase)
}

impl<LOS: RewritableLanguageOperatorSymbol> RewritingProcessState<LOS> {
    pub fn new(irreducible_terms_per_phase: Vec<TermSet<LOS>>, node_count: u32) -> (state: Self)
        ensures
            state.irreducible_terms_per_phase == irreducible_terms_per_phase,
            state.node_count == node_count,
    {
        Self { irreducible_terms_per_phase, node_count }
    }

    /// The state in which a process starts: no irreducible term in any
    /// phase, no node reached.
    pub fn get_initial_state(context_and_param: &RewritingProcessContextAndParameterization<LOS>) -> (state: Self)
        ensures
            state.node_count == 0,
            state.irreducible_terms_per_phase@.len() == context_and_param.phases@.len(),
            forall|i: int|
                0 <= i < state.irreducible_terms_per_phase@.len() ==> (#[trigger] state.irreducible_terms_per_phase@[i])@.len()
                    == 0,
    {
        let mut irreducible_terms_per_phase: Vec<TermSet<LOS>> = Vec::new();
        let mut x: usize = 0;
        while x < context_and_param.phases.len()
            invariant
                x <= context_and_param.phases@.len(),
                irreducible_terms_per_phase@.len() == x,
                forall|i: int| 0 <= i < x ==> (#[trigger] irreducible_terms_per_phase@[i])@.len() == 0,
            decreases context_and_param.phases@.len() - x,
        {
            irreducible_terms_per_phase.push(TermSet::new());
            x += 1;
        }
        Self::new(irreducible_terms_per_phase, 0)
    }

    /// Counts one more node.
    pub fn update_on_node_reached(
        &mut self,
        _context_and_param: &RewritingProcessContextAndParameterization<LOS>,
        _node: &RewriteNodeKind<LOS>,
    )
        requires
            old(self).node_count < u32::MAX,
        ensures
            final(self).node_count == old(self).node_count + 1,
            final(self).irreducible_terms_per_phase == old(self).irreducible_terms_per_phase,
    {
        self.node_count += 1;
    }

    /// Puts the term of `node` among the irreducible terms of its phase,
    /// where `steps` say that it is irreducible.
    pub fn update_on_next_steps_collected_reached(
        &mut self,
        _context_and_param: &RewritingProcessContextAndParameterization<LOS>,
        node: &RewriteNodeKind<LOS>,
        steps: &[RewriteStepKind<LOS>],
    )
        requires
            marks_irreducible(steps@) ==> node@.rewrite_system_index < old(self).irreducible_terms_per_phase@.len(),
        ensures
            final(self).node_count == old(self).node_count,
            final(self).irreducible_terms_per_phase@.len() == old(self).irreducible_terms_per_phase@.len(),
            forall|i: int|
                0 <= i < old(self).irreducible_terms_per_phase@.len() && !(marks_irreducible(steps@) && i
                    == node@.rewrite_system_index) ==> #[trigger] final(self).irreducible_terms_per_phase@[i] == old(
                    self,
                ).irreducible_terms_per_phase@[i],
            marks_irreducible(steps@) ==> {
                let before = old(self).irreducible_terms_per_phase@[node@.rewrite_system_index as int]@;
                let after = final(self).irreducible_terms_per_phase@[node@.rewrite_system_index as int]@;
                after == if before.contains(node@.term) {
                    before
                } else {
                    before.push(node@.term)
                }
            },
    {
        let reached_term_is_irreducible = if steps.len() == 0 {
            true
        } else if steps.len() == 1 {
            match &steps[0] {
                RewriteStepKind::GoToNextPhase => true,
                RewriteStepKind::Transform(_) => false,
            }
        } else {
            false
        };
        if reached_term_is_irreducible {
            let mut irrs = self.irreducible_terms_per_phase.remove(node.rewrite_system_index);
            let _ = irrs.insert(node.term.clone());
            self.irreducible_terms_per_phase.insert(node.rewrite_system_index, irrs);
        }
    }

    /// Whether the state calls for the end of the process: it never does.
    pub fn warrants_termination_of_the_process(
        &self,
        _context_and_param: &RewritingProcessContextAndParameterization<LOS>,
    ) -> (warranted: bool)
        ensures
            !warranted,
    {
        false
    }
}

} // verus!
