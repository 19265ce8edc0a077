use crate::process::step::{RewriteStepKind, StepModel};
use crate::rewriting_core::terms::term::RewritableLanguageOperatorSymbol;
use std::collections::HashMap;
use vstd::prelude::*;

verus! {

/// How the rewrite rules and their applications are prioritized.
///
/// For each rule, a score: the higher it is, the earlier the rule is
/// applied. For each phase, a depth modifier: below zero, rules are
/// preferably applied closer to the root; above zero, deeper in the term.
pub struct RewritePriorities {
    /// for each phase, the score of each rule
    pub rewrite_rules_priorities: HashMap<usize, HashMap<usize, i32>>,
    /// for each phase, the depth modifier
    pub depth_modifiers: HashMap<usize, i32>,
    /// the priority of the step to the next phase
    pub next_phase_priority: i32,
}

impl Default for RewritePriorities {
    /// The priorities by default: no score, no depth modifier, and 1 for the
    /// step to the next phase.
    fn default() -> (priorities: Self)
        ensures
            priorities.rewrite_rules_priorities@ == Map::<usize, HashMap<usize, i32>>::empty(),
            priorities.depth_modifiers@ == Map::<usize, i32>::empty(),
            priorities.next_phase_priority == 1,
    {
        RewritePriorities::new(HashMap::new(), HashMap::new(), 1)
    }
}

impl RewritePriorities {
    pub fn new(
        rewrite_rules_priorities: HashMap<usize, HashMap<usize, i32>>,
        depth_modifiers: HashMap<usize, i32>,
        next_phase_priority: i32,
    ) -> (priorities: Self)
        ensures
            priorities.rewrite_rules_priorities == rewrite_rules_priorities,
            priorities.depth_modifiers == depth_modifiers,
            priorities.next_phase_priority == next_phase_priority,
    {
        Self { rewrite_rules_priorities, depth_modifiers, next_phase_priority }
    }

    /// The score of the rule of index `rule` in the phase of index `phase`, or 0.
    pub open spec fn rule_score(&self, phase: usize, rule: usize) -> int {
        if self.rewrite_rules_priorities@.contains_key(phase) && self.rewrite_rules_priorities@[phase]@.contains_key(
            rule,
        ) {
            self.rewrite_rules_priorities@[phase]@[rule] as int
        } else {
            0
        }
    }

    /// The depth modifier of the phase of index `phase`, or 0.
    pub open spec fn depth_modifier(&self, phase: usize) -> int {
        if self.depth_modifiers@.contains_key(phase) {
            self.depth_modifiers@[phase] as int
        } else {
            0
        }
    }

    /// The priority of a step: for a rewrite, the score of the rule plus the
    /// depth modifier of the phase times the depth of the position; for the
    /// step to the next phase, its own priority.
    pub open spec fn priority_of<LOS>(&self, step: StepModel<LOS>) -> int {
        match step {
            StepModel::Transform(transformation) => self.rule_score(
                transformation.phase_index,
                transformation.rule_index_in_phase,
            ) + transformation.position.len() * self.depth_modifier(transformation.phase_index),
            StepModel::GoToNextPhase => self.next_phase_priority as int,
        }
    }

    /// The numbers that make up the priority of `step` fit the machine
    /// numbers that hold them.
    pub open spec fn priority_fits<LOS>(&self, step: StepModel<LOS>) -> bool {
        match step {
            StepModel::Transform(transformation) => {
                &&& transformation.position.len() <= i32::MAX
                &&& i32::MIN <= transformation.position.len() * self.depth_modifier(transformation.phase_index)
                    <= i32::MAX
                &&& i32::MIN <= self.priority_of(step) <= i32::MAX
            },
            StepModel::GoToNextPhase => true,
        }
    }

    /// The priority of `step` among the steps that lead on from one node.
    pub fn get_priority_of_step<LOS: RewritableLanguageOperatorSymbol>(&self, step: &RewriteStepKind<LOS>) -> (priority:
        i32)
        requires
            self.priority_fits(step@),
        ensures
            priority == self.priority_of(step@),
    {
        broadcast use vstd::std_specs::hash::group_hash_axioms;

        match step {
            RewriteStepKind::Transform(transfo) => {
                let mut score: i32 = 0;
                if let Some(phase_priorities) = self.rewrite_rules_priorities.get(&transfo.phase_index) {
                    if let Some(rule_priority) = phase_priorities.get(&transfo.rule_index_in_phase) {
                        score = *rule_priority;
                    }
                }
                if let Some(depth_modifier) = self.depth_modifiers.get(&transfo.phase_index) {
                    let depth = transfo.position.get_depth() as i32;
                    assert(depth * (*depth_modifier) == transfo@.position.len() * self.depth_modifier(
                        transfo@.phase_index,
                    ));
                    score = score + depth * (*depth_modifier);
                }
                score
            },
            RewriteStepKind::GoToNextPhase => self.next_phase_priority,
        }
    }
}

} // verus!
