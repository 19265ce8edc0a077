use crate::process::context::RewritingProcessContextAndParameterization;
use crate::process::node::{NodeModel, RewriteNodeKind};
use crate::process::step::{RewriteStepKind, StepModel, step_models};
use crate::rewriting_core::apply::{get_transformations, transformation_models, transformations};
use crate::rewriting_core::terms::term::RewritableLanguageOperatorSymbol;
use vstd::prelude::*;

verus! {

/// The decisions of the process with fixed phases.
pub struct RewriteProcessHandler {}

/// The steps that lead on from `node`: none once the last phase is left;
/// else one step for each transformation of the term by the rules of its
/// phase; and the step to the next phase where there is no transformation.
pub open spec fn next_steps<LOS: RewritableLanguageOperatorSymbol>(
    context: &RewritingProcessContextAndParameterization<LOS>,
    node: NodeModel<LOS>,
) -> Seq<StepModel<LOS>> {
    if node.rewrite_system_index >= context.phases@.len() {
        Seq::empty()
    } else {
        let phase = context.phases@[node.rewrite_system_index as int];
        let found = transformations(
            node.rewrite_system_index,
            phase.rules@,
            node.term,
            phase.keep_only_one,
            node.term,
            Seq::empty(),
        );
        if found.len() == 0 {
            seq![StepModel::GoToNextPhase]
        } else {
            Seq::new(found.len(), |i: int| StepModel::Transform(found[i]))
        }
    }
}

/// The node that `step` leads to from `node`: the same term in the next
/// phase, or the rewritten term in the same phase.
pub open spec fn node_after<LOS>(node: NodeModel<LOS>, step: StepModel<LOS>) -> NodeModel<LOS> {
    match step {
        StepModel::GoToNextPhase => NodeModel {
            term: node.term,
            rewrite_system_index: (node.rewrite_system_index + 1) as usize,
        },
        StepModel::Transform(transformation) => NodeModel {
            term: transformation.result,
            rewrite_system_index: node.rewrite_system_index,
        },
    }
}

impl RewriteProcessHandler {
    /// The node that `step_to_process` leads to from `parent_node`.
    pub fn process_new_step<LOS: RewritableLanguageOperatorSymbol>(
        _context_and_param: &RewritingProcessContextAndParameterization<LOS>,
        parent_node: &RewriteNodeKind<LOS>,
        step_to_process: &RewriteStepKind<LOS>,
    ) -> (node: RewriteNodeKind<LOS>)
        requires
            step_to_process@ is GoToNextPhase ==> parent_node@.rewrite_system_index < usize::MAX,
        ensures
            node@ == node_after(parent_node@, step_to_process@),
    {
        match step_to_process {
            RewriteStepKind::GoToNextPhase => RewriteNodeKind::new(
                parent_node.term.clone(),
                parent_node.rewrite_system_index + 1,
            ),
            RewriteStepKind::Transform(result) => RewriteNodeKind::new(
                result.result.clone(),
                parent_node.rewrite_system_index,
            ),
        }
    }

    /// The steps that lead on from `parent_node`.
    pub fn collect_next_steps<LOS: RewritableLanguageOperatorSymbol>(
        context_and_param: &RewritingProcessContextAndParameterization<LOS>,
        parent_node: &RewriteNodeKind<LOS>,
    ) -> (steps: Vec<RewriteStepKind<LOS>>)
        ensures
            step_models(steps@) == next_steps(context_and_param, parent_node@),
    {
        let mut steps: Vec<RewriteStepKind<LOS>> = Vec::new();
        if parent_node.rewrite_system_index >= context_and_param.phases.len() {
            assert(step_models(steps@) =~= Seq::empty());
            return steps;
        }
        let phase = &context_and_param.phases[parent_node.rewrite_system_index];
        let mut transfos = get_transformations(
            parent_node.rewrite_system_index,
            &phase.rules,
            &parent_node.term,
            phase.keep_only_one,
        );
        let ghost found = transformation_models(transfos@);
        if transfos.is_empty() {
            steps.push(RewriteStepKind::GoToNextPhase);
            assert(step_models(steps@) =~= seq![StepModel::GoToNextPhase]);
        } else {
            let count = transfos.len();
            while transfos.len() > 0
                invariant
                    count == found.len(),
                    steps@.len() + transfos@.len() == count,
                    forall|i: int| 0 <= i < steps@.len() ==> (#[trigger] steps@[i])@ == StepModel::Transform(found[i]),
                    forall|i: int| 0 <= i < transfos@.len() ==> (#[trigger] transfos@[i])@ == found[steps@.len() + i],
                decreases transfos@.len(),
            {
                let transfo = transfos.remove(0);
                steps.push(RewriteStepKind::Transform(transfo));
            }
            assert(step_models(steps@) =~= Seq::new(found.len(), |i: int| StepModel::Transform(found[i])));
        }
        steps
    }
}

} // verus!
