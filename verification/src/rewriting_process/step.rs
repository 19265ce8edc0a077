use crate::rewriting_core::apply::{TermTransformationResult, TransformationModel};
use crate::rewriting_core::terms::term::{RewritableLanguageOperatorSymbol, TermModel};
use vstd::prelude::*;

verus! {

/// The model of a [`RewriteStepKind`].
pub enum StepModel<LOS> {
    GoToSuccessorPhase(bool),
    TransformInSamePhase(TransformationModel<LOS>),
}

/// A step of the rewriting process.
pub enum RewriteStepKind<LOS: RewritableLanguageOperatorSymbol> {
    /// The term is irreducible in its phase and goes on to the phase that
    /// follows: that for changed terms (`true`) or that for unchanged terms.
    GoToSuccessorPhase(bool),
    /// A rule rewrites the term, which stays in its phase.
    TransformInSamePhase(TermTransformationResult<LOS>),
}

impl<LOS: RewritableLanguageOperatorSymbol> View for RewriteStepKind<LOS> {
    type V = StepModel<LOS>;

    open spec fn view(&self) -> StepModel<LOS> {
        match self {
            RewriteStepKind::GoToSuccessorPhase(term_was_changed) => StepModel::GoToSuccessorPhase(*term_was_changed),
            RewriteStepKind::TransformInSamePhase(result) => StepModel::TransformInSamePhase(result@),
        }
    }
}

/// The models of a sequence of steps.
pub open spec fn step_models<LOS: RewritableLanguageOperatorSymbol>(steps: Seq<RewriteStepKind<LOS>>) -> Seq<
    StepModel<LOS>,
> {
    Seq::new(steps.len(), |i: int| steps[i]@)
}

/// The term that a process holds after `step`, where it held `term` before.
pub open spec fn term_after<LOS>(term: TermModel<LOS>, step: StepModel<LOS>) -> TermModel<LOS> {
    match step {
        StepModel::GoToSuccessorPhase(_) => term,
        StepModel::TransformInSamePhase(transformation) => transformation.result,
    }
}

} // verus!
