use crate::rewriting_core::apply::{TermTransformationResult, TransformationModel};
use crate::rewriting_core::terms::term::RewritableLanguageOperatorSymbol;
use vstd::prelude::*;

verus! {

/// The model of a [`RewriteStepKind`].
pub enum StepModel<LOS> {
    GoToNextPhase,
    Transform(TransformationModel<LOS>),
}

/// A step of the process with fixed phases.
pub enum RewriteStepKind<LOS: RewritableLanguageOperatorSymbol> {
    /// The term is irreducible in its phase and goes on to the next one.
    GoToNextPhase,
    /// A rule rewrites the term, which stays in its phase.
    Transform(TermTransformationResult<LOS>),
}

impl<LOS: RewritableLanguageOperatorSymbol> View for RewriteStepKind<LOS> {
    type V = StepModel<LOS>;

    open spec fn view(&self) -> StepModel<LOS> {
        match self {
            RewriteStepKind::GoToNextPhase => StepModel::GoToNextPhase,
            RewriteStepKind::Transform(result) => StepModel::Transform(result@),
        }
    }
}

/// The models of a sequence of steps.
pub open spec fn step_models<LOS: RewritableLanguageOperatorSymbol>(steps: Seq<RewriteStepKind<LOS>>) -> Seq<
    StepModel<LOS>,
> {
    Seq::new(steps.len(), |i: int| steps[i]@)
}

} // verus!
