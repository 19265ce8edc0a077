use crate::rewriting_core::predicate::PredicateOnTerm;
use crate::rewriting_core::terms::term::RewritableLanguageOperatorSymbol;
use crate::rewriting_process::context::RewritingProcessContextAndParameterization;
use crate::rewriting_process::filtration::{RewriteFilterEliminationKind, RewritingFiltrationResult};
use crate::rewriting_process::node::RewriteNodeKind;
use crate::rewriting_process::state::RewritingProcessState;
use crate::rewriting_process::step::RewriteStepKind;
use vstd::prelude::*;

verus! {

/// A filter on the steps of the process.
pub enum RewriteStepFilter {
    /// No step is taken once this many nodes are reached.
    MaxNodeNumber(u32),
}

impl RewriteStepFilter {
    /// Tells why `_step` is not to be taken, if it is not: the cap on the
    /// number of nodes is reached.
    pub fn apply_filter<LOS: RewritableLanguageOperatorSymbol>(
        &self,
        _context_and_param: &RewritingProcessContextAndParameterization<LOS>,
        global_state: &RewritingProcessState<LOS>,
        _parent_node: &RewriteNodeKind<LOS>,
        _step: &RewriteStepKind<LOS>,
    ) -> (filtered: Option<RewritingFiltrationResult>)
        ensures
            match *self {
                RewriteStepFilter::MaxNodeNumber(max_node_number) => if global_state.node_count >= max_node_number {
                    filtered == Some(RewritingFiltrationResult::MaxNodeNumber)
                } else {
                    filtered.is_none()
                },
            },
    {
        match self {
            RewriteStepFilter::MaxNodeNumber(max_node_number) => {
                if global_state.node_count >= *max_node_number {
                    return Some(RewritingFiltrationResult::MaxNodeNumber);
                }
            },
        }
        None
    }
}

/// A filter on the nodes of the process, applied before their steps are collected.
#[verifier::reject_recursive_types(LOS)]
pub enum RewriteNodePreFilter<LOS: RewritableLanguageOperatorSymbol> {
    /// Only the nodes whose term satisfies the predicate are explored.
    MustSatPredicate(Box<dyn PredicateOnTerm<LOS>>),
}

impl<LOS: RewritableLanguageOperatorSymbol> RewriteNodePreFilter<LOS> {
    /// `term` passes the filter.
    pub open spec fn lets_through(&self, term: crate::rewriting_core::terms::term::TermModel<LOS>) -> bool {
        match self {
            RewriteNodePreFilter::MustSatPredicate(pred) => pred.satisfied_by(term),
        }
    }

    /// The description of what the filter asks of a term.
    pub open spec fn description(&self) -> Seq<char> {
        match self {
            RewriteNodePreFilter::MustSatPredicate(pred) => pred.description(),
        }
    }

    /// Tells why `node` is not to be explored, if it is not: its term does
    /// not satisfy the predicate.
    pub fn apply_filter(
        &self,
        _context_and_param: &RewritingProcessContextAndParameterization<LOS>,
        _global_state: &RewritingProcessState<LOS>,
        node: &RewriteNodeKind<LOS>,
    ) -> (filtered: Option<RewritingFiltrationResult>)
        ensures
            filtered.is_none() == self.lets_through(node@.term),
            filtered matches Some(reason) ==> reason matches RewritingFiltrationResult::PredicateUnsat(description)
                && description@ == self.description(),
    {
        match self {
            RewriteNodePreFilter::MustSatPredicate(pred) => {
                if !pred.term_satisfies(&node.term) {
                    return Some(RewritingFiltrationResult::PredicateUnsat(pred.get_desc()));
                }
            },
        }
        None
    }
}

/// What a filter of the fixed-phase process may look at besides the depth
/// and the number of nodes: nothing so far.
pub struct RewriteFilterCriterion {}

/// A filter of the fixed-phase process.
pub enum RewriteFilter {
    /// No node is explored that lies deeper than this.
    MaxProcessDepth(u32),
    /// No node is explored once this many nodes are reached.
    MaxNodeNumber(u32),
}

impl RewriteFilter {
    /// Tells why a node at `depth`, reached when `node_counter` nodes were
    /// reached before, is eliminated, if it is.
    pub fn apply_filter(&self, depth: u32, node_counter: u32, _criterion: &RewriteFilterCriterion) -> (eliminated: Option<
        RewriteFilterEliminationKind,
    >)
        ensures
            eliminated == match *self {
                RewriteFilter::MaxProcessDepth(max_depth) => if depth > max_depth {
                    Some(RewriteFilterEliminationKind::MaxProcessDepth)
                } else {
                    None
                },
                RewriteFilter::MaxNodeNumber(max_node_number) => if node_counter >= max_node_number {
                    Some(RewriteFilterEliminationKind::MaxNodeNumber)
                } else {
                    None
                },
            },
    {
        match self {
            RewriteFilter::MaxProcessDepth(max_depth) => {
                if depth > *max_depth {
                    return Some(RewriteFilterEliminationKind::MaxProcessDepth);
                }
            },
            RewriteFilter::MaxNodeNumber(max_node_number) => {
                if node_counter >= *max_node_number {
                    return Some(RewriteFilterEliminationKind::MaxNodeNumber);
                }
            },
        }
        None
    }
}

} // verus!
