use vstd::prelude::*;

verus! {

/// Why a filter stops the exploration at a node or at a step.
pub enum RewritingFiltrationResult {
    /// The process reached as many nodes as it may.
    MaxNodeNumber,
    /// The term of the node does not satisfy the predicate of this description.
    PredicateUnsat(String),
}

/// Why a filter of the fixed-phase process eliminates a node.
#[derive(Clone, Copy, PartialEq, Eq, Debug)]
pub enum RewriteFilterEliminationKind {
    /// The node lies deeper in the process than nodes may.
    MaxProcessDepth,
    /// The process reached as many nodes as it may.
    MaxNodeNumber,
}

} // verus!
