use crate::rewriting_core::terms::term::{LanguageTerm, RewritableLanguageOperatorSymbol, TermModel};
use vstd::prelude::*;
use vstd::std_specs::cmp::PartialEqSpecImpl;

verus! {

/// The model of a [`RewriteNodeKind`].
pub struct NodeModel<LOS> {
    pub term: TermModel<LOS>,
    pub concrete_rewrite_phase_index: usize,
}

/// A node of the rewriting process: a term, in a concrete phase.
#[derive(Debug, Hash)]
pub struct RewriteNodeKind<LOS: RewritableLanguageOperatorSymbol> {
    /// the term that is being rewritten
    pub term: LanguageTerm<LOS>,
    /// the identifier of the concrete rewrite phase as part of which the term is being rewritten
    pub concrete_rewrite_phase_index: usize,
}

impl<LOS: RewritableLanguageOperatorSymbol> View for RewriteNodeKind<LOS> {
    type V = NodeModel<LOS>;

    open spec fn view(&self) -> NodeModel<LOS> {
        NodeModel { term: self.term@, concrete_rewrite_phase_index: self.concrete_rewrite_phase_index }
    }
}

impl<LOS: RewritableLanguageOperatorSymbol> Clone for RewriteNodeKind<LOS> {
    fn clone(&self) -> (copy: Self)
        ensures
            copy@ == self@,
    {
        RewriteNodeKind { term: self.term.clone(), concrete_rewrite_phase_index: self.concrete_rewrite_phase_index }
    }
}

impl<LOS: RewritableLanguageOperatorSymbol> PartialEq for RewriteNodeKind<LOS> {
    fn eq(&self, other: &Self) -> (same: bool) {
        self.term == other.term && self.concrete_rewrite_phase_index == other.concrete_rewrite_phase_index
    }
}

impl<LOS: RewritableLanguageOperatorSymbol> PartialEqSpecImpl for RewriteNodeKind<LOS> {
    open spec fn obeys_eq_spec() -> bool {
        true
    }

    open spec fn eq_spec(&self, other: &Self) -> bool {
        self@ == other@
    }
}

impl<LOS: RewritableLanguageOperatorSymbol> Eq for RewriteNodeKind<LOS> {

}

impl<LOS: RewritableLanguageOperatorSymbol> RewriteNodeKind<LOS> {
    pub fn new(term: LanguageTerm<LOS>, concrete_rewrite_phase_index: usize) -> (node: Self)
        ensures
            node@ == (NodeModel { term: term@, concrete_rewrite_phase_index }),
    {
        Self { term, concrete_rewrite_phase_index }
    }

    /// Whether this node is the memoized node: the same term in the same phase.
    pub fn is_included_for_memoization(&self, memoized_node: &Self) -> (included: bool)
        ensures
            included == (self@ == memoized_node@),
    {
        self == memoized_node
    }
}

} // verus!
