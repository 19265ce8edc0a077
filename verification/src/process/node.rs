use crate::rewriting_core::terms::term::{LanguageTerm, RewritableLanguageOperatorSymbol, TermModel};
use vstd::prelude::*;
use vstd::std_specs::cmp::PartialEqSpecImpl;

verus! {

/// The model of a [`RewriteNodeKind`].
pub struct NodeModel<LOS> {
    pub term: TermModel<LOS>,
    pub rewrite_system_index: usize,
}

/// A node of the process with fixed phases: a term, in the phase of a given index.
#[derive(Debug, Hash)]
pub struct RewriteNodeKind<LOS: RewritableLanguageOperatorSymbol> {
    pub term: LanguageTerm<LOS>,
    pub rewrite_system_index: usize,
}

impl<LOS: RewritableLanguageOperatorSymbol> View for RewriteNodeKind<LOS> {
    type V = NodeModel<LOS>;

    open spec fn view(&self) -> NodeModel<LOS> {
        NodeModel { term: self.term@, rewrite_system_index: self.rewrite_system_index }
    }
}

impl<LOS: RewritableLanguageOperatorSymbol> Clone for RewriteNodeKind<LOS> {
    fn clone(&self) -> (copy: Self)
        ensures
            copy@ == self@,
    {
        RewriteNodeKind { term: self.term.clone(), rewrite_system_index: self.rewrite_system_index }
    }
}

impl<LOS: RewritableLanguageOperatorSymbol> PartialEq for RewriteNodeKind<LOS> {
    fn eq(&self, other: &Self) -> (same: bool) {
        self.term == other.term && self.rewrite_system_index == other.rewrite_system_index
    }
}

impl<LOS: RewritableLanguageOperatorSymbol> PartialEqSpecImpl for RewriteNodeKind<LOS> {
    open spec fn obeys_eq_spec() -> bool {
        true
    }

    open spec fn eq_spec(&self, other: &Self) -> bool {
        self@ == other@
    }
}

impl<LOS: RewritableLanguageOperatorSymbol> Eq for RewriteNodeKind<LOS> {

}

impl<LOS: RewritableLanguageOperatorSymbol> RewriteNodeKind<LOS> {
    pub fn new(term: LanguageTerm<LOS>, rewrite_system_index: usize) -> (node: Self)
        ensures
            node@ == (NodeModel { term: term@, rewrite_system_index }),
    {
        Self { term, rewrite_system_index }
    }

    /// Whether this node is the memoized node: the same term in the same phase.
    pub fn is_included_for_memoization(&self, memoized_node: &Self) -> (included: bool)
        ensures
            included == (self@ == memoized_node@),
    {
        self == memoized_node
    }
}

} // verus!
