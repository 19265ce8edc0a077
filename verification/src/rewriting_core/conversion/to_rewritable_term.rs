use crate::rewriting_core::model::some_function_of;
use crate::rewriting_core::terms::term::{LanguageTerm, RewritableLanguageOperatorSymbol, TermModel};
use vstd::prelude::*;

verus! {

/// The terms of a domain, as far as they can be turned into rewritable terms.
pub trait FromDomainSpecificTermToRewritableTerm<LOS: RewritableLanguageOperatorSymbol>: Sized + Clone {
    /// The operator at the root of the term.
    open spec fn operator_at_root(&self) -> LOS {
        some_function_of::<Self, _, _>("operator_at_root", self)
    }

    /// The sub-terms of the term.
    open spec fn subterms(&self) -> Seq<Self> {
        some_function_of::<Self, _, _>("subterms", self)
    }

    /// The number of nodes on the longest way down from the root of the term.
    open spec fn height(&self) -> nat {
        some_function_of::<Self, _, _>("height", self)
    }

    /// Returns the operator at the root of the domain specific term.
    fn get_operator_at_root(&self) -> (operator: LOS)
        ensures
            operator == self.operator_at_root(),
    ;

    /// Returns the sub-terms of the domain specific term: each of them is
    /// less high than the term.
    fn get_subterms<'a>(&'a self) -> (subterms: Vec<&'a Self>)
        ensures
            subterms@.len() == self.subterms().len(),
            forall|i: int| 0 <= i < subterms@.len() ==> *(#[trigger] subterms@[i]) == self.subterms()[i],
            forall|i: int| 0 <= i < subterms@.len() ==> (#[trigger] self.subterms()[i]).height() < self.height(),
    ;
}

/// Conversion from the terms of the domain to the rewritable terms: builds
/// the rewritable term that `term` stands for, from its sub-terms up.
pub fn to_rewritable_term<LOS: RewritableLanguageOperatorSymbol, T: FromDomainSpecificTermToRewritableTerm<LOS>>(
    term: &T,
) -> (rewritable_term: LanguageTerm<LOS>)
    ensures
        rewritable_term@ == rewritable_term_of(*term),
    decreases term.height(),
{
    let subterms = term.get_subterms();
    let mut sub_terms: Vec<LanguageTerm<LOS>> = Vec::new();
    let mut i: usize = 0;
    while i < subterms.len()
        invariant
            i <= subterms@.len(),
            subterms@.len() == term.subterms().len(),
            forall|k: int| 0 <= k < subterms@.len() ==> *(#[trigger] subterms@[k]) == term.subterms()[k],
            forall|k: int| 0 <= k < subterms@.len() ==> (#[trigger] term.subterms()[k]).height() < term.height(),
            sub_terms@.len() == i,
            forall|k: int| 0 <= k < i ==> (#[trigger] sub_terms@[k])@ == rewritable_term_of(term.subterms()[k]),
        decreases subterms@.len() - i,
    {
        let ghost sub = term.subterms()[i as int];
        assert(*subterms@[i as int] == sub);
        let sub_term = to_rewritable_term(subterms[i]);
        sub_terms.push(sub_term);
        i += 1;
    }
    let rewritable_term = LanguageTerm::new(term.get_operator_at_root(), sub_terms);
    assert(rewritable_term@.sub_terms =~= rewritable_term_of(*term).sub_terms);
    rewritable_term
}

/// The rewritable term that `term` stands for: its operator above the
/// rewritable terms that its sub-terms stand for, as far as these are less
/// high than `term`.
pub open spec fn rewritable_term_of<LOS: RewritableLanguageOperatorSymbol, T: FromDomainSpecificTermToRewritableTerm<LOS>>(
    term: T,
) -> TermModel<LOS>
    decreases term.height(),
{
    TermModel {
        operator: term.operator_at_root(),
        sub_terms: Seq::new(
            term.subterms().len(),
            |i: int|
                if 0 <= i < term.subterms().len() && term.subterms()[i].height() < term.height() {
                    rewritable_term_of(term.subterms()[i])
                } else {
                    arbitrary()
                },
        ),
    }
}

} // verus!
