use crate::rewriting_core::model::some_function_of;
use crate::rewriting_core::terms::term::{LanguageTerm, RewritableLanguageOperatorSymbol, TermModel};
use vstd::prelude::*;

verus! {

/// The terms of a domain, as far as they can be built from rewritable terms.
pub trait FromRewritableTermToDomainSpecificTerm<LOS: RewritableLanguageOperatorSymbol>: Sized + Clone {
    /// The term of the domain with `operator` above `sub_terms`.
    open spec fn instantiated(operator: LOS, sub_terms: Seq<Self>) -> Self {
        some_function_of::<Self, _, _>("instantiated", (operator, sub_terms))
    }

    /// Builds the term of the domain with `operator` above `sub_terms`.
    fn instantiate_term_under_operator(operator: &LOS, sub_terms: &mut Vec<Self>) -> (term: Self)
        ensures
            term == Self::instantiated(*operator, old(sub_terms)@),
    ;
}

/// Conversion from the rewritable terms to the terms of the domain: builds
/// the term of the domain that `rewritable_term` stands for, from its
/// sub-terms up.
pub fn from_rewritable_term<LOS: RewritableLanguageOperatorSymbol, T: FromRewritableTermToDomainSpecificTerm<LOS>>(
    rewritable_term: &LanguageTerm<LOS>,
) -> (term: T)
    ensures
        term == domain_term_of::<LOS, T>(rewritable_term@),
    decreases rewritable_term,
{
    let mut sub_terms: Vec<T> = Vec::new();
    let mut i: usize = 0;
    while i < rewritable_term.sub_terms.len()
        invariant
            i <= rewritable_term.sub_terms@.len(),
            sub_terms@ == domain_terms_of::<LOS, T>(rewritable_term@.sub_terms.take(i as int)),
        decreases rewritable_term.sub_terms@.len() - i,
    {
        let sub_term = from_rewritable_term::<LOS, T>(&rewritable_term.sub_terms[i]);
        sub_terms.push(sub_term);
        proof {
            let prefix = rewritable_term@.sub_terms.take(i + 1);
            assert(prefix.drop_last() =~= rewritable_term@.sub_terms.take(i as int));
            assert(prefix.last() == rewritable_term.sub_terms@[i as int]@);
        }
        i += 1;
    }
    assert(rewritable_term@.sub_terms.take(i as int) =~= rewritable_term@.sub_terms);
    T::instantiate_term_under_operator(&rewritable_term.operator, &mut sub_terms)
}

/// The term of the domain that `term` stands for: its operator above the
/// terms that its sub-terms stand for.
pub open spec fn domain_term_of<LOS: RewritableLanguageOperatorSymbol, T: FromRewritableTermToDomainSpecificTerm<LOS>>(
    term: TermModel<LOS>,
) -> T
    decreases term,
{
    T::instantiated(term.operator, domain_terms_of::<LOS, T>(term.sub_terms))
}

/// The terms of the domain that `terms` stand for.
pub open spec fn domain_terms_of<LOS: RewritableLanguageOperatorSymbol, T: FromRewritableTermToDomainSpecificTerm<LOS>>(
    terms: Seq<TermModel<LOS>>,
) -> Seq<T>
    decreases terms,
{
    if terms.len() == 0 {
        Seq::empty()
    } else {
        domain_terms_of::<LOS, T>(terms.drop_last()).push(domain_term_of::<LOS, T>(terms.last()))
    }
}

} // verus!
