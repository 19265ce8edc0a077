use crate::rewriting_core::terms::term::{LanguageTerm, RewritableLanguageOperatorSymbol, TermModel};
use vstd::prelude::*;

verus! {

/// A set of terms, in the order in which they came in.
#[derive(Debug)]
pub struct TermSet<LOS: RewritableLanguageOperatorSymbol> {
    terms: Vec<LanguageTerm<LOS>>,
}

impl<LOS: RewritableLanguageOperatorSymbol> View for TermSet<LOS> {
    type V = Seq<TermModel<LOS>>;

    closed spec fn view(&self) -> Seq<TermModel<LOS>> {
        Seq::new(self.terms@.len(), |i: int| self.terms@[i]@)
    }
}

impl<LOS: RewritableLanguageOperatorSymbol> TermSet<LOS> {
    /// No term occurs twice.
    pub open spec fn is_duplicate_free(&self) -> bool {
        self@.no_duplicates()
    }

    /// The empty set.
    pub fn new() -> (set: Self)
        ensures
            set@ == Seq::<TermModel<LOS>>::empty(),
            set.is_duplicate_free(),
    {
        let set = TermSet { terms: Vec::new() };
        assert(set@ =~= Seq::empty());
        set
    }

    /// The set that holds `term` and nothing else.
    pub fn singleton(term: LanguageTerm<LOS>) -> (set: Self)
        ensures
            set@ == seq![term@],
            set.is_duplicate_free(),
    {
        let mut terms: Vec<LanguageTerm<LOS>> = Vec::new();
        terms.push(term);
        let set = TermSet { terms };
        assert(set@ =~= seq![term@]);
        set
    }

    /// The number of terms in the set.
    pub fn len(&self) -> (len: usize)
        ensures
            len == self@.len(),
    {
        self.terms.len()
    }

    /// Whether `term` is in the set.
    pub fn contains(&self, term: &LanguageTerm<LOS>) -> (found: bool)
        ensures
            found == self@.contains(term@),
    {
        let mut i: usize = 0;
        while i < self.terms.len()
            invariant
                i <= self.terms@.len(),
                forall|k: int| 0 <= k < i ==> self@[k] != term@,
            decreases self.terms@.len() - i,
        {
            if &self.terms[i] == term {
                assert(self@[i as int] == term@);
                return true;
            }
            i += 1;
        }
        false
    }

    /// Puts `term` into the set, where it is not in it yet. Returns whether it
    /// was put in.
    pub fn insert(&mut self, term: LanguageTerm<LOS>) -> (inserted: bool)
        ensures
            inserted == !old(self)@.contains(term@),
            final(self)@ == if inserted {
                old(self)@.push(term@)
            } else {
                old(self)@
            },
            old(self).is_duplicate_free() ==> final(self).is_duplicate_free(),
    {
        if self.contains(&term) {
            false
        } else {
            let ghost before = self@;
            self.terms.push(term);
            assert(self@ =~= before.push(term@));
            true
        }
    }

    /// The terms of the set, in the order in which they came in.
    pub fn as_slice(&self) -> (terms: &[LanguageTerm<LOS>])
        ensures
            terms@.len() == self@.len(),
            forall|i: int| 0 <= i < terms@.len() ==> (#[trigger] terms@[i])@ == self@[i],
    {
        self.terms.as_slice()
    }
}

} // verus!
