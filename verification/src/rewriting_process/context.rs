use crate::rewriting_core::rule::RewriteRule;
use crate::rewriting_core::terms::term::RewritableLanguageOperatorSymbol;
use vstd::prelude::*;

verus! {

/// An abstract rewriting phase: the rules by which input terms are rewritten
/// until none applies. It is abstract as it can be entered several times. A
/// term that is irreducible in the phase may be handed on to another phase:
/// to one phase where the rewriting changed it, to another where it did not.
#[verifier::reject_recursive_types(LOS)]
pub struct AbstractRewritingPhase<LOS: RewritableLanguageOperatorSymbol> {
    pub rules: Vec<Box<dyn RewriteRule<LOS>>>,
    pub next_phase_id_on_changed: Option<usize>,
    pub next_phase_id_on_unchanged: Option<usize>,
}

impl<LOS: RewritableLanguageOperatorSymbol> AbstractRewritingPhase<LOS> {
    pub fn new(
        rules: Vec<Box<dyn RewriteRule<LOS>>>,
        next_phase_id_on_changed: Option<usize>,
        next_phase_id_on_unchanged: Option<usize>,
    ) -> (phase: Self)
        ensures
            phase.rules == rules,
            phase.next_phase_id_on_changed == next_phase_id_on_changed,
            phase.next_phase_id_on_unchanged == next_phase_id_on_unchanged,
    {
        Self { rules, next_phase_id_on_changed, next_phase_id_on_unchanged }
    }

    /// The phase that follows this one for a term that it changed, or left as
    /// it was.
    pub open spec fn successor(&self, term_was_changed: bool) -> Option<usize> {
        if term_was_changed {
            self.next_phase_id_on_changed
        } else {
            self.next_phase_id_on_unchanged
        }
    }
}

/// The phases of a rewriting process, and whether a single rewrite step is
/// enough at each node.
#[verifier::reject_recursive_types(LOS)]
pub struct RewritingProcessContextAndParameterization<LOS: RewritableLanguageOperatorSymbol> {
    pub phases: Vec<AbstractRewritingPhase<LOS>>,
    pub keep_only_one: bool,
}

impl<LOS: RewritableLanguageOperatorSymbol> RewritingProcessContextAndParameterization<LOS> {
    pub fn new(phases: Vec<AbstractRewritingPhase<LOS>>, keep_only_one: bool) -> (context: Self)
        ensures
            context.phases == phases,
            context.keep_only_one == keep_only_one,
    {
        Self { phases, keep_only_one }
    }

    /// There is a first phase, and every phase that follows another is a
    /// phase of the process.
    pub open spec fn is_well_formed(&self) -> bool {
        &&& self.phases@.len() > 0
        &&& forall|i: int, term_was_changed: bool|
            0 <= i < self.phases@.len() ==> match (#[trigger] self.phases@[i].successor(term_was_changed)) {
                Some(next) => next < self.phases@.len(),
                None => true,
            }
    }

    /// Tells whether the phases are well formed.
    pub fn check_is_well_formed(&self) -> (well_formed: bool)
        ensures
            well_formed == self.is_well_formed(),
    {
        let count = self.phases.len();
        if count == 0 {
            return false;
        }
        let mut i: usize = 0;
        while i < count
            invariant
                i <= count,
                count == self.phases@.len(),
                forall|k: int, term_was_changed: bool|
                    0 <= k < i ==> match (#[trigger] self.phases@[k].successor(term_was_changed)) {
                        Some(next) => next < self.phases@.len(),
                        None => true,
                    },
            decreases count - i,
        {
            let phase = &self.phases[i];
            if let Some(next) = phase.next_phase_id_on_changed {
                if next >= count {
                    assert(phase.successor(true) == Some(next));
                    return false;
                }
            }
            if let Some(next) = phase.next_phase_id_on_unchanged {
                if next >= count {
                    assert(phase.successor(false) == Some(next));
                    return false;
                }
            }
            i += 1;
        }
        true
    }
}

} // verus!
