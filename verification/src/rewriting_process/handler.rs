use crate::rewriting_core::apply::{TermTransformationResult, get_transformations, transformation_models, transformations};
use crate::rewriting_core::terms::term::{RewritableLanguageOperatorSymbol, TermModel};
use crate::rewriting_process::context::{AbstractRewritingPhase, RewritingProcessContextAndParameterization};
use crate::rewriting_process::node::{NodeModel, RewriteNodeKind};
use crate::rewriting_process::state::{ConcreteRewritingPhaseInformation, RewritingProcessState};
use crate::rewriting_process::step::{RewriteStepKind, StepModel, step_models, term_after};
use crate::rewriting_process::term_set::TermSet;
use vstd::prelude::*;

verus! {

/// The decisions of the rewriting process: which steps lead on from a node,
/// and which node a step leads to.
pub struct RewriteProcessHandler {}

/// The steps that lead on from a node that holds `term` in a concrete phase of
/// index `phase_index` that stands for `phase`:
/// - where rules apply, one step for each transformation of the term;
/// - where none applies, the step to the phase that follows, if one follows:
///   to the one for unchanged terms where the phase was entered with `term`
///   itself, to the one for changed terms where it was not.
pub open spec fn next_steps<LOS: RewritableLanguageOperatorSymbol>(
    phase: AbstractRewritingPhase<LOS>,
    keep_only_one: bool,
    phase_index: usize,
    term: TermModel<LOS>,
    entered_with_term: bool,
) -> Seq<StepModel<LOS>> {
    let found = transformations(phase_index, phase.rules@, term, keep_only_one, term, Seq::empty());
    if found.len() == 0 {
        match phase.successor(!entered_with_term) {
            Some(_) => seq![StepModel::GoToSuccessorPhase(!entered_with_term)],
            None => Seq::empty(),
        }
    } else {
        Seq::new(found.len(), |i: int| StepModel::TransformInSamePhase(found[i]))
    }
}

/// `term` is irreducible in `phase`: no rule of the phase applies at any of
/// its positions.
pub open spec fn is_irreducible<LOS: RewritableLanguageOperatorSymbol>(
    phase: AbstractRewritingPhase<LOS>,
    keep_only_one: bool,
    phase_index: usize,
    term: TermModel<LOS>,
) -> bool {
    transformations(phase_index, phase.rules@, term, keep_only_one, term, Seq::empty()).len() == 0
}

/// A node of `state` in a process of `context`: it stands in a concrete phase
/// of the state, which stands for a phase of the context.
pub open spec fn is_node_of<LOS: RewritableLanguageOperatorSymbol>(
    context: &RewritingProcessContextAndParameterization<LOS>,
    state: &RewritingProcessState<LOS>,
    node: NodeModel<LOS>,
) -> bool {
    &&& node.concrete_rewrite_phase_index < state.concrete_phases@.len()
    &&& state.concrete_phases@[node.concrete_rewrite_phase_index as int].model_abstract_phase_id < context.phases@.len()
}

/// The phase of `context` that the concrete phase of `node` stands for.
pub open spec fn phase_of<LOS: RewritableLanguageOperatorSymbol>(
    context: &RewritingProcessContextAndParameterization<LOS>,
    state: &RewritingProcessState<LOS>,
    node: NodeModel<LOS>,
) -> AbstractRewritingPhase<LOS>
    recommends
        is_node_of(context, state, node),
{
    context.phases@[state.concrete_phases@[node.concrete_rewrite_phase_index as int].model_abstract_phase_id as int]
}

/// `step` can be taken from `node`: a rewrite always can, and a step to the
/// phase that follows can where such a phase was entered before or is
/// configured.
pub open spec fn is_step_from<LOS: RewritableLanguageOperatorSymbol>(
    context: &RewritingProcessContextAndParameterization<LOS>,
    state: &RewritingProcessState<LOS>,
    node: NodeModel<LOS>,
    step: StepModel<LOS>,
) -> bool {
    &&& is_node_of(context, state, node)
    &&& state.concrete_phases@.len() < usize::MAX
    &&& match step {
        StepModel::GoToSuccessorPhase(term_was_changed) => state.successors(term_was_changed).contains_key(
            node.concrete_rewrite_phase_index,
        ) || phase_of(context, state, node).successor(term_was_changed).is_some(),
        StepModel::TransformInSamePhase(_) => true,
    }
}

impl RewriteProcessHandler {
    /// Tells whether `node` is a node of `state` in a process of `context`.
    pub fn check_is_node_of<LOS: RewritableLanguageOperatorSymbol>(
        context_and_param: &RewritingProcessContextAndParameterization<LOS>,
        global_state: &RewritingProcessState<LOS>,
        node: &RewriteNodeKind<LOS>,
    ) -> (valid: bool)
        ensures
            valid == is_node_of(context_and_param, global_state, node@),
    {
        node.concrete_rewrite_phase_index < global_state.concrete_phases.len()
            && global_state.concrete_phases[node.concrete_rewrite_phase_index].model_abstract_phase_id
            < context_and_param.phases.len()
    }

    /// Tells whether `step` can be taken from `parent_node`.
    pub fn check_is_step_from<LOS: RewritableLanguageOperatorSymbol>(
        context_and_param: &RewritingProcessContextAndParameterization<LOS>,
        global_state: &RewritingProcessState<LOS>,
        parent_node: &RewriteNodeKind<LOS>,
        step: &RewriteStepKind<LOS>,
    ) -> (valid: bool)
        ensures
            valid == is_step_from(context_and_param, global_state, parent_node@, step@),
    {
        broadcast use vstd::std_specs::hash::group_hash_axioms;

        if !Self::check_is_node_of(context_and_param, global_state, parent_node) {
            return false;
        }
        if global_state.concrete_phases.len() == usize::MAX {
            return false;
        }
        let concrete_phase = &global_state.concrete_phases[parent_node.concrete_rewrite_phase_index];
        let abstract_phase = &context_and_param.phases[concrete_phase.model_abstract_phase_id];
        match step {
            RewriteStepKind::GoToSuccessorPhase(term_was_changed) => {
                if *term_was_changed {
                    global_state.successors_on_changed.contains_key(&parent_node.concrete_rewrite_phase_index)
                        || abstract_phase.next_phase_id_on_changed.is_some()
                } else {
                    global_state.successors_on_unchanged.contains_key(&parent_node.concrete_rewrite_phase_index)
                        || abstract_phase.next_phase_id_on_unchanged.is_some()
                }
            },
            RewriteStepKind::TransformInSamePhase(_) => true,
        }
    }

    /// The steps that lead on from `parent_node`. Where no rule applies, the
    /// term of the node is irreducible in its phase, and is put among the
    /// irreducible terms of that phase.
    pub fn collect_next_steps<LOS: RewritableLanguageOperatorSymbol>(
        context_and_param: &RewritingProcessContextAndParameterization<LOS>,
        global_state: &mut RewritingProcessState<LOS>,
        parent_node: &RewriteNodeKind<LOS>,
    ) -> (steps: Vec<RewriteStepKind<LOS>>)
        requires
            is_node_of(context_and_param, old(global_state), parent_node@),
        ensures
            step_models(steps@) == next_steps(
                phase_of(context_and_param, old(global_state), parent_node@),
                context_and_param.keep_only_one,
                parent_node@.concrete_rewrite_phase_index,
                parent_node@.term,
                old(global_state).concrete_phases@[parent_node@.concrete_rewrite_phase_index as int].initial_input_terms@.contains(
                    parent_node@.term,
                ),
            ),
            final(global_state).successors_on_changed == old(global_state).successors_on_changed,
            final(global_state).successors_on_unchanged == old(global_state).successors_on_unchanged,
            final(global_state).node_count == old(global_state).node_count,
            final(global_state).concrete_phases@.len() == old(global_state).concrete_phases@.len(),
            forall|i: int|
                0 <= i < old(global_state).concrete_phases@.len() && i != parent_node@.concrete_rewrite_phase_index
                    ==> #[trigger] final(global_state).concrete_phases@[i] == old(global_state).concrete_phases@[i],
            ({
                let before = old(global_state).concrete_phases@[parent_node@.concrete_rewrite_phase_index as int];
                let after = final(global_state).concrete_phases@[parent_node@.concrete_rewrite_phase_index as int];
                &&& after.model_abstract_phase_id == before.model_abstract_phase_id
                &&& after.initial_input_terms == before.initial_input_terms
                &&& after.final_irreducible_terms@ == if is_irreducible(
                    phase_of(context_and_param, old(global_state), parent_node@),
                    context_and_param.keep_only_one,
                    parent_node@.concrete_rewrite_phase_index,
                    parent_node@.term,
                ) && !before.final_irreducible_terms@.contains(parent_node@.term) {
                    before.final_irreducible_terms@.push(parent_node@.term)
                } else {
                    before.final_irreducible_terms@
                }
                &&& before.final_irreducible_terms.is_duplicate_free()
                    ==> after.final_irreducible_terms.is_duplicate_free()
            }),
    {
        let index = parent_node.concrete_rewrite_phase_index;
        let abstract_phase = &context_and_param.phases[global_state.concrete_phases[index].model_abstract_phase_id];
        let mut transfos = get_transformations(
            index,
            &abstract_phase.rules,
            &parent_node.term,
            context_and_param.keep_only_one,
        );
        let ghost found = transformation_models(transfos@);
        let mut steps: Vec<RewriteStepKind<LOS>> = Vec::new();
        if transfos.is_empty() {
            let mut concrete_phase = global_state.concrete_phases.remove(index);
            let entered_with_term = concrete_phase.initial_input_terms.contains(&parent_node.term);
            let _ = concrete_phase.final_irreducible_terms.insert(parent_node.term.clone());
            global_state.concrete_phases.insert(index, concrete_phase);
            if entered_with_term {
                if abstract_phase.next_phase_id_on_unchanged.is_some() {
                    steps.push(RewriteStepKind::GoToSuccessorPhase(false));
                }
            } else {
                if abstract_phase.next_phase_id_on_changed.is_some() {
                    steps.push(RewriteStepKind::GoToSuccessorPhase(true));
                }
            }
            assert(step_models(steps@) =~= next_steps(
                *abstract_phase,
                context_and_param.keep_only_one,
                index,
                parent_node@.term,
                entered_with_term,
            ));
        } else {
            let count = transfos.len();
            while transfos.len() > 0
                invariant
                    count == found.len(),
                    steps@.len() + transfos@.len() == count,
                    forall|i: int| 0 <= i < steps@.len() ==> (#[trigger] steps@[i])@ == StepModel::TransformInSamePhase(found[i]),
                    forall|i: int| 0 <= i < transfos@.len() ==> (#[trigger] transfos@[i])@ == found[steps@.len() + i],
                decreases transfos@.len(),
            {
                let transfo = transfos.remove(0);
                steps.push(RewriteStepKind::TransformInSamePhase(transfo));
            }
            assert(step_models(steps@) =~= Seq::new(found.len(), |i: int| StepModel::TransformInSamePhase(found[i])));
        }
        steps
    }

    /// The node that `step_to_process` leads to from `parent_node`.
    ///
    /// A rewrite leads to the rewritten term in the same concrete phase. A
    /// step to the phase that follows leads to the same term in the concrete
    /// phase that follows that of `parent_node`: the one entered before from
    /// there, or else a new one, entered with this term, which is put down
    /// in `global_state`.
    pub fn process_new_step<LOS: RewritableLanguageOperatorSymbol>(
        context_and_param: &RewritingProcessContextAndParameterization<LOS>,
        global_state: &mut RewritingProcessState<LOS>,
        parent_node: &RewriteNodeKind<LOS>,
        step_to_process: &RewriteStepKind<LOS>,
    ) -> (node: RewriteNodeKind<LOS>)
        requires
            is_step_from(context_and_param, old(global_state), parent_node@, step_to_process@),
        ensures
            node@.term == term_after(parent_node@.term, step_to_process@),
            node@.concrete_rewrite_phase_index == phase_index_after(
                old(global_state),
                parent_node@.concrete_rewrite_phase_index,
                step_to_process@,
            ),
            final(global_state).node_count == old(global_state).node_count,
            enters_new_phase(old(global_state), parent_node@.concrete_rewrite_phase_index, step_to_process@) ==> {
                let term_was_changed = step_to_process@->GoToSuccessorPhase_0;
                let entered = final(global_state).concrete_phases@.last();
                &&& final(global_state).concrete_phases@.len() == old(global_state).concrete_phases@.len() + 1
                &&& final(global_state).concrete_phases@.drop_last() == old(global_state).concrete_phases@
                &&& Some(entered.model_abstract_phase_id) == phase_of(
                    context_and_param,
                    old(global_state),
                    parent_node@,
                ).successor(term_was_changed)
                &&& entered.initial_input_terms@ == seq![parent_node@.term]
                &&& entered.final_irreducible_terms@.len() == 0
                &&& final(global_state).successors(term_was_changed) == old(global_state).successors(
                    term_was_changed,
                ).insert(parent_node@.concrete_rewrite_phase_index, node@.concrete_rewrite_phase_index)
                &&& final(global_state).successors(!term_was_changed) == old(global_state).successors(
                    !term_was_changed,
                )
            },
            !enters_new_phase(old(global_state), parent_node@.concrete_rewrite_phase_index, step_to_process@) ==> {
                &&& final(global_state).concrete_phases == old(global_state).concrete_phases
                &&& final(global_state).successors_on_changed == old(global_state).successors_on_changed
                &&& final(global_state).successors_on_unchanged == old(global_state).successors_on_unchanged
            },
            context_and_param.is_well_formed() && old(global_state).is_well_formed(context_and_param) ==> {
                &&& final(global_state).is_well_formed(context_and_param)
                &&& is_node_of(context_and_param, final(global_state), node@)
            },
    {
        broadcast use vstd::std_specs::hash::group_hash_axioms;

        let index = parent_node.concrete_rewrite_phase_index;
        match step_to_process {
            RewriteStepKind::GoToSuccessorPhase(term_was_changed) => {
                let previous_concrete_phase = &global_state.concrete_phases[index];
                let previous_abstract_phase = &context_and_param.phases[previous_concrete_phase.model_abstract_phase_id];
                let memoized = if *term_was_changed {
                    global_state.successors_on_changed.get(&index)
                } else {
                    global_state.successors_on_unchanged.get(&index)
                };
                let next_concrete_phase_id = match memoized {
                    Some(x) => *x,
                    None => {
                        let next_abstract_phase_id = if *term_was_changed {
                            previous_abstract_phase.next_phase_id_on_changed.unwrap()
                        } else {
                            previous_abstract_phase.next_phase_id_on_unchanged.unwrap()
                        };
                        assert(previous_abstract_phase.successor(*term_was_changed) == Some(next_abstract_phase_id));
                        let next_concrete_phase_id = global_state.concrete_phases.len();
                        let ghost before = global_state.concrete_phases@;
                        global_state.concrete_phases.push(
                            ConcreteRewritingPhaseInformation::new(
                                next_abstract_phase_id,
                                TermSet::singleton(parent_node.term.clone()),
                            ),
                        );
                        assert(global_state.concrete_phases@.drop_last() =~= before);
                        if *term_was_changed {
                            let _ = global_state.successors_on_changed.insert(index, next_concrete_phase_id);
                        } else {
                            let _ = global_state.successors_on_unchanged.insert(index, next_concrete_phase_id);
                        }
                        next_concrete_phase_id
                    },
                };
                proof {
                    if context_and_param.is_well_formed() && old(global_state).is_well_formed(context_and_param) {
                        let before = old(global_state);
                        let after = *global_state;
                        assert forall|i: int| 0 <= i < after.concrete_phases@.len() implies (
                        #[trigger] after.concrete_phases@[i]).model_abstract_phase_id < context_and_param.phases@.len() by {
                            if i < before.concrete_phases@.len() {
                                if memoized is None {
                                    assert(after.concrete_phases@[i] == after.concrete_phases@.drop_last()[i]);
                                }
                                assert(after.concrete_phases@[i] == before.concrete_phases@[i]);
                            }
                        }
                        assert forall|i: usize, changed: bool|
                            #![trigger after.successors(changed).contains_key(i)]
                            after.successors(changed).contains_key(i) implies i < after.concrete_phases@.len()
                            && after.successors(changed)[i] < after.concrete_phases@.len() by {
                            if memoized is None && changed == *term_was_changed && i == index {
                            } else {
                                assert(before.successors(changed).contains_key(i));
                                assert(before.successors(changed)[i] < before.concrete_phases@.len());
                            }
                        }
                        if memoized is Some {
                            assert(before.successors(*term_was_changed).contains_key(index));
                            assert(before.successors(*term_was_changed)[index] < before.concrete_phases@.len());
                        }
                    }
                }
                RewriteNodeKind::new(parent_node.term.clone(), next_concrete_phase_id)
            },
            RewriteStepKind::TransformInSamePhase(result) => RewriteNodeKind::new(result.result.clone(), index),
        }
    }
}

/// The step enters a concrete phase that was not entered before from the
/// concrete phase of index `index`.
pub open spec fn enters_new_phase<LOS: RewritableLanguageOperatorSymbol>(
    state: &RewritingProcessState<LOS>,
    index: usize,
    step: StepModel<LOS>,
) -> bool {
    match step {
        StepModel::GoToSuccessorPhase(term_was_changed) => !state.successors(term_was_changed).contains_key(index),
        StepModel::TransformInSamePhase(_) => false,
    }
}

/// The index of the concrete phase that `step` leads to from the concrete
/// phase of index `index`: that phase itself for a rewrite, and for a step to
/// the phase that follows, the concrete phase entered before from there, or
/// else the new one.
pub open spec fn phase_index_after<LOS: RewritableLanguageOperatorSymbol>(
    state: &RewritingProcessState<LOS>,
    index: usize,
    step: StepModel<LOS>,
) -> usize {
    match step {
        StepModel::GoToSuccessorPhase(term_was_changed) => if state.successors(term_was_changed).contains_key(index) {
            state.successors(term_was_changed)[index]
        } else {
            state.concrete_phases@.len() as usize
        },
        StepModel::TransformInSamePhase(_) => index,
    }
}

/// An irreducible term is left as it is: from a node that holds a term that
/// is irreducible in its phase, at most one step leads on, it goes to the
/// phase that follows, and it leaves the term unchanged.
pub proof fn lemma_irreducible_term_is_left_unchanged<LOS: RewritableLanguageOperatorSymbol>(
    phase: AbstractRewritingPhase<LOS>,
    keep_only_one: bool,
    phase_index: usize,
    term: TermModel<LOS>,
    entered_with_term: bool,
)
    requires
        is_irreducible(phase, keep_only_one, phase_index, term),
    ensures
        next_steps(phase, keep_only_one, phase_index, term, entered_with_term).len() <= 1,
        forall|i: int|
            0 <= i < next_steps(phase, keep_only_one, phase_index, term, entered_with_term).len() ==> {
                let step = #[trigger] next_steps(phase, keep_only_one, phase_index, term, entered_with_term)[i];
                &&& step is GoToSuccessorPhase
                &&& term_after(term, step) == term
            },
{
}

/// `term` is in normal form: it is irreducible in every phase of `context`.
pub open spec fn is_in_normal_form<LOS: RewritableLanguageOperatorSymbol>(
    context: &RewritingProcessContextAndParameterization<LOS>,
    term: TermModel<LOS>,
) -> bool {
    forall|phase: int, phase_index: usize|
        0 <= phase < context.phases@.len() ==> #[trigger] is_irreducible(
            context.phases@[phase],
            context.keep_only_one,
            phase_index,
            term,
        )
}

/// A process of `context` that holds `term` at a node may hold `next` at the
/// node that a step leads to.
pub open spec fn may_become<LOS: RewritableLanguageOperatorSymbol>(
    context: &RewritingProcessContextAndParameterization<LOS>,
    term: TermModel<LOS>,
    next: TermModel<LOS>,
) -> bool {
    exists|phase: int, phase_index: usize, entered_with_term: bool, i: int|
        {
            &&& 0 <= phase < context.phases@.len()
            &&& 0 <= i < next_steps(
                context.phases@[phase],
                context.keep_only_one,
                phase_index,
                term,
                entered_with_term,
            ).len()
            &&& next == term_after(
                term,
                #[trigger] next_steps(
                    context.phases@[phase],
                    context.keep_only_one,
                    phase_index,
                    term,
                    entered_with_term,
                )[i],
            )
        }
}

/// Normalization is idempotent: a process that starts with a term in normal
/// form holds that term, unchanged, at every node that it reaches.
pub proof fn lemma_normal_form_is_kept<LOS: RewritableLanguageOperatorSymbol>(
    context: &RewritingProcessContextAndParameterization<LOS>,
    terms: Seq<TermModel<LOS>>,
)
    requires
        terms.len() > 0,
        is_in_normal_form(context, terms[0]),
        forall|k: int| 0 <= k < terms.len() - 1 ==> may_become(context, #[trigger] terms[k], terms[k + 1]),
    ensures
        forall|k: int| 0 <= k < terms.len() ==> #[trigger] terms[k] == terms[0],
    decreases terms.len(),
{
    if terms.len() > 1 {
        let earlier = terms.drop_last();
        assert forall|k: int| 0 <= k < earlier.len() - 1 implies may_become(
            context,
            #[trigger] earlier[k],
            earlier[k + 1],
        ) by {
            assert(may_become(context, terms[k], terms[k + 1]));
        }
        lemma_normal_form_is_kept(context, earlier);
        let before_last = terms[terms.len() - 2];
        assert(before_last == earlier[earlier.len() - 1]);
        assert(before_last == terms[0]);
        assert(may_become(context, before_last, terms[terms.len() - 1]));
        let (phase, phase_index, entered_with_term, i) = choose|
            phase: int,
            phase_index: usize,
            entered_with_term: bool,
            i: int,
        |
            {
                &&& 0 <= phase < context.phases@.len()
                &&& 0 <= i < next_steps(
                    context.phases@[phase],
                    context.keep_only_one,
                    phase_index,
                    before_last,
                    entered_with_term,
                ).len()
                &&& terms[terms.len() - 1] == term_after(
                    before_last,
                    #[trigger] next_steps(
                        context.phases@[phase],
                        context.keep_only_one,
                        phase_index,
                        before_last,
                        entered_with_term,
                    )[i],
                )
            };
        assert(is_irreducible(context.phases@[phase], context.keep_only_one, phase_index, before_last));
        lemma_irreducible_term_is_left_unchanged(
            context.phases@[phase],
            context.keep_only_one,
            phase_index,
            before_last,
            entered_with_term,
        );
        assert forall|k: int| 0 <= k < terms.len() implies #[trigger] terms[k] == terms[0] by {
            if k < terms.len() - 1 {
                assert(terms[k] == earlier[k]);
            }
        }
    }
}

} // verus!
