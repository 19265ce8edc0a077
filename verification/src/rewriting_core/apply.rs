use crate::rewriting_core::rule::RewriteRule;
use crate::rewriting_core::terms::position::PositionInLanguageTerm;
use crate::rewriting_core::terms::term::{
    LanguageTerm,
    RewritableLanguageOperatorSymbol,
    TermModel,
    is_addressable,
    lemma_sub_term_of_child,
    replace_at,
    sub_term_at,
};
use vstd::prelude::*;

verus! {

/// The model of a [`TermTransformationResult`].
pub struct TransformationModel<LOS> {
    pub phase_index: usize,
    pub rule_index_in_phase: usize,
    pub position: Seq<usize>,
    pub result: TermModel<LOS>,
}

/// The result of the application of a given rewrite rule, referred to by the
/// index of its phase and by its index in that phase, at a given position in a term:
/// the whole term after the rewrite.
pub struct TermTransformationResult<LOS: RewritableLanguageOperatorSymbol> {
    pub phase_index: usize,
    pub rule_index_in_phase: usize,
    pub position: PositionInLanguageTerm,
    pub result: LanguageTerm<LOS>,
}

impl<LOS: RewritableLanguageOperatorSymbol> View for TermTransformationResult<LOS> {
    type V = TransformationModel<LOS>;

    open spec fn view(&self) -> TransformationModel<LOS> {
        TransformationModel {
            phase_index: self.phase_index,
            rule_index_in_phase: self.rule_index_in_phase,
            position: self.position@,
            result: self.result@,
        }
    }
}

impl<LOS: RewritableLanguageOperatorSymbol> TermTransformationResult<LOS> {
    pub fn new(
        phase_index: usize,
        rule_index_in_phase: usize,
        position: PositionInLanguageTerm,
        result: LanguageTerm<LOS>,
    ) -> (transformation: Self)
        ensures
            transformation@ == (TransformationModel {
                phase_index,
                rule_index_in_phase,
                position: position@,
                result: result@,
            }),
    {
        Self { phase_index, rule_index_in_phase, position, result }
    }

    pub fn new_at_root(phase_index: usize, rule_index_in_phase: usize, result: LanguageTerm<LOS>) -> (transformation:
        Self)
        ensures
            transformation@ == (TransformationModel {
                phase_index,
                rule_index_in_phase,
                position: Seq::empty(),
                result: result@,
            }),
    {
        Self::new(phase_index, rule_index_in_phase, PositionInLanguageTerm::get_root_position(), result)
    }
}

/// The models of a sequence of transformation results.
pub open spec fn transformation_models<LOS: RewritableLanguageOperatorSymbol>(
    transformations: Seq<TermTransformationResult<LOS>>,
) -> Seq<TransformationModel<LOS>> {
    Seq::new(transformations.len(), |i: int| transformations[i]@)
}

/// What the first `upto` of `rules` give when tried on `term` itself, in the
/// order of the rules; with `keep_only_one`, no more than the first of them.
pub open spec fn root_transformations<LOS: RewritableLanguageOperatorSymbol>(
    phase_index: usize,
    rules: Seq<Box<dyn RewriteRule<LOS>>>,
    term: TermModel<LOS>,
    keep_only_one: bool,
    context_term: TermModel<LOS>,
    position: Seq<usize>,
    upto: int,
) -> Seq<TransformationModel<LOS>>
    decreases upto,
{
    if upto <= 0 {
        Seq::empty()
    } else {
        let earlier = root_transformations(phase_index, rules, term, keep_only_one, context_term, position, upto - 1);
        if keep_only_one && earlier.len() > 0 {
            earlier
        } else {
            match rules[upto - 1].rewrites_to(term, context_term, position) {
                Some(result) => earlier.push(
                    TransformationModel {
                        phase_index,
                        rule_index_in_phase: (upto - 1) as usize,
                        position,
                        result,
                    },
                ),
                None => earlier,
            }
        }
    }
}

/// `term` with its `n`-th sub-term replaced by `sub_term`.
pub open spec fn with_sub_term<LOS>(term: TermModel<LOS>, n: int, sub_term: TermModel<LOS>) -> TermModel<LOS> {
    TermModel { operator: term.operator, sub_terms: term.sub_terms.update(n, sub_term) }
}

/// The transformations `inner` of the `n`-th sub-term of `term`, as
/// transformations of `term`: each result is set back into `term`.
pub open spec fn lifted<LOS>(term: TermModel<LOS>, n: int, inner: Seq<TransformationModel<LOS>>) -> Seq<
    TransformationModel<LOS>,
> {
    Seq::new(
        inner.len(),
        |i: int|
            TransformationModel {
                phase_index: inner[i].phase_index,
                rule_index_in_phase: inner[i].rule_index_in_phase,
                position: inner[i].position,
                result: with_sub_term(term, n, inner[i].result),
            },
    )
}

/// Every single rewrite step of `term`, which stands at `position` in
/// `context_term`: first what the rules give at the root of `term`, in the order
/// of the rules, then what they give inside each sub-term, from the first
/// sub-term to the last. With `keep_only_one`, only the first of all these.
pub open spec fn transformations<LOS: RewritableLanguageOperatorSymbol>(
    phase_index: usize,
    rules: Seq<Box<dyn RewriteRule<LOS>>>,
    term: TermModel<LOS>,
    keep_only_one: bool,
    context_term: TermModel<LOS>,
    position: Seq<usize>,
) -> Seq<TransformationModel<LOS>>
    decreases term, term.sub_terms.len() + 1,
{
    let at_root = root_transformations(
        phase_index,
        rules,
        term,
        keep_only_one,
        context_term,
        position,
        rules.len() as int,
    );
    if keep_only_one && at_root.len() > 0 {
        at_root
    } else {
        at_root + sub_term_transformations(
            phase_index,
            rules,
            term,
            keep_only_one,
            context_term,
            position,
            term.sub_terms.len() as int,
        )
    }
}

/// The single rewrite steps of `term` that take place inside one of its first
/// `upto` sub-terms; with `keep_only_one`, only the first of them.
pub open spec fn sub_term_transformations<LOS: RewritableLanguageOperatorSymbol>(
    phase_index: usize,
    rules: Seq<Box<dyn RewriteRule<LOS>>>,
    term: TermModel<LOS>,
    keep_only_one: bool,
    context_term: TermModel<LOS>,
    position: Seq<usize>,
    upto: int,
) -> Seq<TransformationModel<LOS>>
    decreases term, upto,
{
    if upto <= 0 || upto > term.sub_terms.len() {
        Seq::empty()
    } else {
        let earlier = sub_term_transformations(
            phase_index,
            rules,
            term,
            keep_only_one,
            context_term,
            position,
            upto - 1,
        );
        if keep_only_one && earlier.len() > 0 {
            earlier
        } else {
            earlier + lifted(
                term,
                upto - 1,
                transformations(
                    phase_index,
                    rules,
                    term.sub_terms[upto - 1],
                    keep_only_one,
                    context_term,
                    position.push((upto - 1) as usize),
                ),
            )
        }
    }
}

/// With `keep_only_one`, nothing is added once a first transformation at the
/// root is found.
proof fn lemma_root_transformations_stop<LOS: RewritableLanguageOperatorSymbol>(
    phase_index: usize,
    rules: Seq<Box<dyn RewriteRule<LOS>>>,
    term: TermModel<LOS>,
    context_term: TermModel<LOS>,
    position: Seq<usize>,
    found_at: int,
    upto: int,
)
    requires
        root_transformations(phase_index, rules, term, true, context_term, position, found_at).len() > 0,
        found_at <= upto,
    ensures
        root_transformations(phase_index, rules, term, true, context_term, position, upto)
            == root_transformations(phase_index, rules, term, true, context_term, position, found_at),
    decreases upto - found_at,
{
    if found_at < upto {
        lemma_root_transformations_stop(phase_index, rules, term, context_term, position, found_at, upto - 1);
    }
}

/// With `keep_only_one`, nothing is added once a first transformation inside
/// a sub-term is found.
proof fn lemma_sub_term_transformations_stop<LOS: RewritableLanguageOperatorSymbol>(
    phase_index: usize,
    rules: Seq<Box<dyn RewriteRule<LOS>>>,
    term: TermModel<LOS>,
    context_term: TermModel<LOS>,
    position: Seq<usize>,
    found_at: int,
    upto: int,
)
    requires
        sub_term_transformations(phase_index, rules, term, true, context_term, position, found_at).len() > 0,
        found_at <= upto <= term.sub_terms.len(),
    ensures
        sub_term_transformations(phase_index, rules, term, true, context_term, position, upto)
            == sub_term_transformations(phase_index, rules, term, true, context_term, position, found_at),
    decreases upto - found_at,
{
    if found_at < upto {
        lemma_sub_term_transformations_stop(phase_index, rules, term, context_term, position, found_at, upto - 1);
    }
}

/// With `keep_only_one`, there is at most one transformation.
proof fn lemma_at_most_one_when_keeping_only_one<LOS: RewritableLanguageOperatorSymbol>(
    phase_index: usize,
    rules: Seq<Box<dyn RewriteRule<LOS>>>,
    term: TermModel<LOS>,
    context_term: TermModel<LOS>,
    position: Seq<usize>,
)
    ensures
        transformations(phase_index, rules, term, true, context_term, position).len() <= 1,
    decreases term,
{
    lemma_at_most_one_at_root(phase_index, rules, term, context_term, position, rules.len() as int);
    lemma_at_most_one_in_sub_terms(
        phase_index,
        rules,
        term,
        context_term,
        position,
        term.sub_terms.len() as int,
    );
}

proof fn lemma_at_most_one_at_root<LOS: RewritableLanguageOperatorSymbol>(
    phase_index: usize,
    rules: Seq<Box<dyn RewriteRule<LOS>>>,
    term: TermModel<LOS>,
    context_term: TermModel<LOS>,
    position: Seq<usize>,
    upto: int,
)
    ensures
        root_transformations(phase_index, rules, term, true, context_term, position, upto).len() <= 1,
    decreases upto,
{
    if upto > 0 {
        lemma_at_most_one_at_root(phase_index, rules, term, context_term, position, upto - 1);
    }
}

proof fn lemma_at_most_one_in_sub_terms<LOS: RewritableLanguageOperatorSymbol>(
    phase_index: usize,
    rules: Seq<Box<dyn RewriteRule<LOS>>>,
    term: TermModel<LOS>,
    context_term: TermModel<LOS>,
    position: Seq<usize>,
    upto: int,
)
    ensures
        sub_term_transformations(phase_index, rules, term, true, context_term, position, upto).len() <= 1,
    decreases term, upto,
{
    if 0 < upto <= term.sub_terms.len() {
        lemma_at_most_one_in_sub_terms(phase_index, rules, term, context_term, position, upto - 1);
        lemma_at_most_one_when_keeping_only_one(
            phase_index,
            rules,
            term.sub_terms[upto - 1],
            context_term,
            position.push((upto - 1) as usize),
        );
    }
}

/// What the rules give when tried on `term` itself.
fn get_root_transformations<LOS: RewritableLanguageOperatorSymbol>(
    phase_index: usize,
    rewrite_rules: &Vec<Box<dyn RewriteRule<LOS>>>,
    term: &LanguageTerm<LOS>,
    keep_only_one: bool,
    context_term: &LanguageTerm<LOS>,
    position_in_context_term: &PositionInLanguageTerm,
) -> (results: Vec<TermTransformationResult<LOS>>)
    requires
        sub_term_at(context_term@, position_in_context_term@) == Some(term@),
    ensures
        transformation_models(results@) == root_transformations(
            phase_index,
            rewrite_rules@,
            term@,
            keep_only_one,
            context_term@,
            position_in_context_term@,
            rewrite_rules@.len() as int,
        ),
{
    let mut results: Vec<TermTransformationResult<LOS>> = Vec::new();
    let mut rule_index: usize = 0;
    assert(transformation_models(results@) =~= Seq::empty());
    while rule_index < rewrite_rules.len()
        invariant
            rule_index <= rewrite_rules@.len(),
            sub_term_at(context_term@, position_in_context_term@) == Some(term@),
            keep_only_one ==> results@.len() == 0,
            transformation_models(results@) == root_transformations(
                phase_index,
                rewrite_rules@,
                term@,
                keep_only_one,
                context_term@,
                position_in_context_term@,
                rule_index as int,
            ),
        decreases rewrite_rules@.len() - rule_index,
    {
        let outcome = rewrite_rules[rule_index].try_apply(term, context_term, position_in_context_term);
        if let Some(result) = outcome {
            let ghost before = results@;
            let transformation = TermTransformationResult::new(
                phase_index,
                rule_index,
                position_in_context_term.clone(),
                result,
            );
            results.push(transformation);
            assert(transformation_models(results@) =~= transformation_models(before).push(transformation@));
            if keep_only_one {
                proof {
                    lemma_root_transformations_stop(
                        phase_index,
                        rewrite_rules@,
                        term@,
                        context_term@,
                        position_in_context_term@,
                        rule_index + 1,
                        rewrite_rules@.len() as int,
                    );
                }
                return results;
            }
        }
        rule_index += 1;
    }
    results
}

/// `term` with its `n`-th sub-term replaced by `sub_term`.
fn replace_sub_term<LOS: RewritableLanguageOperatorSymbol>(
    term: &LanguageTerm<LOS>,
    n: usize,
    sub_term: LanguageTerm<LOS>,
) -> (replaced: LanguageTerm<LOS>)
    requires
        n < term@.sub_terms.len(),
    ensures
        replaced@ == with_sub_term(term@, n as int, sub_term@),
{
    let mut upd_sub_terms: Vec<LanguageTerm<LOS>> = Vec::new();
    let mut i: usize = 0;
    while i < n
        invariant
            i <= n,
            n < term.sub_terms.len(),
            upd_sub_terms@.len() == i,
            forall|k: int| 0 <= k < i ==> upd_sub_terms@[k]@ == term.sub_terms@[k]@,
        decreases n - i,
    {
        upd_sub_terms.push(term.sub_terms[i].clone());
        i += 1;
    }
    upd_sub_terms.push(sub_term);
    i += 1;
    while i < term.sub_terms.len()
        invariant
            n < i <= term.sub_terms@.len(),
            upd_sub_terms@.len() == i,
            upd_sub_terms@[n as int]@ == sub_term@,
            forall|k: int| 0 <= k < i && k != n ==> upd_sub_terms@[k]@ == term.sub_terms@[k]@,
        decreases term.sub_terms@.len() - i,
    {
        upd_sub_terms.push(term.sub_terms[i].clone());
        i += 1;
    }
    let replaced = LanguageTerm::new(term.operator.clone(), upd_sub_terms);
    proof {
        LOS::symbol_laws();
        assert(cloned(term.operator, replaced.operator));
        assert(replaced@.sub_terms =~= term@.sub_terms.update(n as int, sub_term@));
    }
    replaced
}

/// Every single rewrite step of `term`, which stands at
/// `position_in_context_term` in `context_term`.
#[verifier::loop_isolation(false)]
fn get_transformations_rec<LOS: RewritableLanguageOperatorSymbol>(
    phase_index: usize,
    rewrite_rules: &Vec<Box<dyn RewriteRule<LOS>>>,
    term: &LanguageTerm<LOS>,
    keep_only_one: bool,
    context_term: &LanguageTerm<LOS>,
    position_in_context_term: &PositionInLanguageTerm,
) -> (results: Vec<TermTransformationResult<LOS>>)
    requires
        sub_term_at(context_term@, position_in_context_term@) == Some(term@),
    ensures
        transformation_models(results@) == transformations(
            phase_index,
            rewrite_rules@,
            term@,
            keep_only_one,
            context_term@,
            position_in_context_term@,
        ),
    decreases term,
{
    let mut results = get_root_transformations(
        phase_index,
        rewrite_rules,
        term,
        keep_only_one,
        context_term,
        position_in_context_term,
    );
    if keep_only_one && !results.is_empty() {
        return results;
    }
    let ghost at_root = transformation_models(results@);
    let mut n: usize = 0;
    assert(transformation_models(results@) =~= at_root + Seq::empty());
    while n < term.sub_terms.len()
        invariant
            n <= term.sub_terms@.len(),
            sub_term_at(context_term@, position_in_context_term@) == Some(term@),
            keep_only_one ==> results@.len() == 0,
            keep_only_one ==> at_root.len() == 0,
            transformation_models(results@) == at_root + sub_term_transformations(
                phase_index,
                rewrite_rules@,
                term@,
                keep_only_one,
                context_term@,
                position_in_context_term@,
                n as int,
            ),
        decreases term.sub_terms@.len() - n,
    {
        let sub_term = &term.sub_terms[n];
        let sub_position = position_in_context_term.get_position_of_nth_child(n);
        proof {
            lemma_sub_term_of_child(context_term@, position_in_context_term@, n);
            assert(term@.sub_terms[n as int] == sub_term@);
        }
        let sub_transformations = get_transformations_rec(
            phase_index,
            rewrite_rules,
            sub_term,
            keep_only_one,
            context_term,
            &sub_position,
        );
        let ghost inner = transformation_models(sub_transformations@);
        let ghost before = transformation_models(results@);
        let mut k: usize = 0;
        assert(transformation_models(results@) =~= before + lifted(term@, n as int, inner).take(0));
        while k < sub_transformations.len()
            invariant
                k <= sub_transformations@.len(),
                n < term.sub_terms@.len(),
                inner == transformation_models(sub_transformations@),
                keep_only_one ==> k == 0 && results@.len() == 0,
                transformation_models(results@) == before + lifted(term@, n as int, inner).take(k as int),
            decreases sub_transformations@.len() - k,
        {
            let sub_transfo = &sub_transformations[k];
            let ghost so_far = results@;
            let res = TermTransformationResult::new(
                sub_transfo.phase_index,
                sub_transfo.rule_index_in_phase,
                sub_transfo.position.clone(),
                replace_sub_term(term, n, sub_transfo.result.clone()),
            );
            results.push(res);
            proof {
                assert(res@ == lifted(term@, n as int, inner)[k as int]);
                assert(transformation_models(results@) =~= transformation_models(so_far).push(res@));
                assert(lifted(term@, n as int, inner).take(k + 1) =~= lifted(term@, n as int, inner).take(
                    k as int,
                ).push(res@));
            }
            if keep_only_one {
                proof {
                    assert(lifted(term@, n as int, inner).take(1).len() == 1);
                    assert(before =~= Seq::empty());
                    assert(transformation_models(results@).len() == 1);
                    assert(lifted(term@, n as int, inner) =~= lifted(term@, n as int, inner).take(1)) by {
                        lemma_at_most_one_when_keeping_only_one(
                            phase_index,
                            rewrite_rules@,
                            sub_term@,
                            context_term@,
                            sub_position@,
                        );
                    }
                    lemma_sub_term_transformations_stop(
                        phase_index,
                        rewrite_rules@,
                        term@,
                        context_term@,
                        position_in_context_term@,
                        n + 1,
                        term@.sub_terms.len() as int,
                    );
                }
                return results;
            }
            k += 1;
        }
        proof {
            assert(lifted(term@, n as int, inner).take(k as int) =~= lifted(term@, n as int, inner));
        }
        n += 1;
    }
    results
}

/// Every single rewrite step of `term`: what each of `rewrite_rules` gives at
/// each position of `term`. With `keep_only_one`, only the first of them, the
/// root before the sub-terms, and none where no rule applies anywhere.
pub fn get_transformations<LOS: RewritableLanguageOperatorSymbol>(
    phase_index: usize,
    rewrite_rules: &Vec<Box<dyn RewriteRule<LOS>>>,
    term: &LanguageTerm<LOS>,
    keep_only_one: bool,
) -> (results: Vec<TermTransformationResult<LOS>>)
    ensures
        transformation_models(results@) == transformations(
            phase_index,
            rewrite_rules@,
            term@,
            keep_only_one,
            term@,
            Seq::empty(),
        ),
{
    get_transformations_rec(
        phase_index,
        rewrite_rules,
        term,
        keep_only_one,
        term,
        &PositionInLanguageTerm::get_root_position(),
    )
}

/// The rule of index `rule_index` applies to the sub-term of `term` at `path`,
/// where `term` stands at `position` in `context_term`.
pub open spec fn fires<LOS: RewritableLanguageOperatorSymbol>(
    rules: Seq<Box<dyn RewriteRule<LOS>>>,
    term: TermModel<LOS>,
    context_term: TermModel<LOS>,
    position: Seq<usize>,
    rule_index: int,
    path: Seq<usize>,
) -> bool {
    &&& 0 <= rule_index < rules.len()
    &&& sub_term_at(term, path).is_some()
    &&& rules[rule_index].rewrites_to(sub_term_at(term, path).unwrap(), context_term, position + path).is_some()
}

/// The rewrite step of `term` in which the rule of index `rule_index` rewrites
/// the sub-term of `term` at `path`.
pub open spec fn step_of<LOS: RewritableLanguageOperatorSymbol>(
    phase_index: usize,
    rules: Seq<Box<dyn RewriteRule<LOS>>>,
    term: TermModel<LOS>,
    context_term: TermModel<LOS>,
    position: Seq<usize>,
    rule_index: int,
    path: Seq<usize>,
) -> TransformationModel<LOS>
    recommends
        fires(rules, term, context_term, position, rule_index, path),
{
    TransformationModel {
        phase_index,
        rule_index_in_phase: rule_index as usize,
        position: position + path,
        result: replace_at(
            term,
            path,
            rules[rule_index].rewrites_to(sub_term_at(term, path).unwrap(), context_term, position + path).unwrap(),
        ),
    }
}

/// `steps` holds the rewrite steps of `term` in which a rule applies at a
/// path that `admits`, each of them once, and nothing else.
pub open spec fn holds_exactly_the_steps<LOS: RewritableLanguageOperatorSymbol>(
    steps: Seq<TransformationModel<LOS>>,
    phase_index: usize,
    rules: Seq<Box<dyn RewriteRule<LOS>>>,
    term: TermModel<LOS>,
    context_term: TermModel<LOS>,
    position: Seq<usize>,
    admits: spec_fn(int, Seq<usize>) -> bool,
) -> bool {
    &&& forall|i: int|
        0 <= i < steps.len() ==> is_admitted_step(
            #[trigger] steps[i],
            phase_index,
            rules,
            term,
            context_term,
            position,
            admits,
        )
    &&& forall|rule_index: int, path: Seq<usize>|
        #[trigger] fires(rules, term, context_term, position, rule_index, path) && admits(rule_index, path)
            ==> steps.contains(step_of(phase_index, rules, term, context_term, position, rule_index, path))
    &&& forall|i: int, j: int|
        0 <= i < j < steps.len() ==> !((#[trigger] steps[i]).rule_index_in_phase == (#[trigger] steps[j]).rule_index_in_phase
            && steps[i].position == steps[j].position)
}

/// `step` is the rewrite step of `term` in which some rule applies at some
/// path, and `admits` admits the two.
pub open spec fn is_admitted_step<LOS: RewritableLanguageOperatorSymbol>(
    step: TransformationModel<LOS>,
    phase_index: usize,
    rules: Seq<Box<dyn RewriteRule<LOS>>>,
    term: TermModel<LOS>,
    context_term: TermModel<LOS>,
    position: Seq<usize>,
    admits: spec_fn(int, Seq<usize>) -> bool,
) -> bool {
    exists|rule_index: int, path: Seq<usize>|
        {
            &&& #[trigger] fires(rules, term, context_term, position, rule_index, path)
            &&& admits(rule_index, path)
            &&& step == step_of(phase_index, rules, term, context_term, position, rule_index, path)
        }
}

proof fn lemma_root_steps<LOS: RewritableLanguageOperatorSymbol>(
    phase_index: usize,
    rules: Seq<Box<dyn RewriteRule<LOS>>>,
    term: TermModel<LOS>,
    context_term: TermModel<LOS>,
    position: Seq<usize>,
    upto: int,
)
    requires
        0 <= upto <= rules.len() <= usize::MAX,
    ensures
        holds_exactly_the_steps(
            root_transformations(phase_index, rules, term, false, context_term, position, upto),
            phase_index,
            rules,
            term,
            context_term,
            position,
            |rule_index: int, path: Seq<usize>| rule_index < upto && path.len() == 0,
        ),
    decreases upto,
{
    let steps = root_transformations(phase_index, rules, term, false, context_term, position, upto);
    let admits = |rule_index: int, path: Seq<usize>| rule_index < upto && path.len() == 0;
    let nowhere = Seq::<usize>::empty();
    assert(position + nowhere =~= position);
    if upto > 0 {
        let earlier = root_transformations(phase_index, rules, term, false, context_term, position, upto - 1);
        let admitted_earlier = |rule_index: int, path: Seq<usize>| rule_index < upto - 1 && path.len() == 0;
        lemma_root_steps(phase_index, rules, term, context_term, position, upto - 1);
        let last = step_of(phase_index, rules, term, context_term, position, upto - 1, nowhere);
        assert forall|i: int| 0 <= i < earlier.len() implies is_admitted_step(
            #[trigger] earlier[i],
            phase_index,
            rules,
            term,
            context_term,
            position,
            admits,
        ) && earlier[i].rule_index_in_phase < upto - 1 && earlier[i].position == position by {
            assert(is_admitted_step(earlier[i], phase_index, rules, term, context_term, position, admitted_earlier));
            let (rule_index, path) = choose|rule_index: int, path: Seq<usize>|
                {
                    &&& #[trigger] fires(rules, term, context_term, position, rule_index, path)
                    &&& admitted_earlier(rule_index, path)
                    &&& earlier[i] == step_of(phase_index, rules, term, context_term, position, rule_index, path)
                };
            assert(path =~= nowhere);
            assert(admits(rule_index, path));
        }
        assert forall|i: int| 0 <= i < steps.len() implies is_admitted_step(
            #[trigger] steps[i],
            phase_index,
            rules,
            term,
            context_term,
            position,
            admits,
        ) by {
            if i < earlier.len() {
                assert(steps[i] == earlier[i]);
            } else {
                assert(steps[i] == last);
                assert(fires(rules, term, context_term, position, upto - 1, nowhere));
                assert(admits(upto - 1, nowhere));
            }
        }
        assert forall|rule_index: int, path: Seq<usize>| #[trigger]
            fires(rules, term, context_term, position, rule_index, path) && admits(rule_index, path) implies steps.contains(
            step_of(phase_index, rules, term, context_term, position, rule_index, path),
        ) by {
            assert(path =~= nowhere);
            if rule_index < upto - 1 {
                assert(admitted_earlier(rule_index, path));
                let step = step_of(phase_index, rules, term, context_term, position, rule_index, path);
                assert(earlier.contains(step));
                let i = choose|i: int| 0 <= i < earlier.len() && earlier[i] == step;
                assert(steps[i] == step);
            } else {
                assert(steps[steps.len() - 1] == last);
            }
        }
        assert forall|i: int, j: int| 0 <= i < j < steps.len() implies !((#[trigger] steps[i]).rule_index_in_phase
            == (#[trigger] steps[j]).rule_index_in_phase && steps[i].position == steps[j].position) by {
            if j < earlier.len() {
                assert(steps[i] == earlier[i] && steps[j] == earlier[j]);
            } else {
                assert(steps[i] == earlier[i]);
                assert(steps[j] == last);
            }
        }
    }
}

/// A rewrite step inside the `n`-th sub-term of `term` is the rewrite step of
/// `term` at the path that starts with `n`.
proof fn lemma_step_in_sub_term<LOS: RewritableLanguageOperatorSymbol>(
    phase_index: usize,
    rules: Seq<Box<dyn RewriteRule<LOS>>>,
    term: TermModel<LOS>,
    context_term: TermModel<LOS>,
    position: Seq<usize>,
    n: usize,
    rule_index: int,
    path: Seq<usize>,
)
    requires
        n < term.sub_terms.len(),
    ensures
        fires(rules, term.sub_terms[n as int], context_term, position.push(n), rule_index, path) == fires(
            rules,
            term,
            context_term,
            position,
            rule_index,
            seq![n] + path,
        ),
        step_of(phase_index, rules, term, context_term, position, rule_index, seq![n] + path) == (TransformationModel {
            phase_index,
            rule_index_in_phase: rule_index as usize,
            position: position.push(n) + path,
            result: with_sub_term(
                term,
                n as int,
                step_of(
                    phase_index,
                    rules,
                    term.sub_terms[n as int],
                    context_term,
                    position.push(n),
                    rule_index,
                    path,
                ).result,
            ),
        }),
{
    let longer = seq![n] + path;
    assert(longer.drop_first() =~= path);
    assert(longer[0] == n);
    assert(position.push(n) + path =~= position + longer);
}

/// A path that a rule applies at is empty or starts with the index of a sub-term.
proof fn lemma_path_starts_in_term<LOS: RewritableLanguageOperatorSymbol>(
    rules: Seq<Box<dyn RewriteRule<LOS>>>,
    term: TermModel<LOS>,
    context_term: TermModel<LOS>,
    position: Seq<usize>,
    rule_index: int,
    path: Seq<usize>,
)
    requires
        fires(rules, term, context_term, position, rule_index, path),
        path.len() > 0,
    ensures
        path[0] < term.sub_terms.len(),
        path == seq![path[0]] + path.drop_first(),
{
    assert(path =~= seq![path[0]] + path.drop_first());
}

proof fn lemma_sub_term_steps<LOS: RewritableLanguageOperatorSymbol>(
    phase_index: usize,
    rules: Seq<Box<dyn RewriteRule<LOS>>>,
    term: TermModel<LOS>,
    context_term: TermModel<LOS>,
    position: Seq<usize>,
    upto: int,
)
    requires
        0 <= upto <= term.sub_terms.len(),
        rules.len() <= usize::MAX,
        is_addressable(term),
    ensures
        holds_exactly_the_steps(
            sub_term_transformations(phase_index, rules, term, false, context_term, position, upto),
            phase_index,
            rules,
            term,
            context_term,
            position,
            |rule_index: int, path: Seq<usize>| path.len() > 0 && path[0] < upto,
        ),
    decreases term, upto,
{
    let steps = sub_term_transformations(phase_index, rules, term, false, context_term, position, upto);
    let admits = |rule_index: int, path: Seq<usize>| path.len() > 0 && path[0] < upto;
    if upto > 0 {
        let n = (upto - 1) as usize;
        let sub_term = term.sub_terms[upto - 1];
        let sub_position = position.push(n);
        let earlier = sub_term_transformations(phase_index, rules, term, false, context_term, position, upto - 1);
        let admitted_earlier = |rule_index: int, path: Seq<usize>| path.len() > 0 && path[0] < upto - 1;
        let inner = transformations(phase_index, rules, sub_term, false, context_term, sub_position);
        let everything = |rule_index: int, path: Seq<usize>| true;
        let added = lifted(term, upto - 1, inner);
        lemma_sub_term_steps(phase_index, rules, term, context_term, position, upto - 1);
        lemma_transformations_steps(phase_index, rules, sub_term, context_term, sub_position);
        assert(steps == earlier + added);
        assert forall|i: int| 0 <= i < earlier.len() implies is_admitted_step(
            #[trigger] earlier[i],
            phase_index,
            rules,
            term,
            context_term,
            position,
            admits,
        ) && earlier[i].position.len() > position.len() && earlier[i].position[position.len() as int] < upto - 1 by {
            assert(is_admitted_step(earlier[i], phase_index, rules, term, context_term, position, admitted_earlier));
            let (rule_index, path) = choose|rule_index: int, path: Seq<usize>|
                {
                    &&& #[trigger] fires(rules, term, context_term, position, rule_index, path)
                    &&& admitted_earlier(rule_index, path)
                    &&& earlier[i] == step_of(phase_index, rules, term, context_term, position, rule_index, path)
                };
            assert(admits(rule_index, path));
        }
        assert forall|i: int| 0 <= i < added.len() implies is_admitted_step(
            #[trigger] added[i],
            phase_index,
            rules,
            term,
            context_term,
            position,
            admits,
        ) && added[i].position.len() > position.len() && added[i].position[position.len() as int] == upto - 1
            && added[i].position == inner[i].position && added[i].rule_index_in_phase == inner[i].rule_index_in_phase by {
            assert(is_admitted_step(inner[i], phase_index, rules, sub_term, context_term, sub_position, everything));
            let (rule_index, path) = choose|rule_index: int, path: Seq<usize>|
                {
                    &&& #[trigger] fires(rules, sub_term, context_term, sub_position, rule_index, path)
                    &&& everything(rule_index, path)
                    &&& inner[i] == step_of(phase_index, rules, sub_term, context_term, sub_position, rule_index, path)
                };
            lemma_step_in_sub_term(phase_index, rules, term, context_term, position, n, rule_index, path);
            let longer = seq![n] + path;
            assert(fires(rules, term, context_term, position, rule_index, longer));
            assert(admits(rule_index, longer));
            assert(added[i] == step_of(phase_index, rules, term, context_term, position, rule_index, longer));
        }
        assert forall|i: int| 0 <= i < steps.len() implies is_admitted_step(
            #[trigger] steps[i],
            phase_index,
            rules,
            term,
            context_term,
            position,
            admits,
        ) by {
            if i < earlier.len() {
                assert(steps[i] == earlier[i]);
            } else {
                assert(steps[i] == added[i - earlier.len()]);
            }
        }
        assert forall|rule_index: int, path: Seq<usize>| #[trigger]
            fires(rules, term, context_term, position, rule_index, path) && admits(rule_index, path) implies steps.contains(
            step_of(phase_index, rules, term, context_term, position, rule_index, path),
        ) by {
            let step = step_of(phase_index, rules, term, context_term, position, rule_index, path);
            if path[0] < upto - 1 {
                assert(admitted_earlier(rule_index, path));
                assert(earlier.contains(step));
                let i = choose|i: int| 0 <= i < earlier.len() && earlier[i] == step;
                assert(steps[i] == step);
            } else {
                let rest = path.drop_first();
                lemma_path_starts_in_term(rules, term, context_term, position, rule_index, path);
                lemma_step_in_sub_term(phase_index, rules, term, context_term, position, n, rule_index, rest);
                assert(fires(rules, sub_term, context_term, sub_position, rule_index, rest));
                assert(everything(rule_index, rest));
                let inner_step = step_of(phase_index, rules, sub_term, context_term, sub_position, rule_index, rest);
                assert(inner.contains(inner_step));
                let i = choose|i: int| 0 <= i < inner.len() && inner[i] == inner_step;
                assert(added[i] == step);
                assert(steps[earlier.len() + i] == step);
            }
        }
        assert forall|i: int, j: int| 0 <= i < j < steps.len() implies !((#[trigger] steps[i]).rule_index_in_phase
            == (#[trigger] steps[j]).rule_index_in_phase && steps[i].position == steps[j].position) by {
            if j < earlier.len() {
                assert(steps[i] == earlier[i] && steps[j] == earlier[j]);
            } else if i < earlier.len() {
                assert(steps[i] == earlier[i]);
                assert(steps[j] == added[j - earlier.len()]);
            } else {
                assert(steps[i] == added[i - earlier.len()]);
                assert(steps[j] == added[j - earlier.len()]);
                let _ = inner[i - earlier.len()];
                let _ = inner[j - earlier.len()];
            }
        }
    }
}

proof fn lemma_transformations_steps<LOS: RewritableLanguageOperatorSymbol>(
    phase_index: usize,
    rules: Seq<Box<dyn RewriteRule<LOS>>>,
    term: TermModel<LOS>,
    context_term: TermModel<LOS>,
    position: Seq<usize>,
)
    requires
        rules.len() <= usize::MAX,
        is_addressable(term),
    ensures
        holds_exactly_the_steps(
            transformations(phase_index, rules, term, false, context_term, position),
            phase_index,
            rules,
            term,
            context_term,
            position,
            |rule_index: int, path: Seq<usize>| true,
        ),
    decreases term, term.sub_terms.len() + 1,
{
    let steps = transformations(phase_index, rules, term, false, context_term, position);
    let admits = |rule_index: int, path: Seq<usize>| true;
    let at_root = root_transformations(phase_index, rules, term, false, context_term, position, rules.len() as int);
    let admitted_at_root = |rule_index: int, path: Seq<usize>| rule_index < rules.len() as int && path.len() == 0;
    let inside = sub_term_transformations(
        phase_index,
        rules,
        term,
        false,
        context_term,
        position,
        term.sub_terms.len() as int,
    );
    let admitted_inside = |rule_index: int, path: Seq<usize>| path.len() > 0 && path[0] < term.sub_terms.len() as int;
    lemma_root_steps(phase_index, rules, term, context_term, position, rules.len() as int);
    lemma_sub_term_steps(phase_index, rules, term, context_term, position, term.sub_terms.len() as int);
    assert(steps == at_root + inside);
    assert forall|i: int| 0 <= i < at_root.len() implies is_admitted_step(
        #[trigger] at_root[i],
        phase_index,
        rules,
        term,
        context_term,
        position,
        admits,
    ) && at_root[i].position.len() == position.len() by {
        assert(is_admitted_step(at_root[i], phase_index, rules, term, context_term, position, admitted_at_root));
        let (rule_index, path) = choose|rule_index: int, path: Seq<usize>|
            {
                &&& #[trigger] fires(rules, term, context_term, position, rule_index, path)
                &&& admitted_at_root(rule_index, path)
                &&& at_root[i] == step_of(phase_index, rules, term, context_term, position, rule_index, path)
            };
        assert(admits(rule_index, path));
    }
    assert forall|i: int| 0 <= i < inside.len() implies is_admitted_step(
        #[trigger] inside[i],
        phase_index,
        rules,
        term,
        context_term,
        position,
        admits,
    ) && inside[i].position.len() > position.len() by {
        assert(is_admitted_step(inside[i], phase_index, rules, term, context_term, position, admitted_inside));
        let (rule_index, path) = choose|rule_index: int, path: Seq<usize>|
            {
                &&& #[trigger] fires(rules, term, context_term, position, rule_index, path)
                &&& admitted_inside(rule_index, path)
                &&& inside[i] == step_of(phase_index, rules, term, context_term, position, rule_index, path)
            };
        assert(admits(rule_index, path));
    }
    assert forall|i: int| 0 <= i < steps.len() implies is_admitted_step(
        #[trigger] steps[i],
        phase_index,
        rules,
        term,
        context_term,
        position,
        admits,
    ) by {
        if i < at_root.len() {
            assert(steps[i] == at_root[i]);
        } else {
            assert(steps[i] == inside[i - at_root.len()]);
        }
    }
    assert forall|rule_index: int, path: Seq<usize>| #[trigger]
        fires(rules, term, context_term, position, rule_index, path) && admits(rule_index, path) implies steps.contains(
        step_of(phase_index, rules, term, context_term, position, rule_index, path),
    ) by {
        let step = step_of(phase_index, rules, term, context_term, position, rule_index, path);
        if path.len() == 0 {
            assert(admitted_at_root(rule_index, path));
            assert(at_root.contains(step));
            let i = choose|i: int| 0 <= i < at_root.len() && at_root[i] == step;
            assert(steps[i] == step);
        } else {
            lemma_path_starts_in_term(rules, term, context_term, position, rule_index, path);
            assert(admitted_inside(rule_index, path));
            assert(inside.contains(step));
            let i = choose|i: int| 0 <= i < inside.len() && inside[i] == step;
            assert(steps[at_root.len() + i] == step);
        }
    }
    assert forall|i: int, j: int| 0 <= i < j < steps.len() implies !((#[trigger] steps[i]).rule_index_in_phase
        == (#[trigger] steps[j]).rule_index_in_phase && steps[i].position == steps[j].position) by {
        if j < at_root.len() {
            assert(steps[i] == at_root[i] && steps[j] == at_root[j]);
        } else if i < at_root.len() {
            assert(steps[i] == at_root[i]);
            assert(steps[j] == inside[j - at_root.len()]);
        } else {
            assert(steps[i] == inside[i - at_root.len()]);
            assert(steps[j] == inside[j - at_root.len()]);
        }
    }
}

/// `step` is a single rewrite step of `term`: the step in which some rule
/// applies at some position of `term`.
pub open spec fn is_step<LOS: RewritableLanguageOperatorSymbol>(
    step: TransformationModel<LOS>,
    phase_index: usize,
    rules: Seq<Box<dyn RewriteRule<LOS>>>,
    term: TermModel<LOS>,
    context_term: TermModel<LOS>,
    position: Seq<usize>,
) -> bool {
    exists|rule_index: int, path: Seq<usize>|
        {
            &&& #[trigger] fires(rules, term, context_term, position, rule_index, path)
            &&& step == step_of(phase_index, rules, term, context_term, position, rule_index, path)
        }
}

/// The engine is complete. Without `keep_only_one`, the transformations of a
/// term are exactly its single rewrite steps: each of them is the step in
/// which some rule applies at some position of the term; for each rule and
/// each position at which that rule applies, the step is among them; and no
/// two of them have the same rule and the same position.
pub proof fn lemma_transformations_are_exactly_the_steps<LOS: RewritableLanguageOperatorSymbol>(
    phase_index: usize,
    rules: Seq<Box<dyn RewriteRule<LOS>>>,
    term: TermModel<LOS>,
    context_term: TermModel<LOS>,
    position: Seq<usize>,
)
    requires
        rules.len() <= usize::MAX,
        is_addressable(term),
    ensures
        ({
            let steps = transformations(phase_index, rules, term, false, context_term, position);
            &&& forall|i: int|
                0 <= i < steps.len() ==> is_step(
                    #[trigger] steps[i],
                    phase_index,
                    rules,
                    term,
                    context_term,
                    position,
                )
            &&& forall|rule_index: int, path: Seq<usize>| #[trigger]
                fires(rules, term, context_term, position, rule_index, path) ==> steps.contains(
                    step_of(phase_index, rules, term, context_term, position, rule_index, path),
                )
            &&& forall|i: int, j: int|
                0 <= i < j < steps.len() ==> !((#[trigger] steps[i]).rule_index_in_phase == (#[trigger] steps[j]).rule_index_in_phase
                    && steps[i].position == steps[j].position)
        }),
{
    let steps = transformations(phase_index, rules, term, false, context_term, position);
    let admits = |rule_index: int, path: Seq<usize>| true;
    lemma_transformations_steps(phase_index, rules, term, context_term, position);
    assert forall|i: int| 0 <= i < steps.len() implies is_step(
        #[trigger] steps[i],
        phase_index,
        rules,
        term,
        context_term,
        position,
    ) by {
        assert(is_admitted_step(steps[i], phase_index, rules, term, context_term, position, admits));
    }
    assert forall|rule_index: int, path: Seq<usize>| #[trigger]
        fires(rules, term, context_term, position, rule_index, path) implies steps.contains(
        step_of(phase_index, rules, term, context_term, position, rule_index, path),
    ) by {
        assert(admits(rule_index, path));
    }
}

/// The first of `steps` alone, or nothing where there is none.
pub open spec fn first_of<LOS>(steps: Seq<TransformationModel<LOS>>) -> Seq<TransformationModel<LOS>> {
    if steps.len() > 0 {
        seq![steps[0]]
    } else {
        Seq::empty()
    }
}

/// With `keep_only_one`, what the rules give at the root is the first of what
/// they give there without it.
proof fn lemma_first_at_root<LOS: RewritableLanguageOperatorSymbol>(
    phase_index: usize,
    rules: Seq<Box<dyn RewriteRule<LOS>>>,
    term: TermModel<LOS>,
    context_term: TermModel<LOS>,
    position: Seq<usize>,
    upto: int,
)
    ensures
        root_transformations(phase_index, rules, term, true, context_term, position, upto) == first_of(
            root_transformations(phase_index, rules, term, false, context_term, position, upto),
        ),
    decreases upto,
{
    let one = root_transformations(phase_index, rules, term, true, context_term, position, upto);
    let all = root_transformations(phase_index, rules, term, false, context_term, position, upto);
    if upto > 0 {
        lemma_first_at_root(phase_index, rules, term, context_term, position, upto - 1);
    }
    assert(one =~= first_of(all));
}

/// With `keep_only_one`, what the rules give inside the sub-terms is the
/// first of what they give there without it.
proof fn lemma_first_in_sub_terms<LOS: RewritableLanguageOperatorSymbol>(
    phase_index: usize,
    rules: Seq<Box<dyn RewriteRule<LOS>>>,
    term: TermModel<LOS>,
    context_term: TermModel<LOS>,
    position: Seq<usize>,
    upto: int,
)
    ensures
        sub_term_transformations(phase_index, rules, term, true, context_term, position, upto) == first_of(
            sub_term_transformations(phase_index, rules, term, false, context_term, position, upto),
        ),
    decreases term, upto,
{
    let one = sub_term_transformations(phase_index, rules, term, true, context_term, position, upto);
    let all = sub_term_transformations(phase_index, rules, term, false, context_term, position, upto);
    if 0 < upto <= term.sub_terms.len() {
        lemma_first_in_sub_terms(phase_index, rules, term, context_term, position, upto - 1);
        lemma_keeping_only_one_keeps_the_first(
            phase_index,
            rules,
            term.sub_terms[upto - 1],
            context_term,
            position.push((upto - 1) as usize),
        );
        let inner_one = transformations(
            phase_index,
            rules,
            term.sub_terms[upto - 1],
            true,
            context_term,
            position.push((upto - 1) as usize),
        );
        let inner_all = transformations(
            phase_index,
            rules,
            term.sub_terms[upto - 1],
            false,
            context_term,
            position.push((upto - 1) as usize),
        );
        assert(lifted(term, upto - 1, inner_one) =~= first_of(lifted(term, upto - 1, inner_all)));
    }
    assert(one =~= first_of(all));
}

/// With `keep_only_one`, the engine keeps the first of the single rewrite
/// steps that it finds without it: a step at the root before a step inside a
/// sub-term, an earlier rule before a later one, an earlier sub-term before a
/// later one.
pub proof fn lemma_keeping_only_one_keeps_the_first<LOS: RewritableLanguageOperatorSymbol>(
    phase_index: usize,
    rules: Seq<Box<dyn RewriteRule<LOS>>>,
    term: TermModel<LOS>,
    context_term: TermModel<LOS>,
    position: Seq<usize>,
)
    ensures
        transformations(phase_index, rules, term, true, context_term, position) == first_of(
            transformations(phase_index, rules, term, false, context_term, position),
        ),
    decreases term, term.sub_terms.len() + 1,
{
    lemma_first_at_root(phase_index, rules, term, context_term, position, rules.len() as int);
    lemma_first_in_sub_terms(phase_index, rules, term, context_term, position, term.sub_terms.len() as int);
    assert(transformations(phase_index, rules, term, true, context_term, position) =~= first_of(
        transformations(phase_index, rules, term, false, context_term, position),
    ));
}

} // verus!
