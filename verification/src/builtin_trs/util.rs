use crate::rewriting_core::terms::term::{LanguageTerm, RewritableLanguageOperatorSymbol, TermModel, models_of};
use std::cmp::Ordering;
use crate::rewriting_core::model::some_function_of;
use vstd::prelude::*;

verus! {

/// The models of a sequence of borrowed terms.
pub open spec fn models_of_borrowed<LOS: RewritableLanguageOperatorSymbol>(
    terms: Seq<&LanguageTerm<LOS>>,
) -> Seq<TermModel<LOS>> {
    Seq::new(terms.len(), |i: int| terms[i]@)
}

/// The operands of the chain of `op` at the root of `term`, from left to right:
/// nested occurrences of `op` are opened up, any other sub-term is an operand.
pub open spec fn flattened<LOS>(term: TermModel<LOS>, op: LOS) -> Seq<TermModel<LOS>>
    decreases term,
{
    if term.operator == op {
        flattened_all(term.sub_terms, op)
    } else {
        seq![term]
    }
}

/// The operands of the chains of `op` at the roots of `terms`, one after another.
pub open spec fn flattened_all<LOS>(terms: Seq<TermModel<LOS>>, op: LOS) -> Seq<TermModel<LOS>>
    decreases terms,
{
    if terms.len() == 0 {
        Seq::empty()
    } else {
        flattened_all(terms.drop_last(), op) + flattened(terms.last(), op)
    }
}

/// The right-leaning chain of `op` over `operands`. One operand is its own
/// chain; no operand at all gives the constant `default_empty`.
pub open spec fn folded<LOS>(op: LOS, operands: Seq<TermModel<LOS>>, default_empty: Option<LOS>) -> TermModel<LOS>
    recommends
        operands.len() > 0 || default_empty.is_some(),
    decreases operands.len(),
{
    if operands.len() == 0 {
        TermModel { operator: default_empty.unwrap(), sub_terms: Seq::empty() }
    } else if operands.len() == 1 {
        operands[0]
    } else {
        TermModel {
            operator: op,
            sub_terms: seq![operands[0], folded(op, operands.drop_first(), default_empty)],
        }
    }
}

/// Flattens the chain of `considered_associative_operator` at the root of `term`.
pub fn get_associative_sub_terms_recursively<'a, LOS: RewritableLanguageOperatorSymbol>(
    term: &'a LanguageTerm<LOS>,
    considered_associative_operator: &LOS,
) -> (operands: Vec<&'a LanguageTerm<LOS>>)
    ensures
        models_of_borrowed(operands@) == flattened(term@, *considered_associative_operator),
    decreases term,
{
    proof {
        LOS::symbol_laws();
    }
    let mut sub_terms: Vec<&'a LanguageTerm<LOS>> = Vec::new();
    if &term.operator == considered_associative_operator {
        let mut i: usize = 0;
        assert(term@.sub_terms.take(0) =~= Seq::empty());
        assert(models_of_borrowed(sub_terms@) =~= Seq::empty());
        while i < term.sub_terms.len()
            invariant
                i <= term.sub_terms.len(),
                models_of_borrowed(sub_terms@) == flattened_all(
                    term@.sub_terms.take(i as int),
                    *considered_associative_operator,
                ),
            decreases term.sub_terms.len() - i,
        {
            let mut inner = get_associative_sub_terms_recursively(
                &term.sub_terms[i],
                considered_associative_operator,
            );
            let ghost before = sub_terms@;
            let ghost added = inner@;
            sub_terms.append(&mut inner);
            proof {
                let prefix = term@.sub_terms.take(i + 1);
                assert(prefix.drop_last() =~= term@.sub_terms.take(i as int));
                assert(prefix.last() == term.sub_terms[i as int]@);
                assert(models_of_borrowed(sub_terms@) =~= models_of_borrowed(before) + models_of_borrowed(
                    added,
                ));
            }
            i += 1;
        }
        assert(term@.sub_terms.take(i as int) =~= term@.sub_terms);
    } else {
        sub_terms.push(term);
        assert(models_of_borrowed(sub_terms@) =~= seq![term@]);
    }
    sub_terms
}

/// Clones of the terms that `terms` borrows.
pub fn clone_borrowed<LOS: RewritableLanguageOperatorSymbol>(terms: &Vec<&LanguageTerm<LOS>>) -> (clones: Vec<
    LanguageTerm<LOS>,
>)
    ensures
        models_of(clones@) == models_of_borrowed(terms@),
{
    let mut clones: Vec<LanguageTerm<LOS>> = Vec::new();
    let mut i: usize = 0;
    while i < terms.len()
        invariant
            i <= terms@.len(),
            clones@.len() == i,
            forall|k: int| 0 <= k < i ==> clones@[k]@ == terms@[k]@,
        decreases terms@.len() - i,
    {
        clones.push(terms[i].clone());
        i += 1;
    }
    assert(models_of(clones@) =~= models_of_borrowed(terms@));
    clones
}

/// Folds `sub_terms` into a right-leaning chain of `considered_associative_operator`
/// and leaves `sub_terms` empty.
pub fn fold_associative_sub_terms_recursively<LOS: RewritableLanguageOperatorSymbol>(
    considered_associative_operator: &LOS,
    sub_terms: &mut Vec<LanguageTerm<LOS>>,
    default_empty_term: &Option<LOS>,
) -> (chain: LanguageTerm<LOS>)
    requires
        old(sub_terms)@.len() > 0 || default_empty_term.is_some(),
    ensures
        chain@ == folded(*considered_associative_operator, models_of(old(sub_terms)@), *default_empty_term),
        final(sub_terms)@.len() == 0,
    decreases old(sub_terms)@.len(),
{
    proof {
        LOS::symbol_laws();
    }
    let ghost operands = models_of(sub_terms@);
    let sub_terms_num = sub_terms.len();
    if sub_terms_num == 0 {
        match default_empty_term {
            Some(empty_op) => {
                let operator = empty_op.clone();
                assert(cloned(*empty_op, operator));
                let chain = LanguageTerm::new(operator, Vec::new());
                assert(chain@.sub_terms =~= Seq::empty());
                chain
            },
            None => unreached(),
        }
    } else if sub_terms_num == 1 {
        let t1 = sub_terms.remove(0);
        assert(t1@ == operands[0]);
        t1
    } else {
        let t1 = sub_terms.remove(0);
        assert(models_of(sub_terms@) =~= operands.drop_first());
        let t2 = fold_associative_sub_terms_recursively(
            considered_associative_operator,
            sub_terms,
            default_empty_term,
        );
        let operator = considered_associative_operator.clone();
        assert(cloned(*considered_associative_operator, operator));
        let mut children: Vec<LanguageTerm<LOS>> = Vec::new();
        children.push(t1);
        children.push(t2);
        let chain = LanguageTerm::new(operator, children);
        assert(chain@.sub_terms =~= seq![operands[0], folded(
            *considered_associative_operator,
            operands.drop_first(),
            *default_empty_term,
        )]);
        chain
    }
}

/// A precedence on operator symbols, with their arities: what the ordering of
/// terms is derived from.
pub trait OperatorPrecedence<LOS> {
    /// How `op1` compares to `op2`.
    open spec fn comparison(&self, op1: LOS, op2: LOS) -> Ordering {
        some_function_of::<Self, _, _>("comparison", (self, op1, op2))
    }

    /// The number of sub-terms that `op` takes.
    open spec fn arity(&self, op: LOS) -> nat {
        some_function_of::<Self, _, _>("arity", (self, op))
    }

    fn compare_operators(&self, op1: &LOS, op2: &LOS) -> (ordering: Ordering)
        ensures
            ordering == self.comparison(*op1, *op2),
    ;

    fn get_arity(&self, op: &LOS) -> (arity: usize)
        ensures
            arity == self.arity(*op),
    ;
}

/// The comparison of a precedence, as a function.
pub open spec fn comparison_of<LOS, P: OperatorPrecedence<LOS>>(precedence: P) -> spec_fn(LOS, LOS) -> Ordering {
    |op1: LOS, op2: LOS| precedence.comparison(op1, op2)
}

/// The arities of a precedence, as a function.
pub open spec fn arity_of<LOS, P: OperatorPrecedence<LOS>>(precedence: P) -> spec_fn(LOS) -> nat {
    |op: LOS| precedence.arity(op)
}

/// Every node of `term` has as many sub-terms as `arity` gives its operator.
pub open spec fn respects_arity<LOS>(term: TermModel<LOS>, arity: spec_fn(LOS) -> nat) -> bool
    decreases term,
{
    &&& term.sub_terms.len() == arity(term.operator)
    &&& forall|i: int| 0 <= i < term.sub_terms.len() ==> respects_arity(#[trigger] term.sub_terms[i], arity)
}

/// The operands of a chain at the root of a term that respects the arities
/// respect them too.
pub proof fn lemma_flattened_respect_arity<LOS>(term: TermModel<LOS>, op: LOS, arity: spec_fn(LOS) -> nat)
    requires
        respects_arity(term, arity),
    ensures
        forall|i: int|
            0 <= i < flattened(term, op).len() ==> respects_arity(#[trigger] flattened(term, op)[i], arity),
    decreases term,
{
    if term.operator == op {
        lemma_all_flattened_respect_arity(term.sub_terms, op, arity);
        assert(flattened(term, op) == flattened_all(term.sub_terms, op));
    } else {
        assert(flattened(term, op) == seq![term]);
    }
}

/// The operands of the chains at the roots of terms that respect the arities
/// respect them too.
pub proof fn lemma_all_flattened_respect_arity<LOS>(terms: Seq<TermModel<LOS>>, op: LOS, arity: spec_fn(LOS) -> nat)
    requires
        forall|i: int| 0 <= i < terms.len() ==> respects_arity(#[trigger] terms[i], arity),
    ensures
        forall|i: int|
            0 <= i < flattened_all(terms, op).len() ==> respects_arity(#[trigger] flattened_all(terms, op)[i], arity),
    decreases terms,
{
    if terms.len() > 0 {
        assert forall|i: int| 0 <= i < terms.drop_last().len() implies respects_arity(
            #[trigger] terms.drop_last()[i],
            arity,
        ) by {
            assert(terms.drop_last()[i] == terms[i]);
        }
        lemma_all_flattened_respect_arity(terms.drop_last(), op, arity);
        lemma_flattened_respect_arity(terms.last(), op, arity);
        let earlier = flattened_all(terms.drop_last(), op);
        let last = flattened(terms.last(), op);
        assert(flattened_all(terms, op) == earlier + last);
        assert forall|i: int| 0 <= i < flattened_all(terms, op).len() implies respects_arity(
            #[trigger] flattened_all(terms, op)[i],
            arity,
        ) by {
            if i < earlier.len() {
                assert(flattened_all(terms, op)[i] == earlier[i]);
            } else {
                assert(flattened_all(terms, op)[i] == last[i - earlier.len()]);
            }
        }
    }
}

/// The number of nodes of `term`.
pub open spec fn term_size<LOS>(term: TermModel<LOS>) -> nat
    decreases term,
{
    1 + terms_size(term.sub_terms)
}

/// The number of nodes of `terms`, all together.
pub open spec fn terms_size<LOS>(terms: Seq<TermModel<LOS>>) -> nat
    decreases terms,
{
    if terms.len() == 0 {
        0
    } else {
        terms_size(terms.drop_last()) + term_size(terms.last())
    }
}

/// A term among `terms` is no larger than `terms` all together.
pub proof fn lemma_member_size<LOS>(terms: Seq<TermModel<LOS>>, i: int)
    requires
        0 <= i < terms.len(),
    ensures
        term_size(terms[i]) <= terms_size(terms),
    decreases terms.len(),
{
    if i < terms.len() - 1 {
        lemma_member_size(terms.drop_last(), i);
    }
}

/// Every direct sub-term of `term` is smaller than `term`.
pub proof fn lemma_sub_terms_are_smaller<LOS>(term: TermModel<LOS>)
    ensures
        forall|i: int| 0 <= i < term.sub_terms.len() ==> term_size(#[trigger] term.sub_terms[i]) < term_size(term),
{
    assert forall|i: int| 0 <= i < term.sub_terms.len() implies term_size(#[trigger] term.sub_terms[i])
        < term_size(term) by {
        lemma_member_size(term.sub_terms, i);
    }
}

/// Whether `s` dominates `t` in the ordering of terms derived from `comparison`:
/// - where the operator of `s` is the greater, `s` has to dominate every sub-term of `t`;
/// - where it is the lesser, a sub-term of `s` has to be `t` or dominate `t`;
/// - where the operators compare equal, the first pair of sub-terms of which
///   one dominates the other decides.
pub open spec fn is_greater<LOS>(s: TermModel<LOS>, t: TermModel<LOS>, comparison: spec_fn(LOS, LOS) -> Ordering) -> bool
    decreases term_size(s) + term_size(t),
{
    match comparison(s.operator, t.operator) {
        Ordering::Greater => forall|j: int|
            0 <= j < t.sub_terms.len() ==> {
                proof {
                    lemma_sub_terms_are_smaller(t);
                }
                is_greater(s, #[trigger] t.sub_terms[j], comparison)
            },
        Ordering::Less => exists|i: int|
            0 <= i < s.sub_terms.len() && {
                proof {
                    lemma_sub_terms_are_smaller(s);
                }
                #[trigger] s.sub_terms[i] == t || is_greater(s.sub_terms[i], t, comparison)
            },
        Ordering::Equal => exists|k: int|
            0 <= k < s.sub_terms.len() && k < t.sub_terms.len() && {
                proof {
                    lemma_sub_terms_are_smaller(s);
                    lemma_sub_terms_are_smaller(t);
                }
                &&& is_greater(#[trigger] s.sub_terms[k], t.sub_terms[k], comparison)
                &&& forall|i: int|
                    0 <= i < k ==> !is_greater(#[trigger] s.sub_terms[i], t.sub_terms[i], comparison)
                        && !is_greater(t.sub_terms[i], s.sub_terms[i], comparison)
            },
    }
}

/// The ordering of terms derived from `comparison`: equal terms are equal, and
/// of two others the one that dominates is the greater.
pub open spec fn lexicographic_path_order<LOS>(
    s: TermModel<LOS>,
    t: TermModel<LOS>,
    comparison: spec_fn(LOS, LOS) -> Ordering,
) -> Ordering {
    if s == t {
        Ordering::Equal
    } else if is_greater(s, t, comparison) {
        Ordering::Greater
    } else {
        Ordering::Less
    }
}

/// Whether every node of `term` has the number of sub-terms that `precedence`
/// gives its operator.
pub fn term_respects_arity<LOS: RewritableLanguageOperatorSymbol, P: OperatorPrecedence<LOS>>(
    term: &LanguageTerm<LOS>,
    precedence: &P,
) -> (respected: bool)
    ensures
        respected == respects_arity(term@, arity_of(*precedence)),
    decreases term,
{
    if term.sub_terms.len() != precedence.get_arity(&term.operator) {
        return false;
    }
    let mut i: usize = 0;
    let ghost mut reached: int = 0;
    while i < term.sub_terms.len()
        invariant
            reached == i,
            i <= term.sub_terms.len(),
            forall|k: int| 0 <= k < reached ==> respects_arity(#[trigger] term@.sub_terms[k], arity_of(*precedence)),
        decreases term.sub_terms.len() - i,
    {
        if !term_respects_arity(&term.sub_terms[i], precedence) {
            assert(term@.sub_terms[reached] == term.sub_terms[reached]@);
            return false;
        }
        assert(term@.sub_terms[reached] == term.sub_terms[reached]@);
        i += 1;
        proof {
            reached = reached + 1;
        }
    }
    true
}

/// Tells whether `s` dominates `t` in the ordering of terms derived from `precedence`.
pub fn is_greater_as_per_lexicographic_path_ordering<LOS: RewritableLanguageOperatorSymbol, P: OperatorPrecedence<LOS>>(
    s: &LanguageTerm<LOS>,
    t: &LanguageTerm<LOS>,
    precedence: &P,
) -> (greater: bool)
    requires
        respects_arity(s@, arity_of(*precedence)),
        respects_arity(t@, arity_of(*precedence)),
    ensures
        greater == is_greater(s@, t@, comparison_of(*precedence)),
    decreases term_size(s@) + term_size(t@),
{
    let ghost comparison = comparison_of(*precedence);
    let ghost arity = arity_of(*precedence);
    proof {
        lemma_sub_terms_are_smaller(s@);
        lemma_sub_terms_are_smaller(t@);
    }
    match precedence.compare_operators(&s.operator, &t.operator) {
        Ordering::Greater => {
            let arity_of_t = precedence.get_arity(&t.operator);
            let mut j: usize = 0;
            let ghost mut reached: int = 0;
            while j < arity_of_t
                invariant
                    reached == j,
                    j <= arity_of_t,
                    arity_of_t == t@.sub_terms.len(),
                    comparison == comparison_of(*precedence),
                    comparison(s@.operator, t@.operator) == Ordering::Greater,
                    arity == arity_of(*precedence),
                    respects_arity(s@, arity),
                    respects_arity(t@, arity),
                    forall|k: int| 0 <= k < t@.sub_terms.len() ==> term_size(#[trigger] t@.sub_terms[k]) < term_size(t@),
                    forall|k: int| 0 <= k < reached ==> is_greater(s@, #[trigger] t@.sub_terms[k], comparison),
                decreases arity_of_t - j,
            {
                let tj = &t.sub_terms[j];
                assert(t@.sub_terms[reached] == tj@);
                if !is_greater_as_per_lexicographic_path_ordering(s, tj, precedence) {
                    return false;
                }
                j += 1;
                proof {
                    reached = reached + 1;
                }
            }
            true
        },
        Ordering::Less => {
            let arity_of_s = precedence.get_arity(&s.operator);
            let mut i: usize = 0;
            let ghost mut reached: int = 0;
            while i < arity_of_s
                invariant
                    reached == i,
                    i <= arity_of_s,
                    arity_of_s == s@.sub_terms.len(),
                    comparison == comparison_of(*precedence),
                    comparison(s@.operator, t@.operator) == Ordering::Less,
                    arity == arity_of(*precedence),
                    respects_arity(s@, arity),
                    respects_arity(t@, arity),
                    forall|k: int| 0 <= k < s@.sub_terms.len() ==> term_size(#[trigger] s@.sub_terms[k]) < term_size(s@),
                    forall|k: int|
                        0 <= k < reached ==> !(#[trigger] s@.sub_terms[k] == t@ || is_greater(
                            s@.sub_terms[k],
                            t@,
                            comparison,
                        )),
                decreases arity_of_s - i,
            {
                let si = &s.sub_terms[i];
                assert(s@.sub_terms[reached] == si@);
                if si == t || is_greater_as_per_lexicographic_path_ordering(si, t, precedence) {
                    return true;
                }
                i += 1;
                proof {
                    reached = reached + 1;
                }
            }
            false
        },
        Ordering::Equal => {
            let arity_of_s = precedence.get_arity(&s.operator);
            let mut i: usize = 0;
            let ghost mut reached: int = 0;
            while i < arity_of_s && i < t.sub_terms.len()
                invariant
                    reached == i,
                    i <= arity_of_s,
                    i <= t@.sub_terms.len(),
                    arity_of_s == s@.sub_terms.len(),
                    comparison == comparison_of(*precedence),
                    comparison(s@.operator, t@.operator) == Ordering::Equal,
                    arity == arity_of(*precedence),
                    respects_arity(s@, arity),
                    respects_arity(t@, arity),
                    forall|k: int| 0 <= k < s@.sub_terms.len() ==> term_size(#[trigger] s@.sub_terms[k]) < term_size(s@),
                    forall|k: int| 0 <= k < t@.sub_terms.len() ==> term_size(#[trigger] t@.sub_terms[k]) < term_size(t@),
                    forall|k: int|
                        0 <= k < reached ==> !is_greater(#[trigger] s@.sub_terms[k], t@.sub_terms[k], comparison)
                            && !is_greater(t@.sub_terms[k], s@.sub_terms[k], comparison),
                decreases arity_of_s - i,
            {
                let si = &s.sub_terms[i];
                let ti = &t.sub_terms[i];
                assert(s@.sub_terms[reached] == si@);
                assert(t@.sub_terms[reached] == ti@);
                if is_greater_as_per_lexicographic_path_ordering(si, ti, precedence) {
                    assert(reached < s@.sub_terms.len() && reached < t@.sub_terms.len());
                    assert(is_greater(s@.sub_terms[reached], t@.sub_terms[reached], comparison));
                    assert(forall|k: int|
                        0 <= k < reached ==> !is_greater(#[trigger] s@.sub_terms[k], t@.sub_terms[k], comparison)
                            && !is_greater(t@.sub_terms[k], s@.sub_terms[k], comparison));
                    assert(is_greater(s@, t@, comparison));
                    return true;
                }
                if is_greater_as_per_lexicographic_path_ordering(ti, si, precedence) {
                    assert(is_greater(t@.sub_terms[reached], s@.sub_terms[reached], comparison));
                    assert(!is_greater(s@, t@, comparison));
                    return false;
                }
                i += 1;
                proof {
                    reached = reached + 1;
                }
            }
            assert(!is_greater(s@, t@, comparison));
            false
        },
    }
}

/// Compares `s` and `t` in the ordering of terms derived from `precedence`.
pub fn lexicographic_path_ordering<LOS: RewritableLanguageOperatorSymbol, P: OperatorPrecedence<LOS>>(
    s: &LanguageTerm<LOS>,
    t: &LanguageTerm<LOS>,
    precedence: &P,
) -> (ordering: Ordering)
    requires
        respects_arity(s@, arity_of(*precedence)),
        respects_arity(t@, arity_of(*precedence)),
    ensures
        ordering == lexicographic_path_order(s@, t@, comparison_of(*precedence)),
{
    if s == t {
        Ordering::Equal
    } else if is_greater_as_per_lexicographic_path_ordering(s, t, precedence) {
        Ordering::Greater
    } else {
        Ordering::Less
    }
}

/// `comparison` is a total order on operator symbols: only a symbol compares
/// equal to itself, and one symbol is greater than another exactly when the
/// other is less than it.
pub open spec fn is_total_precedence<LOS>(comparison: spec_fn(LOS, LOS) -> Ordering) -> bool {
    &&& forall|a: LOS, b: LOS| (#[trigger] comparison(a, b) == Ordering::Equal) <==> a == b
    &&& forall|a: LOS, b: LOS| (#[trigger] comparison(a, b) == Ordering::Greater) <==> comparison(b, a) == Ordering::Less
}

/// The first index at which two different sequences of one length differ.
proof fn lemma_first_difference<T>(a: Seq<T>, b: Seq<T>, from: int) -> (k: int)
    requires
        a.len() == b.len(),
        a != b,
        0 <= from <= a.len(),
        forall|i: int| 0 <= i < from ==> a[i] == b[i],
    ensures
        from <= k < a.len(),
        a[k] != b[k],
        forall|i: int| 0 <= i < k ==> a[i] == b[i],
    decreases a.len() - from,
{
    if from == a.len() {
        assert(a =~= b);
        from
    } else if a[from] != b[from] {
        from
    } else {
        lemma_first_difference(a, b, from + 1)
    }
}

/// The ordering of terms derived from a total order on operator symbols is
/// total: of two terms that respect the arities, either they are equal and
/// neither dominates the other, or exactly one of them dominates the other.
pub proof fn lemma_term_ordering_is_total<LOS>(
    s: TermModel<LOS>,
    t: TermModel<LOS>,
    comparison: spec_fn(LOS, LOS) -> Ordering,
    arity: spec_fn(LOS) -> nat,
)
    requires
        is_total_precedence(comparison),
        respects_arity(s, arity),
        respects_arity(t, arity),
    ensures
        s == t ==> !is_greater(s, t, comparison) && !is_greater(t, s, comparison),
        s != t ==> (is_greater(s, t, comparison) <==> !is_greater(t, s, comparison)),
    decreases term_size(s) + term_size(t),
{
    lemma_sub_terms_are_smaller(s);
    lemma_sub_terms_are_smaller(t);
    match comparison(s.operator, t.operator) {
        Ordering::Greater => {
            assert(comparison(t.operator, s.operator) == Ordering::Less);
            assert forall|j: int| 0 <= j < t.sub_terms.len() implies (#[trigger] t.sub_terms[j] == s
                || is_greater(t.sub_terms[j], s, comparison)) != is_greater(s, t.sub_terms[j], comparison) by {
                lemma_term_ordering_is_total(s, t.sub_terms[j], comparison, arity);
            }
        },
        Ordering::Less => {
            assert(comparison(t.operator, s.operator) == Ordering::Greater);
            assert forall|i: int| 0 <= i < s.sub_terms.len() implies (#[trigger] s.sub_terms[i] == t
                || is_greater(s.sub_terms[i], t, comparison)) != is_greater(t, s.sub_terms[i], comparison) by {
                lemma_term_ordering_is_total(s.sub_terms[i], t, comparison, arity);
            }
        },
        Ordering::Equal => {
            assert(s.operator == t.operator);
            assert(comparison(t.operator, s.operator) == Ordering::Equal);
            assert(s.sub_terms.len() == t.sub_terms.len());
            assert forall|i: int| 0 <= i < s.sub_terms.len() implies {
                &&& #[trigger] s.sub_terms[i] == t.sub_terms[i] ==> !is_greater(
                    s.sub_terms[i],
                    t.sub_terms[i],
                    comparison,
                ) && !is_greater(t.sub_terms[i], s.sub_terms[i], comparison)
                &&& s.sub_terms[i] != t.sub_terms[i] ==> (is_greater(s.sub_terms[i], t.sub_terms[i], comparison)
                    <==> !is_greater(t.sub_terms[i], s.sub_terms[i], comparison))
            } by {
                lemma_term_ordering_is_total(s.sub_terms[i], t.sub_terms[i], comparison, arity);
            }
            if s != t {
                assert(s.sub_terms != t.sub_terms);
                let k = lemma_first_difference(s.sub_terms, t.sub_terms, 0);
                let _ = s.sub_terms[k];
                let _ = t.sub_terms[k];
                if is_greater(s.sub_terms[k], t.sub_terms[k], comparison) {
                    assert(is_greater(s, t, comparison));
                    assert(!is_greater(t, s, comparison));
                } else {
                    assert(is_greater(t.sub_terms[k], s.sub_terms[k], comparison));
                    assert(is_greater(t, s, comparison));
                    assert(!is_greater(s, t, comparison));
                }
            }
        },
    }
}

} // verus!
