use crate::builtin_trs::util::{term_size, terms_size};
use crate::rewriting_core::model::some_function_of;
use crate::rewriting_core::terms::term::{LanguageTerm, RewritableLanguageOperatorSymbol, TermModel};
use vstd::prelude::*;
use vstd::std_specs::cmp::PartialEqSpec;

verus! {

/// A metric that an occurrence of an operator symbol in a term counts for.
///
/// Two metrics are the same metric exactly when `==` says so: an
/// implementation vouches for it.
pub trait TermSymbolMetric<LOS: RewritableLanguageOperatorSymbol>: Clone + PartialEq + Eq + PartialOrd + Copy + Ord + core::hash::Hash {
    proof fn metric_laws()
        ensures
            Self::obeys_eq_spec(),
            forall|a: Self, b: Self| #[trigger] a.eq_spec(&b) <==> a == b,
    ;

    /// The depth to which occurrences that count for this metric are nested
    /// is measured.
    open spec fn nested_depth_measured(&self) -> bool {
        some_function_of::<Self, _, _>("nested_depth_measured", self)
    }

    /// The metrics that an occurrence of `op` counts for, each once.
    open spec fn of_operator_symbol(op: LOS) -> Seq<Self> {
        some_function_of::<Self, _, _>("of_operator_symbol", op)
    }

    fn measure_nested_depth(&self) -> (measured: bool)
        ensures
            measured == self.nested_depth_measured(),
    ;

    /// Gathers the metrics that an occurrence of an operator symbol in a
    /// term counts for.
    fn from_operator_symbol(op: &LOS) -> (metrics: Vec<Self>)
        ensures
            metrics@ == Self::of_operator_symbol(*op),
            metrics@.no_duplicates(),
    ;
}

/// The number that `table` holds for `metric`: that of the first entry for
/// it, or 0 where there is none.
pub open spec fn number_for<M>(table: Seq<(M, u32)>, metric: M) -> nat
    decreases table.len(),
{
    if table.len() == 0 {
        0
    } else if table[0].0 == metric {
        table[0].1 as nat
    } else {
        number_for(table.drop_first(), metric)
    }
}

/// `table` holds one entry at most for a metric, and no entry for the number 0.
pub open spec fn is_table<M>(table: Seq<(M, u32)>) -> bool {
    &&& forall|i: int, j: int| 0 <= i < j < table.len() ==> (#[trigger] table[i]).0 != (#[trigger] table[j]).0
    &&& forall|i: int| 0 <= i < table.len() ==> (#[trigger] table[i]).1 > 0
}

/// 1 where the occurrence of `op` counts for `metric`, else 0.
pub open spec fn counts_for<LOS: RewritableLanguageOperatorSymbol, M: TermSymbolMetric<LOS>>(op: LOS, metric: M) -> nat {
    if M::of_operator_symbol(op).contains(metric) {
        1
    } else {
        0
    }
}

/// The number of occurrences of operators in `term` that count for `metric`.
pub open spec fn occurrences<LOS: RewritableLanguageOperatorSymbol, M: TermSymbolMetric<LOS>>(
    term: TermModel<LOS>,
    metric: M,
) -> nat
    decreases term,
{
    counts_for(term.operator, metric) + occurrences_in(term.sub_terms, metric)
}

/// The number of occurrences of operators in `terms` that count for `metric`.
pub open spec fn occurrences_in<LOS: RewritableLanguageOperatorSymbol, M: TermSymbolMetric<LOS>>(
    terms: Seq<TermModel<LOS>>,
    metric: M,
) -> nat
    decreases terms,
{
    if terms.len() == 0 {
        0
    } else {
        occurrences_in(terms.drop_last(), metric) + occurrences(terms.last(), metric)
    }
}

/// The greater of two numbers.
pub open spec fn greater_of(a: nat, b: nat) -> nat {
    if a >= b {
        a
    } else {
        b
    }
}

/// The number of nodes on the longest way from the root of `term` down to a constant.
pub open spec fn depth_of<LOS>(term: TermModel<LOS>) -> nat
    decreases term,
{
    1 + greatest_depth_of(term.sub_terms)
}

/// The greatest of the depths of `terms`, or 0 where there is none.
pub open spec fn greatest_depth_of<LOS>(terms: Seq<TermModel<LOS>>) -> nat
    decreases terms,
{
    if terms.len() == 0 {
        0
    } else {
        greater_of(greatest_depth_of(terms.drop_last()), depth_of(terms.last()))
    }
}

/// 1 where the occurrence of `op` counts for `metric` and the nested depth
/// of `metric` is measured, else 0.
pub open spec fn nests_for<LOS: RewritableLanguageOperatorSymbol, M: TermSymbolMetric<LOS>>(op: LOS, metric: M) -> nat {
    if M::of_operator_symbol(op).contains(metric) && metric.nested_depth_measured() {
        1
    } else {
        0
    }
}

/// The greatest number of occurrences that count for `metric` on one way
/// from the root of `term` down to a constant, where the nested depth of
/// `metric` is measured; 0 where it is not.
pub open spec fn nested_depth_of<LOS: RewritableLanguageOperatorSymbol, M: TermSymbolMetric<LOS>>(
    term: TermModel<LOS>,
    metric: M,
) -> nat
    decreases term,
{
    nests_for(term.operator, metric) + greatest_nested_depth_of(term.sub_terms, metric)
}

/// The greatest of the nested depths of `terms` for `metric`, or 0 where
/// there is none.
pub open spec fn greatest_nested_depth_of<LOS: RewritableLanguageOperatorSymbol, M: TermSymbolMetric<LOS>>(
    terms: Seq<TermModel<LOS>>,
    metric: M,
) -> nat
    decreases terms,
{
    if terms.len() == 0 {
        0
    } else {
        greater_of(greatest_nested_depth_of(terms.drop_last(), metric), nested_depth_of(terms.last(), metric))
    }
}

/// The metrics of a term.
pub struct TermMetrics<LOS: RewritableLanguageOperatorSymbol, TSM: TermSymbolMetric<LOS>> {
    pub phantom: core::marker::PhantomData<LOS>,
    /// for each metric, the number of occurrences that count for it
    pub metrics_count: Vec<(TSM, u32)>,
    /// the depth of the term
    pub term_depth: u32,
    /// for each metric of which the nested depth is measured, that depth
    pub max_nested_metrics_depths: Vec<(TSM, u32)>,
}

/// The number that `table` holds for `metric`.
fn get_number_for<LOS: RewritableLanguageOperatorSymbol, TSM: TermSymbolMetric<LOS>>(
    table: &Vec<(TSM, u32)>,
    metric: &TSM,
) -> (found: Option<usize>)
    ensures
        match found {
            Some(index) => index < table@.len() && table@[index as int].0 == *metric && number_for(table@, *metric)
                == table@[index as int].1 && forall|k: int| 0 <= k < index ==> table@[k].0 != *metric,
            None => number_for(table@, *metric) == 0 && forall|k: int| 0 <= k < table@.len() ==> table@[k].0 != *metric,
        },
{
    proof {
        TSM::metric_laws();
    }
    let mut i: usize = 0;
    assert(table@.skip(0) =~= table@);
    while i < table.len()
        invariant
            i <= table@.len(),
            TSM::obeys_eq_spec(),
            forall|a: TSM, b: TSM| #[trigger] a.eq_spec(&b) <==> a == b,
            forall|k: int| 0 <= k < i ==> table@[k].0 != *metric,
            number_for(table@, *metric) == number_for(table@.skip(i as int), *metric),
        decreases table@.len() - i,
    {
        let ghost rest = table@.skip(i as int);
        assert(rest[0] == table@[i as int]);
        assert(rest.drop_first() =~= table@.skip(i + 1));
        if table[i].0 == *metric {
            return Some(i);
        }
        i += 1;
    }
    assert(table@.skip(i as int).len() == 0);
    None
}

/// Entries before the first one for a metric do not change its number.
proof fn lemma_number_for_first_entry<M>(table: Seq<(M, u32)>, metric: M, index: int)
    requires
        0 <= index < table.len(),
        table[index].0 == metric,
        forall|k: int| 0 <= k < index ==> table[k].0 != metric,
    ensures
        number_for(table, metric) == table[index].1,
    decreases index,
{
    if index > 0 {
        assert(table.drop_first()[index - 1] == table[index]);
        assert forall|k: int| 0 <= k < index - 1 implies table.drop_first()[k].0 != metric by {
            assert(table.drop_first()[k] == table[k + 1]);
        }
        lemma_number_for_first_entry(table.drop_first(), metric, index - 1);
    }
}

/// A metric that has no entry has the number 0.
proof fn lemma_number_for_no_entry<M>(table: Seq<(M, u32)>, metric: M)
    requires
        forall|k: int| 0 <= k < table.len() ==> table[k].0 != metric,
    ensures
        number_for(table, metric) == 0,
    decreases table.len(),
{
    if table.len() > 0 {
        assert forall|k: int| 0 <= k < table.drop_first().len() implies table.drop_first()[k].0 != metric by {
            assert(table.drop_first()[k] == table[k + 1]);
        }
        lemma_number_for_no_entry(table.drop_first(), metric);
    }
}

/// The number of another metric than the one whose entry changes is kept.
proof fn lemma_number_for_other_metric<M>(table: Seq<(M, u32)>, index: int, number: u32, other: M)
    requires
        0 <= index < table.len(),
        table[index].0 != other,
    ensures
        number_for(table.update(index, (table[index].0, number)), other) == number_for(table, other),
    decreases index,
{
    let updated = table.update(index, (table[index].0, number));
    if index > 0 {
        assert(updated.drop_first() =~= table.drop_first().update(index - 1, (table[index].0, number)));
        assert(table.drop_first()[index - 1] == table[index]);
        lemma_number_for_other_metric(table.drop_first(), index - 1, number, other);
    } else {
        assert(updated.drop_first() =~= table.drop_first());
    }
}

/// A new entry at the end gives its number to a metric that had no entry,
/// and keeps the numbers of the others.
proof fn lemma_number_for_new_entry<M>(table: Seq<(M, u32)>, metric: M, number: u32, other: M)
    requires
        forall|k: int| 0 <= k < table.len() ==> table[k].0 != metric,
    ensures
        number_for(table.push((metric, number)), other) == if other == metric {
            number as nat
        } else {
            number_for(table, other)
        },
    decreases table.len(),
{
    let pushed = table.push((metric, number));
    if table.len() > 0 {
        assert(pushed.drop_first() =~= table.drop_first().push((metric, number)));
        assert forall|k: int| 0 <= k < table.drop_first().len() implies table.drop_first()[k].0 != metric by {
            assert(table.drop_first()[k] == table[k + 1]);
        }
        lemma_number_for_new_entry(table.drop_first(), metric, number, other);
        assert(table[0].0 != metric);
        assert(pushed[0] == table[0]);
        assert(pushed.len() > 0);
        if table[0].0 != other {
            assert(number_for(pushed, other) == number_for(pushed.drop_first(), other));
            assert(number_for(table, other) == number_for(table.drop_first(), other));
        }
    } else {
        assert(pushed.drop_first() =~= Seq::<(M, u32)>::empty());
        assert(pushed[0] == (metric, number));
        assert(pushed.len() > 0);
        assert(number_for(pushed.drop_first(), other) == 0);
        assert(number_for(table, other) == 0);
    }
}

/// Sets the number that `table` holds for `metric`.
fn set_number_for<LOS: RewritableLanguageOperatorSymbol, TSM: TermSymbolMetric<LOS>>(
    table: &mut Vec<(TSM, u32)>,
    metric: TSM,
    number: u32,
)
    ensures
        forall|other: TSM|
            #[trigger] number_for(final(table)@, other) == if other == metric {
                number as nat
            } else {
                number_for(old(table)@, other)
            },
        is_table(old(table)@) && number > 0 ==> is_table(final(table)@),
{
    let ghost before = table@;
    match get_number_for::<LOS, TSM>(table, &metric) {
        Some(index) => {
            table.set(index, (metric, number));
            proof {
                assert forall|other: TSM| #[trigger] number_for(table@, other) == if other == metric {
                    number as nat
                } else {
                    number_for(before, other)
                } by {
                    if other == metric {
                        lemma_number_for_first_entry(table@, metric, index as int);
                    } else {
                        lemma_number_for_other_metric(before, index as int, number, other);
                    }
                }
            }
        },
        None => {
            table.push((metric, number));
            proof {
                assert forall|other: TSM| #[trigger] number_for(table@, other) == if other == metric {
                    number as nat
                } else {
                    number_for(before, other)
                } by {
                    lemma_number_for_new_entry(before, metric, number, other);
                }
            }
        },
    }
}

/// A copy of `table`.
fn copy_table<LOS: RewritableLanguageOperatorSymbol, TSM: TermSymbolMetric<LOS>>(table: &Vec<(TSM, u32)>) -> (copy: Vec<
    (TSM, u32),
>)
    ensures
        copy@ == table@,
{
    let mut copy: Vec<(TSM, u32)> = Vec::new();
    let mut i: usize = 0;
    while i < table.len()
        invariant
            i <= table@.len(),
            copy@ == table@.take(i as int),
        decreases table@.len() - i,
    {
        let entry = table[i];
        copy.push((entry.0, entry.1));
        assert(table@.take(i + 1) =~= table@.take(i as int).push(table@[i as int]));
        i += 1;
    }
    assert(table@.take(i as int) =~= table@);
    copy
}

/// Adds 1 to the number that `table` holds for `metric`.
fn increment_number_for<LOS: RewritableLanguageOperatorSymbol, TSM: TermSymbolMetric<LOS>>(
    table: &mut Vec<(TSM, u32)>,
    metric: TSM,
)
    requires
        number_for(old(table)@, metric) < u32::MAX,
    ensures
        forall|other: TSM|
            #[trigger] number_for(final(table)@, other) == if other == metric {
                number_for(old(table)@, other) + 1
            } else {
                number_for(old(table)@, other)
            },
        is_table(old(table)@) ==> is_table(final(table)@),
{
    let number = match get_number_for::<LOS, TSM>(table, &metric) {
        Some(index) => table[index].1,
        None => 0,
    };
    set_number_for::<LOS, TSM>(table, metric, number + 1);
}

/// Raises the numbers that `table` holds to those that `other_table` holds,
/// where these are greater.
fn raise_numbers_to<LOS: RewritableLanguageOperatorSymbol, TSM: TermSymbolMetric<LOS>>(
    table: &mut Vec<(TSM, u32)>,
    other_table: &Vec<(TSM, u32)>,
)
    ensures
        forall|metric: TSM|
            #[trigger] number_for(final(table)@, metric) == greater_of(
                number_for(old(table)@, metric),
                number_for(other_table@, metric),
            ),
        is_table(old(table)@) ==> is_table(final(table)@),
{
    let ghost before = table@;
    let mut k: usize = 0;
    while k < other_table.len()
        invariant
            k <= other_table@.len(),
            is_table(before) ==> is_table(table@),
            forall|metric: TSM|
                #[trigger] number_for(table@, metric) == if exists|j: int| 0 <= j < k && other_table@[j].0 == metric {
                    greater_of(number_for(before, metric), number_for(other_table@, metric))
                } else {
                    number_for(before, metric)
                },
        decreases other_table@.len() - k,
    {
        let metric = other_table[k].0;
        let ghost so_far = table@;
        let theirs = match get_number_for::<LOS, TSM>(other_table, &metric) {
            Some(index) => other_table[index].1,
            None => 0,
        };
        let ours = match get_number_for::<LOS, TSM>(table, &metric) {
            Some(index) => table[index].1,
            None => 0,
        };
        if theirs > ours {
            set_number_for::<LOS, TSM>(table, metric, theirs);
        }
        proof {
            assert forall|other: TSM| #[trigger] number_for(table@, other) == if exists|j: int|
                0 <= j < k + 1 && other_table@[j].0 == other {
                greater_of(number_for(before, other), number_for(other_table@, other))
            } else {
                number_for(before, other)
            } by {
                let _ = number_for(so_far, other);
                if other == metric {
                    assert(0 <= k < k + 1 && other_table@[k as int].0 == other);
                } else {
                    if exists|j: int| 0 <= j < k + 1 && other_table@[j].0 == other {
                        let j = choose|j: int| 0 <= j < k + 1 && other_table@[j].0 == other;
                        assert(0 <= j < k && other_table@[j].0 == other);
                    }
                }
            }
        }
        k += 1;
    }
    proof {
        assert forall|metric: TSM| #[trigger] number_for(table@, metric) == greater_of(
            number_for(before, metric),
            number_for(other_table@, metric),
        ) by {
            if !(exists|j: int| 0 <= j < k && other_table@[j].0 == metric) {
                lemma_number_for_no_entry(other_table@, metric);
            }
        }
    }
}

/// The depth of a term among others is no greater than the greatest of
/// their depths.
proof fn lemma_depth_among<LOS>(terms: Seq<TermModel<LOS>>, i: int)
    requires
        0 <= i < terms.len(),
    ensures
        depth_of(terms[i]) <= greatest_depth_of(terms),
        greatest_depth_of(terms.take(i + 1)) == greater_of(greatest_depth_of(terms.take(i)), depth_of(terms[i])),
        greatest_depth_of(terms.take(i + 1)) <= greatest_depth_of(terms),
    decreases terms.len(),
{
    assert(terms.take(i + 1).drop_last() =~= terms.take(i));
    assert(terms.take(i + 1).last() == terms[i]);
    if i < terms.len() - 1 {
        lemma_depth_among(terms.drop_last(), i);
        assert(terms.drop_last().take(i + 1) =~= terms.take(i + 1));
        assert(terms.drop_last().take(i) =~= terms.take(i));
    } else {
        assert(terms.take(i + 1) =~= terms);
    }
}

/// The nested depth of a term among others is no greater than the greatest
/// of their nested depths.
proof fn lemma_nested_depth_among<LOS: RewritableLanguageOperatorSymbol, M: TermSymbolMetric<LOS>>(
    terms: Seq<TermModel<LOS>>,
    metric: M,
    i: int,
)
    requires
        0 <= i < terms.len(),
    ensures
        nested_depth_of(terms[i], metric) <= greatest_nested_depth_of(terms, metric),
        greatest_nested_depth_of(terms.take(i + 1), metric) == greater_of(
            greatest_nested_depth_of(terms.take(i), metric),
            nested_depth_of(terms[i], metric),
        ),
        greatest_nested_depth_of(terms.take(i + 1), metric) <= greatest_nested_depth_of(terms, metric),
    decreases terms.len(),
{
    assert(terms.take(i + 1).drop_last() =~= terms.take(i));
    assert(terms.take(i + 1).last() == terms[i]);
    if i < terms.len() - 1 {
        lemma_nested_depth_among::<LOS, M>(terms.drop_last(), metric, i);
        assert(terms.drop_last().take(i + 1) =~= terms.take(i + 1));
        assert(terms.drop_last().take(i) =~= terms.take(i));
    } else {
        assert(terms.take(i + 1) =~= terms);
    }
}

/// The occurrences in the first terms are among the occurrences in all of them.
proof fn lemma_occurrences_among<LOS: RewritableLanguageOperatorSymbol, M: TermSymbolMetric<LOS>>(
    terms: Seq<TermModel<LOS>>,
    metric: M,
    i: int,
)
    requires
        0 <= i < terms.len(),
    ensures
        occurrences_in(terms.take(i + 1), metric) == occurrences_in(terms.take(i), metric) + occurrences(
            terms[i],
            metric,
        ),
        occurrences_in(terms.take(i + 1), metric) <= occurrences_in(terms, metric),
    decreases terms.len(),
{
    assert(terms.take(i + 1).drop_last() =~= terms.take(i));
    assert(terms.take(i + 1).last() == terms[i]);
    if i < terms.len() - 1 {
        lemma_occurrences_among::<LOS, M>(terms.drop_last(), metric, i);
        assert(terms.drop_last().take(i + 1) =~= terms.take(i + 1));
        assert(terms.drop_last().take(i) =~= terms.take(i));
    } else {
        assert(terms.take(i + 1) =~= terms);
    }
}

/// The numbers of `term` fit the machine numbers that hold them, on top of
/// the `counted` occurrences and of the nested depths `above`, at the depth
/// `parent_depth`.
pub open spec fn metrics_fit<LOS: RewritableLanguageOperatorSymbol, TSM: TermSymbolMetric<LOS>>(
    term: TermModel<LOS>,
    counted: Seq<(TSM, u32)>,
    parent_depth: nat,
    above: Seq<(TSM, u32)>,
) -> bool {
    &&& parent_depth + depth_of(term) <= u32::MAX + 1
    &&& forall|metric: TSM| #[trigger] number_for(counted, metric) + occurrences(term, metric) <= u32::MAX
    &&& forall|metric: TSM| #[trigger] number_for(above, metric) + nested_depth_of(term, metric) <= u32::MAX
}

impl<LOS: RewritableLanguageOperatorSymbol, TSM: TermSymbolMetric<LOS>> TermMetrics<LOS, TSM> {
    /// The metrics of `term`: for each metric, the number of occurrences of
    /// operators that count for it; the depth of the term; and for each
    /// metric of which the nested depth is measured, the greatest number of
    /// occurrences that count for it on one way down the term.
    pub fn extract_from_term(term: &LanguageTerm<LOS>) -> (metrics: Self)
        requires
            metrics_fit::<LOS, TSM>(term@, Seq::empty(), 1, Seq::empty()),
        ensures
            metrics.term_depth == depth_of(term@),
            forall|metric: TSM| #[trigger] number_for(metrics.metrics_count@, metric) == occurrences(term@, metric),
            forall|metric: TSM|
                #[trigger] number_for(metrics.max_nested_metrics_depths@, metric) == nested_depth_of(term@, metric),
            is_table(metrics.metrics_count@),
            is_table(metrics.max_nested_metrics_depths@),
    {
        let mut metrics_count: Vec<(TSM, u32)> = Vec::new();
        let above: Vec<(TSM, u32)> = Vec::new();
        assert(metrics_count@ =~= Seq::empty());
        assert(above@ =~= Seq::empty());
        let (max_nested_metrics_depths, term_depth) = Self::extract_rec(term, &mut metrics_count, 1, &above);
        Self { phantom: core::marker::PhantomData, metrics_count, term_depth, max_nested_metrics_depths }
    }

    #[verifier::loop_isolation(false)]
    fn extract_rec(
        term: &LanguageTerm<LOS>,
        metrics_count: &mut Vec<(TSM, u32)>,
        parent_depth: u32,
        parent_nested_depths: &Vec<(TSM, u32)>,
    ) -> (extracted: (Vec<(TSM, u32)>, u32))
        requires
            metrics_fit(term@, old(metrics_count)@, parent_depth as nat, parent_nested_depths@),
        ensures
            is_table(old(metrics_count)@) ==> is_table(final(metrics_count)@),
            is_table(parent_nested_depths@) ==> is_table(extracted.0@),
            forall|metric: TSM|
                #[trigger] number_for(final(metrics_count)@, metric) == number_for(old(metrics_count)@, metric)
                    + occurrences(term@, metric),
            forall|metric: TSM|
                #[trigger] number_for(extracted.0@, metric) == number_for(parent_nested_depths@, metric)
                    + nested_depth_of(term@, metric),
            extracted.1 == parent_depth + depth_of(term@) - 1,
        decreases term,
    {
        let ghost counted = metrics_count@;
        let mut current_nested_depths = copy_table::<LOS, TSM>(parent_nested_depths);
        let metrics = TSM::from_operator_symbol(&term.operator);
        let mut j: usize = 0;
        while j < metrics.len()
            invariant
                j <= metrics@.len(),
                is_table(counted) ==> is_table(metrics_count@),
                is_table(parent_nested_depths@) ==> is_table(current_nested_depths@),
                forall|metric: TSM|
                    #[trigger] number_for(metrics_count@, metric) == number_for(counted, metric) + if metrics@.take(
                        j as int,
                    ).contains(metric) {
                        1nat
                    } else {
                        0nat
                    },
                forall|metric: TSM|
                    #[trigger] number_for(current_nested_depths@, metric) == number_for(parent_nested_depths@, metric)
                        + if metrics@.take(j as int).contains(metric) && metric.nested_depth_measured() {
                        1nat
                    } else {
                        0nat
                    },
            decreases metrics@.len() - j,
        {
            let metric = metrics[j];
            let ghost so_far = metrics_count@;
            let ghost nested_so_far = current_nested_depths@;
            proof {
                assert(metrics@.contains(metric));
                assert(counts_for::<LOS, TSM>(term@.operator, metric) == 1);
                assert(number_for(counted, metric) + occurrences(term@, metric) <= u32::MAX);
                assert(number_for(parent_nested_depths@, metric) + nested_depth_of(term@, metric) <= u32::MAX);
                assert(!metrics@.take(j as int).contains(metric)) by {
                    if metrics@.take(j as int).contains(metric) {
                        let k = choose|k: int| 0 <= k < j && metrics@.take(j as int)[k] == metric;
                        assert(metrics@[k] == metrics@[j as int]);
                    }
                }
                let _ = number_for(so_far, metric);
                let _ = number_for(nested_so_far, metric);
            }
            increment_number_for::<LOS, TSM>(metrics_count, metric);
            if metric.measure_nested_depth() {
                increment_number_for::<LOS, TSM>(&mut current_nested_depths, metric);
            }
            proof {
                assert(metrics@.take(j + 1) =~= metrics@.take(j as int).push(metric));
                assert forall|other: TSM| metrics@.take(j + 1).contains(other) == (metrics@.take(j as int).contains(other)
                    || other == metric) by {
                    if metrics@.take(j as int).contains(other) {
                        let k = choose|k: int| 0 <= k < j && metrics@.take(j as int)[k] == other;
                        assert(metrics@.take(j + 1)[k] == other);
                    }
                    if other == metric {
                        assert(metrics@.take(j + 1)[j as int] == other);
                    }
                }
                assert forall|other: TSM| #[trigger] number_for(metrics_count@, other) == number_for(counted, other)
                    + if metrics@.take(j + 1).contains(other) {
                    1nat
                } else {
                    0nat
                } by {
                    let _ = number_for(so_far, other);
                }
                assert forall|other: TSM| #[trigger] number_for(current_nested_depths@, other) == number_for(
                    parent_nested_depths@,
                    other,
                ) + if metrics@.take(j + 1).contains(other) && other.nested_depth_measured() {
                    1nat
                } else {
                    0nat
                } by {
                    let _ = number_for(nested_so_far, other);
                }
            }
            j += 1;
        }
        assert(metrics@.take(j as int) =~= metrics@);
        let ghost counted_here = metrics_count@;
        let mut max_depth = parent_depth;
        let mut max_nested_depths = copy_table::<LOS, TSM>(&current_nested_depths);
        let mut i: usize = 0;
        assert(term@.sub_terms.take(0) =~= Seq::empty());
        while i < term.sub_terms.len()
            invariant
                i <= term.sub_terms@.len(),
                is_table(counted) ==> is_table(metrics_count@),
                is_table(parent_nested_depths@) ==> is_table(max_nested_depths@),
                max_depth == parent_depth + greatest_depth_of(term@.sub_terms.take(i as int)),
                forall|metric: TSM|
                    #[trigger] number_for(metrics_count@, metric) == number_for(counted_here, metric) + occurrences_in(
                        term@.sub_terms.take(i as int),
                        metric,
                    ),
                forall|metric: TSM|
                    #[trigger] number_for(max_nested_depths@, metric) == number_for(current_nested_depths@, metric)
                        + greatest_nested_depth_of(term@.sub_terms.take(i as int), metric),
            decreases term.sub_terms@.len() - i,
        {
            let sub_term = &term.sub_terms[i];
            let ghost counted_so_far = metrics_count@;
            let ghost nested_so_far = max_nested_depths@;
            proof {
                assert(term@.sub_terms[i as int] == sub_term@);
                lemma_depth_among(term@.sub_terms, i as int);
                assert forall|metric: TSM| #[trigger] number_for(counted_so_far, metric) + occurrences(
                    sub_term@,
                    metric,
                ) <= u32::MAX by {
                    lemma_occurrences_among::<LOS, TSM>(term@.sub_terms, metric, i as int);
                    let _ = number_for(counted_here, metric);
                    assert(number_for(counted, metric) + occurrences(term@, metric) <= u32::MAX);
                }
                assert forall|metric: TSM| #[trigger] number_for(current_nested_depths@, metric) + nested_depth_of(
                    sub_term@,
                    metric,
                ) <= u32::MAX by {
                    lemma_nested_depth_among::<LOS, TSM>(term@.sub_terms, metric, i as int);
                    assert(number_for(parent_nested_depths@, metric) + nested_depth_of(term@, metric) <= u32::MAX);
                }
            }
            let (child_max_nested_depths, child_max_depth) = Self::extract_rec(
                sub_term,
                metrics_count,
                parent_depth + 1,
                &current_nested_depths,
            );
            if child_max_depth > max_depth {
                max_depth = child_max_depth;
            }
            raise_numbers_to::<LOS, TSM>(&mut max_nested_depths, &child_max_nested_depths);
            proof {
                assert forall|metric: TSM| #[trigger] number_for(metrics_count@, metric) == number_for(
                    counted_here,
                    metric,
                ) + occurrences_in(term@.sub_terms.take(i + 1), metric) by {
                    lemma_occurrences_among::<LOS, TSM>(term@.sub_terms, metric, i as int);
                    let _ = number_for(counted_so_far, metric);
                }
                assert forall|metric: TSM| #[trigger] number_for(max_nested_depths@, metric) == number_for(
                    current_nested_depths@,
                    metric,
                ) + greatest_nested_depth_of(term@.sub_terms.take(i + 1), metric) by {
                    lemma_nested_depth_among::<LOS, TSM>(term@.sub_terms, metric, i as int);
                    let _ = number_for(nested_so_far, metric);
                    let _ = number_for(child_max_nested_depths@, metric);
                }
            }
            i += 1;
        }
        assert(term@.sub_terms.take(i as int) =~= term@.sub_terms);
        proof {
            assert forall|metric: TSM| #[trigger] number_for(metrics_count@, metric) == number_for(counted, metric)
                + occurrences(term@, metric) by {
                let _ = number_for(counted_here, metric);
            }
            assert forall|metric: TSM| #[trigger] number_for(max_nested_depths@, metric) == number_for(
                parent_nested_depths@,
                metric,
            ) + nested_depth_of(term@, metric) by {
                let _ = number_for(current_nested_depths@, metric);
            }
        }
        (max_nested_depths, max_depth)
    }
}

/// No number of a term is greater than the number of its nodes.
proof fn lemma_numbers_are_within_the_size<LOS: RewritableLanguageOperatorSymbol, M: TermSymbolMetric<LOS>>(
    term: TermModel<LOS>,
    metric: M,
)
    ensures
        depth_of(term) <= term_size(term),
        occurrences(term, metric) <= term_size(term),
        nested_depth_of(term, metric) <= term_size(term),
    decreases term,
{
    lemma_numbers_are_within_the_sizes::<LOS, M>(term.sub_terms, metric);
}

/// No number of terms is greater than the number of their nodes.
proof fn lemma_numbers_are_within_the_sizes<LOS: RewritableLanguageOperatorSymbol, M: TermSymbolMetric<LOS>>(
    terms: Seq<TermModel<LOS>>,
    metric: M,
)
    ensures
        greatest_depth_of(terms) <= terms_size(terms),
        occurrences_in(terms, metric) <= terms_size(terms),
        greatest_nested_depth_of(terms, metric) <= terms_size(terms),
    decreases terms,
{
    if terms.len() > 0 {
        lemma_numbers_are_within_the_sizes::<LOS, M>(terms.drop_last(), metric);
        lemma_numbers_are_within_the_size::<LOS, M>(terms.last(), metric);
    }
}

/// The number of nodes of `term`, where a machine number holds it.
pub fn count_nodes<LOS: RewritableLanguageOperatorSymbol>(term: &LanguageTerm<LOS>) -> (count: Option<u32>)
    ensures
        match count {
            Some(nodes) => nodes == term_size(term@),
            None => term_size(term@) > u32::MAX,
        },
    decreases term,
{
    let mut count: u32 = 1;
    let mut i: usize = 0;
    assert(term@.sub_terms.take(0) =~= Seq::empty());
    while i < term.sub_terms.len()
        invariant
            i <= term.sub_terms@.len(),
            count == 1 + terms_size(term@.sub_terms.take(i as int)),
        decreases term.sub_terms@.len() - i,
    {
        proof {
            assert(term@.sub_terms.take(i + 1).drop_last() =~= term@.sub_terms.take(i as int));
            assert(term@.sub_terms.take(i + 1).last() == term.sub_terms@[i as int]@);
            lemma_size_of_the_first(term@.sub_terms, i + 1);
        }
        match count_nodes(&term.sub_terms[i]) {
            None => {
                return None;
            },
            Some(nodes) => {
                match count.checked_add(nodes) {
                    None => {
                        return None;
                    },
                    Some(sum) => {
                        count = sum;
                    },
                }
            },
        }
        i += 1;
    }
    assert(term@.sub_terms.take(i as int) =~= term@.sub_terms);
    Some(count)
}

/// The first terms have no more nodes than all of them.
proof fn lemma_size_of_the_first<LOS>(terms: Seq<TermModel<LOS>>, upto: int)
    requires
        0 <= upto <= terms.len(),
    ensures
        terms_size(terms.take(upto)) <= terms_size(terms),
    decreases terms.len(),
{
    if upto < terms.len() {
        lemma_size_of_the_first(terms.drop_last(), upto);
        assert(terms.drop_last().take(upto) =~= terms.take(upto));
    } else {
        assert(terms.take(upto) =~= terms);
    }
}

impl<LOS: RewritableLanguageOperatorSymbol, TSM: TermSymbolMetric<LOS>> TermMetrics<LOS, TSM> {
    /// The metrics of `term`, where `term` has few enough nodes for machine
    /// numbers to hold them; `None` where it has more.
    pub fn try_extract_from_term(term: &LanguageTerm<LOS>) -> (metrics: Option<Self>)
        ensures
            metrics.is_some() == (term_size(term@) <= u32::MAX),
            metrics matches Some(extracted) ==> {
                &&& extracted.term_depth == depth_of(term@)
                &&& forall|metric: TSM|
                    #[trigger] number_for(extracted.metrics_count@, metric) == occurrences(term@, metric)
                &&& forall|metric: TSM|
                    #[trigger] number_for(extracted.max_nested_metrics_depths@, metric) == nested_depth_of(
                        term@,
                        metric,
                    )
            &&& is_table(extracted.metrics_count@)
            &&& is_table(extracted.max_nested_metrics_depths@)
            },
    {
        match count_nodes(term) {
            None => None,
            Some(_) => {
                proof {
                    let nothing = Seq::<(TSM, u32)>::empty();
                    assert forall|metric: TSM| #[trigger] number_for(nothing, metric) + occurrences(term@, metric)
                        <= u32::MAX by {
                        lemma_numbers_are_within_the_size::<LOS, TSM>(term@, metric);
                    }
                    assert forall|metric: TSM| #[trigger] number_for(nothing, metric) + nested_depth_of(term@, metric)
                        <= u32::MAX by {
                        lemma_numbers_are_within_the_size::<LOS, TSM>(term@, metric);
                    }
                    assert(depth_of(term@) <= term_size(term@)) by {
                        let witness: TSM = arbitrary();
                        lemma_numbers_are_within_the_size::<LOS, TSM>(term@, witness);
                    }
                }
                Some(Self::extract_from_term(term))
            },
        }
    }
}

} // verus!
