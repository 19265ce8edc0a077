use simple_term_rewriter::metrics::{count_nodes, TermMetrics, TermSymbolMetric};
use simple_term_rewriter::rewriting_core::terms::term::{LanguageTerm, RewritableLanguageOperatorSymbol};

#[derive(Clone, Copy, PartialEq, Eq, Hash, Debug)]
enum Op {
    X,
    Loop,
    Then,
    Alt,
}

impl RewritableLanguageOperatorSymbol for Op {
    fn symbol_laws() {}
}

#[derive(Clone, Copy, PartialEq, Eq, PartialOrd, Ord, Hash, Debug)]
enum Metric {
    Operators,
    Loops,
    Choices,
}

impl TermSymbolMetric<Op> for Metric {
    fn metric_laws() {}

    fn measure_nested_depth(&self) -> bool {
        matches!(self, Metric::Loops)
    }

    fn from_operator_symbol(op: &Op) -> Vec<Self> {
        match op {
            Op::X => vec![],
            Op::Loop => vec![Metric::Operators, Metric::Loops],
            Op::Then => vec![Metric::Operators],
            Op::Alt => vec![Metric::Operators, Metric::Choices],
        }
    }
}

fn x() -> LanguageTerm<Op> {
    LanguageTerm::new(Op::X, vec![])
}

fn looped(t: LanguageTerm<Op>) -> LanguageTerm<Op> {
    LanguageTerm::new(Op::Loop, vec![t])
}

fn number(table: &[(Metric, u32)], metric: Metric) -> u32 {
    table.iter().find(|entry| entry.0 == metric).map(|entry| entry.1).unwrap_or(0)
}

#[test]
fn metrics_of_a_term() {
    // Then(Loop(Alt(Loop(X), X)), Loop(X))
    let term = LanguageTerm::new(
        Op::Then,
        vec![looped(LanguageTerm::new(Op::Alt, vec![looped(x()), x()])), looped(x())],
    );
    let metrics: TermMetrics<Op, Metric> = TermMetrics::extract_from_term(&term);
    assert_eq!(metrics.term_depth, 5);
    assert_eq!(number(&metrics.metrics_count, Metric::Operators), 5);
    assert_eq!(number(&metrics.metrics_count, Metric::Loops), 3);
    assert_eq!(number(&metrics.metrics_count, Metric::Choices), 1);
    assert_eq!(metrics.metrics_count.len(), 3);
    // two loops are nested on the way down the first sub-term
    assert_eq!(number(&metrics.max_nested_metrics_depths, Metric::Loops), 2);
    // only the nested depth of the loops is measured
    assert_eq!(number(&metrics.max_nested_metrics_depths, Metric::Operators), 0);
    assert_eq!(metrics.max_nested_metrics_depths.len(), 1);
    assert_eq!(count_nodes(&term), Some(8));
}

#[test]
fn metrics_of_a_constant() {
    let metrics: TermMetrics<Op, Metric> = TermMetrics::try_extract_from_term(&x()).unwrap();
    assert_eq!(metrics.term_depth, 1);
    assert!(metrics.metrics_count.is_empty());
    assert!(metrics.max_nested_metrics_depths.is_empty());
}
