//! A generic term rewriting engine: terms are trees of operator symbols, rewrite
//! rules are applied at every position of a term, and a library of structural
//! rules covers the usual equational theories (associativity, commutativity,
//! idempotence, neutral elements, distributivity).
//!
//! Every executable function carries a contract over the mathematical model of
//! its arguments ([`rewriting_core::terms::term::TermModel`] for terms, a sequence of child
//! indices for positions).

pub mod rewriting_core;
pub mod builtin_trs;
pub mod rewriting_process;
pub mod metrics;
pub mod process;
