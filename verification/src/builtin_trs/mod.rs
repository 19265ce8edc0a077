pub mod builtin_transfo;
pub mod builtin_transfo_kind;
pub mod factorization_soundness;
pub mod interface;
pub mod rules;
pub mod soundness;
pub mod util;
