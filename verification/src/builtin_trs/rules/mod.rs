pub mod factorization;
pub mod flush;
pub mod simpl_binary;
pub mod simpl_unary;
pub mod reorder_commute;
pub mod modulo_ac_reorderer;
pub mod modulo_associative_flattened_transfo;
pub mod binary_idempotence;
pub mod defactorize;
pub mod simpl_neutral_elements;
pub mod unary_composition;
pub mod order_stability;
