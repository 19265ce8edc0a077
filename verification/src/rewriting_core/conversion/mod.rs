pub mod from_rewritable_term;
pub mod to_rewritable_term;
