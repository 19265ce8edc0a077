pub mod position;
pub mod term;
