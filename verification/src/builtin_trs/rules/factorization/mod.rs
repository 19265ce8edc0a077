pub mod defactorize;
pub mod distributivity_checker;
pub mod factorize_modulo_ac;
pub mod factorize_simple;
