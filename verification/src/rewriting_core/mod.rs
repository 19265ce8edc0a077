pub mod apply;
pub mod conversion;
pub mod model;
pub mod predicate;
pub mod rule;
pub mod terms;
