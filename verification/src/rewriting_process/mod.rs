pub mod context;
pub mod filter;
pub mod filtration;
pub mod handler;
pub mod node;
pub mod priorities;
pub mod state;
pub mod step;
pub mod term_set;
