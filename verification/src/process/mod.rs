pub mod context;
pub mod handler;
pub mod node;
pub mod priorities;
pub mod state;
pub mod step;
pub mod verdict;
