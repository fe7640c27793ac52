pub mod rebase;
pub mod ai;
pub mod repo;
pub mod actions;
pub mod ops;
pub mod graph;
pub mod status;
pub mod diff;
pub mod refs;
