pub mod config;
pub mod discover;
pub mod error;
pub mod git;
pub mod order;
pub mod reconcile;
pub mod sync;
