pub mod contract;
pub mod engine;
pub mod error;
pub mod graph;
pub mod harness;
pub mod protocol;
pub mod records;
pub mod types;
