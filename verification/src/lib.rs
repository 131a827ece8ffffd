//! The decisions behind proving blocks: checking a block against its ancestors
//! before it is executed, and folding block proofs into one running aggregate.

pub mod aggregation;
pub mod aggregator;
pub mod ancestors;
pub mod db;
pub mod execution;
pub mod guest;
pub mod hash;
pub mod header;
pub mod host_executor;
pub mod loading;
pub mod pipeline;
pub mod preparer;
pub mod status;
pub mod zk;
