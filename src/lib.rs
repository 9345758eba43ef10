pub mod classifier;
pub mod conversation;
pub mod plan;
pub mod executor;
pub mod orchestrator;
pub mod audit;
