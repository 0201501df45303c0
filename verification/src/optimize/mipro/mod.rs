//! Proposing instructions and demos for every predictor, and searching the combinations.
pub mod dataset_summary;
pub mod demos;
pub mod grounded;
pub mod minibatch;
pub mod plan;
pub mod proposer;
pub mod search;
pub mod settings;
pub mod space;
