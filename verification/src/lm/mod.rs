//! Talking to language models: what a request carries, and what a run of requests costs.
pub mod token_limit;
pub mod turn;
pub mod usage;
