//! Optimizers: they read a program and write back a better one.
pub mod bootstrap;
pub mod copro;
pub mod draw;
pub mod earned;
pub mod ensemble;
pub mod gepa;
pub mod infer_rules;
pub mod labeled;
pub mod leader;
pub mod mipro;
pub mod optuna;
pub mod random_search;
pub mod ranking;
pub mod scoring;
