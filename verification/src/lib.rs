//! Single-run orchestration of tracker tasks for an external coding agent.
pub mod adapters;
pub mod config;
pub mod contracts;
pub mod error;
pub mod evaluator;
pub mod json;
pub mod loop_runner;
pub mod text;
