//! Chump: the decision and formatting logic of a tool-using chat agent.
pub mod text;
pub mod json;
pub mod memory;
pub mod log;
pub mod cli;
pub mod paths;
pub mod limits;
pub mod github;
pub mod gh;
pub mod task;
pub mod schedule;
pub mod rfc3339;
pub mod state;
pub mod episode;
pub mod tavily;
pub mod delegate;
pub mod brain;
pub mod notify;
pub mod order;
pub mod repo_tools;
pub mod memory_db;
pub mod calc;
pub mod diff_review;
pub mod provider;
pub mod soul;
pub mod turn;
pub mod health;
