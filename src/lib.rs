pub mod models;
pub mod cache;
pub mod search;
pub mod pass_cli;
pub mod selection;
