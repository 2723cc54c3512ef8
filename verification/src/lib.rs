//! Layout planner for herdr workspaces.

pub mod backend;
pub mod cli;
pub mod config;
pub mod engine;
pub mod env;
pub mod includes;
pub mod json;
pub mod laws;
pub mod path;
pub mod shell;
pub mod text;
pub mod validate;
