//! LunarZero.
pub mod auth;
pub mod config;
pub mod double;
pub mod edit;
pub mod engine;
pub mod index;
pub mod intake;
pub mod json;
pub mod laws;
pub mod lsp;
pub mod mcp_install;
pub mod panels;
pub mod path;
pub mod paths;
pub mod permission;
pub mod pool;
pub mod provider;
pub mod router;
pub mod routing;
pub mod run_loop;
pub mod runner;
pub mod session;
pub mod shared;
pub mod sort;
pub mod symbols;
pub mod table;
pub mod task;
pub mod text;
pub mod title;
pub mod usage;
pub mod web;
pub mod wildcard;
