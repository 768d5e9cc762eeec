//! Project memory: conventions, patterns, decisions, preferences and context
//! that a project keeps for the people and agents working on it.

pub mod text;
pub mod types;
pub mod runtime;
pub mod store;
pub mod markdown;
pub mod validation;
pub mod census;
pub mod calendar;
pub mod analytics;
pub mod encryption;
pub mod context;
pub mod templates;
pub mod config;
pub mod plugin;
pub mod webhook;
pub mod graph_query;
pub mod cli_ux;
pub mod like;
pub mod sync;
pub mod search_v2;
pub mod snapshot;
pub mod duplicates;
pub mod code_import;
pub mod migration;
pub mod suggestions;
pub mod export;
pub mod git;
pub mod watch;
pub mod ids;
pub mod browse;
pub mod commands;
pub mod dashboard;
pub mod mcp_tools;
pub mod hooks;
pub mod highlight;
pub mod backups;
