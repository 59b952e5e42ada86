//! Verified core of a command-line framework whose commands are also served
//! as HTTP routes and MCP tools.

pub mod agent_plugin;
pub mod agent_plugin_runtime;
pub mod agent_plugin_sse;
pub mod address;
pub mod agents;
pub mod cli;
pub mod command;
pub mod completions;
pub mod config;
pub mod fetch;
pub mod filter;
pub mod headers;
pub mod help;
pub mod http;
pub mod json;
pub mod mcp;
pub mod output;
pub mod schema;
pub mod skill;
pub mod table;
pub mod text;
pub mod value;
