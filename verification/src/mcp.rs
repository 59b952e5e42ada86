//! Commands as tools of the Model Context Protocol (MCP).

pub mod calls;
pub mod filter;
pub mod pointer;
pub mod protocol;
pub mod remote;
pub mod results;
pub mod server;
pub mod tools;
