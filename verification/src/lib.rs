//! Verified core of `agentic_ssh`: configuration rules, host resolution,
//! command templating and the text parsers behind the MCP tools.

pub mod access;
pub mod agents;
pub mod cli;
pub mod commands;
pub mod config;
pub mod custom;
pub mod errors;
pub mod hosts;
pub mod json;
pub mod output;
pub mod outside;
pub mod parsers;
pub mod paths;
pub mod pool;
pub mod rpc;
pub mod search;
pub mod security;
pub mod sizes;
pub mod sshconf;
pub mod sshhost;
pub mod strmap;
pub mod template;
pub mod text;
pub mod update;
pub mod watch;
