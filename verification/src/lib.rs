//! Verified decision core of the Star-Control controller and CLI: Codex
//! lifecycle projection, durable Operation and approval state, hook
//! command screening, local and Controller command parsing, paged
//! listings, tool schema resolution and validation, autostart ownership
//! and Authenticode policy decisions.

pub mod autostart;
pub mod text;
pub mod json;
pub mod keyed;
pub mod lifecycle;
pub mod operation_store;
pub mod winpath;
pub mod shell;
pub mod hook;
pub mod hook_reply;
pub mod listing;
pub mod post_tool;
pub mod cli;
pub mod local_options;
pub mod authenticode;
pub mod concurrency_gate;
pub mod schema;
pub mod pagination;
pub mod digest;
pub mod approval_store;
pub mod local_command;
pub mod schema_resolver;
pub mod controller_cli;
