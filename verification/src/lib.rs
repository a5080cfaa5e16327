//! Verified core of a local multi-agent coding daemon.

pub mod anthropic;
pub mod api;
pub mod cli;
pub mod config;
pub mod forgeloop_bridge;
pub mod fs_tools;
pub mod gateway;
pub mod jail;
pub mod json;
pub mod ledger;
pub mod orchestrator;
pub mod policy;
pub mod shadow;
pub mod sse;
pub mod state;
pub mod table;
pub mod terminal;
pub mod text;
pub mod turn;
pub mod worktree;
