//! codex_switch: the verified core of a tool that runs a second Codex app
//! instance on another model provider and hands conversations over to it.

pub mod text;
pub mod appserver;
pub mod catalog;
pub mod config;
pub mod handoff;
pub mod json;
pub mod paths;
pub mod projects;
pub mod rollout;
pub mod setup;
pub mod sidecar;
pub mod ui;
pub mod threads;
pub mod windows;
