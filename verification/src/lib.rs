//! Agent Loop: webhook subscriptions forwarded to a coding agent.
//!
//! This crate holds the decision logic of the agent loop: event stream
//! parsing, event filtering policies, prompt building, bridge protocol
//! decisions, configuration validation and result formatting.
pub mod text;
pub mod frame;
pub mod json;
pub mod json_write;
pub mod security;
pub mod sse;
pub mod conn;
pub mod bridge;
pub mod config;
pub mod report;
pub mod event_log;
pub mod ws;
pub mod mention;
pub mod service;
pub mod event;
pub mod filter;
pub mod protocol;
pub mod client;
pub mod exec;
pub mod reporter;
pub mod gui;
