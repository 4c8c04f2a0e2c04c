//! A gathering place for agent sessions: each session registers under a label,
//! and messages are routed to one label or broadcast to every session.
//!
//! The library holds the rules of the salon: who is registered, how a target
//! is resolved, how a delivery proceeds from probe to send, what is stored,
//! and how stored messages are listed and rendered. Sockets, the database and
//! the clock's side effects are left to the program around it.
use vstd::prelude::*;

pub mod admin;
pub mod config;
pub mod db;
pub mod delivery;
pub mod html;
pub mod http;
pub mod ids;
pub mod json;
pub mod jsonl;
pub mod log;
pub mod mcp;
pub mod metrics;
pub mod store;
pub mod text;
pub mod time;

verus! {

} // verus!
