//! The session manager of the Catenary daemon.
//!
//! The daemon serves workspace roots to many sessions at once. Contributors
//! declare roots ([`tracker`], [`contributor`]); activity mounts further ones for
//! a while ([`ephemeral`], [`mounts`]); worktrees of agents come and go
//! ([`worktree`], [`registry`]). Hooks and commands arrive as JSON lines
//! ([`json`], [`payload`]) and are carried out and answered ([`hook`],
//! [`dispatch`], [`permission`], [`diagnose`], [`claim`]). [`daemon`] holds the
//! life of the daemon itself, [`tenacity`] and [`proxy`] that of the bridges which
//! connect hosts to it. What holds across operations is stated in [`laws`], and what a
//! caller can rely on in [`root_laws`], [`session_laws`], [`worktree_laws`],
//! [`mount_laws`], [`lifetime_laws`], [`run_laws`], [`request_laws`],
//! [`service_laws`] and [`bridge_laws`].
//!
//! Time, the file system, git and the sockets are arguments here: a caller looks,
//! hands over what it saw, and does what it is told.

pub mod boards;
pub mod bridge_laws;
pub mod claim;
pub mod clock;
pub mod contributor;
pub mod daemon;
pub mod diagnose;
pub mod dispatch;
pub mod ephemeral;
pub mod handoff;
pub mod hook;
pub mod json;
pub mod laws;
pub mod ledger;
pub mod lifetime_laws;
pub mod mount_laws;
pub mod mounts;
pub mod order;
pub mod path;
pub mod payload;
pub mod permission;
pub mod proxy;
pub mod registry;
pub mod request_laws;
pub mod root_laws;
pub mod run_laws;
pub mod service_laws;
pub mod session_laws;
pub mod subagents;
pub mod table;
pub mod tenacity;
pub mod text;
pub mod tracker;
pub mod words;
pub mod worktree;
pub mod worktree_laws;
