//! Canonical reconciliation of coding-agent session logs.
//!
//! Two backends ("codex" and "claude_code") persist conversations as
//! line-delimited JSON logs with their own schemas.  This crate owns the
//! canonical session model those logs are reconciled into: the event total
//! order, the adapters' line-level import and export, the structural overlay
//! that preserves unknown vendor fields, the per-repository store layout, and
//! the synchronizer's merge and identity-resolution rules.
//!
//! All file and process handling lives outside this crate; every function
//! here is a total function from plain values to plain values.

pub mod adapter;
pub mod claude;
pub mod clock;
pub mod codec;
pub mod codex;
pub mod ids;
pub mod json;
pub mod jsontext;
pub mod materialize;
pub mod model;
pub mod resume;
pub mod store;
pub mod strutil;
pub mod sync;
