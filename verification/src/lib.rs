//! A verified core for a local Haxe toolchain version manager.
//!
//! The store keeps a ledger of installed versions, a pointer to the one
//! currently active, and the set of symlinks that expose the active
//! version's tools. All decisions are made here, over an in-memory model;
//! the surrounding binary performs the filesystem work those decisions
//! call for.
pub mod error;
pub mod files;
pub mod ledger;
pub mod links;
pub mod platform;
pub mod rc;
pub mod store;
pub mod text;
