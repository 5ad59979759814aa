//! Verified core of a dotfile synchronisation tool.
//!
//! Entries group tracked files under a common base directory; the tracked
//! copies live in a version-controlled directory and are linked back to where
//! the files came from.  This crate holds the decisions: how paths are
//! normalised, which files an ingestion takes, which links a deployment
//! creates or removes, and how local history is reconciled with the remote.
//! Every effect on the outside world is described by a value that the caller
//! carries out.

pub mod commands;
pub mod config;
pub mod deployment;
pub mod error;
pub mod fsmodel;
pub mod git;
pub mod github;
pub mod ingest;
pub mod path;
pub mod show;
pub mod text;
