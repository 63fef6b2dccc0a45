//! Verified core of a personal repository-backup tool.
//!
//! The library computes everything the backup run decides or derives:
//! archive-URL template substitution, listing-request URLs, repository
//! identifiers and file names, request headers, credential resolution,
//! and the pagination policy. All network and filesystem work stays with
//! the caller, which hands plain values in and takes plain values back.

pub mod config;
pub mod headers;
pub mod listing;
pub mod naming;
pub mod pager;
pub mod text;
