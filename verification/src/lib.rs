//! Core of a minimal package-manager client.
//!
//! Given a manifest of direct dependencies (name and semantic-version range),
//! the library resolves each to a concrete published version, checks artifact
//! bytes against a cryptographic integrity digest, decides the on-disk
//! placement of every package in a strictly nested tree, and maintains a lock
//! model so that later runs are reproducible until the manifest changes.
//!
//! All I/O (network fetches, archive extraction, reading and writing files)
//! is left to the caller: the reconciliation engine hands out actions and the
//! caller feeds the outcomes back in.

pub mod digest;
pub mod engine;
pub mod lock;
pub mod resolve;
pub mod semver_ops;
