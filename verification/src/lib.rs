//! Core of a Python project/environment manager: the lock-file data model
//! (content hashes, package indexes, package specifiers, and the dependency
//! graph), the two-phase graph builder that turns a lock document into a
//! validated graph, and the synchronizer logic that decides which packages a
//! requested combination of sections needs and how each one is installed.
//!
//! Everything that computes or decides lives here, verified.  Reading lock
//! files from disk, invoking an interpreter to evaluate environment markers,
//! and running the installer are left to unverified callers, which feed the
//! results back in as plain values.

pub mod strutil;

pub mod hashes;

pub mod urls;

pub mod sources;

pub mod pypackages;

pub mod deps;

pub mod locks;

pub mod sync;

pub mod entrypoints;

pub mod pythons;

pub mod projects;
