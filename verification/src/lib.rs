//! Ingestion and reconciliation of proof-of-coverage reports.
//!
//! A decoded report is turned into three kinds of documents: one beacon,
//! one hotspot per participating device and one edge per beacon/witness
//! pairing. The documents are merged into a store by rules that give the
//! same result whatever the order of arrival and however often a report is
//! delivered. Around that, a scheduler selects the report files of a time
//! window, bounds how many are open at once and computes the time from
//! which the next run resumes.
//!
//! Everything in this crate is plain data in, plain data out: reading the
//! clock, the file feed and the store is left to the caller.

pub mod document;
pub mod handler;
pub mod settings;
pub mod text;
pub mod tracker;

use vstd::prelude::*;

verus! {

/// Number of workers that load report files.
pub const LOADER_WORKERS: usize = 16;

/// The mode in which the pipeline runs.
#[derive(Debug, Clone, Copy, PartialEq, Eq, Structural)]
pub enum Mode {
    /// Over the files between two times, each in milliseconds since the
    /// Unix epoch.
    Historical(i64, i64),
}

} // verus!
