//! Incremental analysis of a source tree.
//!
//! A run walks a project, counts and fingerprints each file, and decides
//! against the stored snapshot of the last run which files keep their
//! analysis and which have to be analyzed anew, or whether the snapshot is
//! started over because the revisions it covers are no unbroken run of the
//! project's history. The library computes and decides; reading files, asking
//! version control and calling the analysis service are left to the caller.
//!
//! - [`analysis`]: line counts and the fingerprint of a text
//! - [`history`]: covered revisions and their contiguity
//! - [`merge`]: the engine that reconciles a walk with a stored snapshot
//! - [`markdown`]: the report
//! - [`models`]: the data and its model
//! - [`openai`]: requests to the analysis service and the cleaning of replies
//! - [`config`], [`cli`], [`walk`], [`utils`]: settings, commands, walk
//!   filters, retry rule
//! - [`text`], [`digest`]: characters, lines, digests

pub mod analysis;
pub mod cli;
pub mod config;
pub mod digest;
pub mod history;
pub mod markdown;
pub mod merge;
pub mod models;
pub mod openai;
pub mod text;
pub mod utils;
pub mod walk;
