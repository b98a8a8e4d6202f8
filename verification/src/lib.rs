//! A download broker: nothing reaches the user's Downloads folder until it has
//! been scanned and cleared.
//!
//! The browser writes a download into a quarantine directory. While it arrives,
//! `watcher` scans it span by span, and stops it as soon as its risk crosses
//! the block threshold. Once it is complete, `scanner` analyses the whole of
//! it, `risk` decides, and `session` says what becomes of the file and what is
//! answered. `release` and `quarantine` find the names under which files may
//! stand, `ipc` frames the messages.
//!
//! Risks are integers: `numbers::RISK_ONE` stands for certainty. Nothing here
//! reads a file, a clock or a pipe; the caller does, and hands over what it
//! got.
use vstd::prelude::*;

pub mod bytes;
pub mod config;
pub mod identifiers;
pub mod ipc;
pub mod json;
pub mod numbers;
pub mod quarantine;
pub mod release;
pub mod risk;
pub mod sandbox;
pub mod scanner;
pub mod sequences;
pub mod session;
pub mod sieve;
pub mod text;
pub mod watcher;

verus! {

} // verus!
