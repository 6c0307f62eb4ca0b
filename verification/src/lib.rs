//! Core logic of a coverage-guided fuzzer for Move bytecode modules.
//!
//! The library owns the parts of the fuzzer that are pure computation: the
//! concolic shadow interpreter and its issue detectors, the integer-only
//! emulation of bitwise operators over symbolic terms, the edge-coverage
//! signal, the path-level deduplication and objective checks, the session
//! state with its corpus and solutions, and the mutator that grows candidate
//! transactions.  The virtual machine, the module loader and the sequence
//! compiler are outside collaborators; they hand this library plain values
//! and take plain values back.

pub mod analysis;
pub mod bitwise;
pub mod codec;
pub mod concolic;
pub mod coverage;
pub mod mutator;
pub mod objective;
pub mod rng;
pub mod script_sequence;
pub mod state;
pub mod term;
pub mod u256;
pub mod values;

pub use concolic::{RuntimeIssue, RuntimeIssueKind, SymbolicMoveTracer};
pub use coverage::MAP_SIZE;
pub use mutator::AptosFuzzerMutator;
pub use objective::{AbortCodeObjective, ShiftOverflowObjective};
pub use state::{AptosFuzzerInput, AptosFuzzerState};
