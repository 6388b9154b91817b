//! Bus-mapping builder: replays a per-instruction execution trace from an
//! external virtual-machine debugger and re-derives, instruction by
//! instruction, the typed sequence of read and write accesses the
//! instruction performed on every piece of mutable state it touched.
//!
//! The reconstructed operation log is the witness a proof circuit consumes;
//! the builder therefore guarantees the invariants the circuit relies on:
//! one contiguous block-wide sequence-number space, read-after-write
//! consistency per resource key, and well-nested call-frame bookkeeping.

pub mod access_log;
pub mod circuit_input_builder;
pub mod error;
pub mod laws;
pub mod opcodes;
pub mod operation;
pub mod trace;
pub mod word;

pub use word::Address;
pub use word::Word;
