//! Verified core of a command-line client for a hosted note service.
//!
//! The library owns everything that can be stated and proved: the note
//! data model, the store-file text format with a proved load/save round
//! trip, prefix-based id resolution, the collection edits that `add` and
//! `delete` perform, and the plain-text listing layout. File and network
//! I/O, argument parsing and colorized output live outside, in a thin
//! unverified shell that exchanges plain values with this crate.

pub mod codec;
pub mod errors;
pub mod listing;
pub mod notes;
pub mod ops;
pub mod resolver;
pub mod text;
