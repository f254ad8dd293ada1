//! Persistent state of a ledger validator: versioned objects, certificates,
//! execution effects and the consensus-ordering metadata that lets a
//! validator assign shared-object versions deterministically and recover
//! safely after a crash.
//!
//! Every table is an append-ordered log whose latest entry for a key is the
//! current value, which is how a key-value engine's `put` behaves.
use vstd::prelude::*;

pub mod current;
pub mod dump;
pub mod epoch;
pub mod perpetual;
pub mod table;
pub mod types;
