//! Versioned state storage for a blockchain execution node.
//!
//! The crate is organised in layers, leaves first:
//!
//! - [`felt`]: the 32-byte field elements used for addresses, storage keys
//!   and class hashes.
//! - [`assoc`]: sequences holding at most one entry per key, the shape of
//!   every table's model.
//! - [`codec`]: the fixed-width, order-preserving `encode`/`decode` pair and
//!   the variable-width `compress`/`decompress` pair, together with the
//!   order-preservation and round-trip lemmas.
//! - [`tables`]: the table schema registry and the change-list value type
//!   stored in the dup-sorted change-set table.
//! - [`store`]: the change-set tracker (the write path), the historical
//!   query engine (the read path), and the snapshot model that gives
//!   atomic commits and isolated read transactions.
//! - [`genesis`]: the builder that validates and assembles the initial
//!   state written at the genesis block.

pub mod assoc;
pub mod codec;
pub mod felt;
pub mod genesis;
pub mod store;
pub mod tables;
