//! Decoding of a node's compact UTXO-set snapshot into sorted row groups.
//!
//! A snapshot is a header followed by coins, grouped by the transaction that
//! created them. Each coin is stored in a compact form: its height, coinbase
//! flag and amount in variable-length integers, its script as one of six
//! compressed forms or as a raw copy. This crate reverses those encodings
//! and cuts the decoded rows into row groups, each sorted by script.
//!
//! The modules, leaves first:
//!
//! - [`error`]: the ways in which decoding fails.
//! - [`varint`]: the snapshot's own variable-length integers.
//! - [`wire`]: compact-size integers and transaction ids, as on the wire.
//! - [`amount`]: compact amounts.
//! - [`script`]: compressed scripts, their reconstruction and their classes.
//! - [`coin`]: one coin.
//! - [`snapshot`]: the header and the stream of grouped coins.
//! - [`batch`]: rows buffered by column, and their sort.
//! - [`convert`]: the pass that decodes, buffers and flushes.
//!
//! Every decoder takes the bytes that are left and says how many of them it
//! used, so that a caller can hold the input in a window and move on. What
//! the decoders compute is stated over sequences of bytes by the
//! specification functions that stand beside them.

pub mod amount;
pub mod batch;
pub mod coin;
pub mod convert;
pub mod error;
pub mod script;
pub mod snapshot;
pub mod varint;
pub mod wire;
