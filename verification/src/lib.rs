//! A block-by-block indexing core that tracks ownership of numbered claims
//! declared as plain text inside on-chain inscriptions.
//!
//! The crate parses claim declarations, resolves the script that controls a
//! spend location to a canonical owner key, and keeps three persistent index
//! tables consistent while a block's inscription events are applied in order.

pub mod bytes;
pub mod claim;
pub mod entry;
pub mod script;
pub mod tables;
pub mod updater;
