//! Reassembly of length-prefixed ring items from finite or live byte streams.
//!
//! `codec` decodes the framing header, `framer` turns arbitrarily fragmented
//! byte deliveries into whole records, `stream` and `encoding` state what a
//! whole run of the framer delivers, `ring_item` builds the format library's
//! items, `offline` and `online` hold the per-source rules, and `selector`
//! picks a source from a URI.
pub mod codec;
pub mod encoding;
pub mod framer;
pub mod offline;
pub mod online;
pub mod ring_item;
pub mod selector;
pub mod stream;
pub mod uri;
