//! Adaptive tabular rendering of loosely structured JSON values for a
//! terminal client.
//!
//! The heart of the crate is [`output::render`]: given a JSON value of
//! unknown shape and a `compact` flag, it picks one of several rendering
//! strategies (verbatim string, aligned grid, status summary, key/value
//! listing, raw JSON fallback) and returns deterministic, aligned text.
//! Around it stand the column layout engine ([`table`]), JSON serialization
//! and parsing ([`codec`], [`parse`]) with a proved round trip
//! ([`roundtrip`]), Unicode display-width measurement ([`width`]), the
//! request paths, parameters and bodies the transport sends ([`client`]),
//! and the configuration and context of a command run ([`config`],
//! [`context`]). The properties the layout engine keeps for every input
//! stand in [`laws`].

use vstd::prelude::*;

pub mod json;
pub mod laws;
pub mod text;
pub mod width;
pub mod client;
pub mod codec;
pub mod config;
pub mod context;
pub mod error;
pub mod numeric;
pub mod output;
pub mod parse;
pub mod roundtrip;
pub mod table;

verus! {

} // verus!
