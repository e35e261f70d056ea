//! Engine for downloading "deep zoom" images: images served as many small
//! tiles that must be located, fetched and reassembled into one surface.
//!
//! The crate holds the protocol-agnostic pipeline: the probe/resolution state
//! machine that drives a protocol implementation to a list of zoom levels, the
//! zoom-level selection policy, the sequential core of the tile-fetch
//! orchestrator with its partial-failure policy, and the canvas that merges
//! arbitrarily positioned tiles. Network transport, terminal interaction,
//! parallel scheduling and final image encoding live outside the library and
//! hand it plain values.

pub mod auto;
pub mod canvas;
pub mod dezoomer;
pub mod errors;
pub mod headers;
pub mod orchestrator;
pub mod selector;
pub mod vec2d;
