//! A small music-library engine: it ingests parsed audio-file records,
//! reconciles them into a normalized in-memory model of artists, albums and
//! tracks, and serves deterministic sort orders and a script-aware text
//! search over the result.
//!
//! The host side of a scan (walking a directory, probing audio containers,
//! reading the clock, writing cache artifacts) stays outside; it hands this
//! crate plain values and takes plain values back.

pub mod crawl;
pub mod laws;
pub mod library;
pub mod model;
pub mod order;
pub mod search;
pub mod text;
pub mod timefmt;
