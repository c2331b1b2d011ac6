//! A verified postal-code lookup library.
//!
//! The library loads a delimited tabular reference file into an immutable
//! in-memory index mapping postal codes to locations (city and region), and
//! answers exact-match lookups against that index, shaping each answer as an
//! HTTP reply with caching metadata.

pub mod index;
pub mod response;
pub mod rows;
