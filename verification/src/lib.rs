//! A verified core for a comic-site crawler: pattern-based field extraction
//! from raw HTML, suffix-aware numeric parsing, pagination windowing,
//! retry/backoff decisions, and a JSON manifest codec with a proved
//! round-trip.
pub mod scan;
pub mod text;
pub mod numbers;
pub mod data;
pub mod json;
pub mod extract;
pub mod codec;
pub mod window;
pub mod orchestrate;
