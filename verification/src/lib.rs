//! Extraction engine for alert notification bodies.
//!
//! The crate turns the text of an alert e-mail (one HTML table of a known,
//! fixed shape) into human-readable summary strings plus per-row diagnostics,
//! and offers a generic substring-exclusion filter for lists of strings.
//! All matching is done on character sequences with verified code; the
//! contracts of the public functions pin the results down exactly.

pub mod api;
pub mod cipp;
pub mod generic;
pub mod text;
