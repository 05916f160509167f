//! Identifies game-dump files by content digest against a reference database.
//!
//! The library streams each file's bytes through an MD5 accumulator
//! ([`digest`]), builds a digest-to-name index from a set of structured
//! reference documents ([`xml`], [`index`]), resolves every scanned file
//! against that index in a deterministic, ASCII-case-insensitive lexicographic
//! order ([`scan`]), and exposes the ordered results together with a scan
//! summary for a reporting layer to format.

pub mod bytes;
pub mod digest;
pub mod index;
pub mod progress;
pub mod scan;
pub mod xml;
