//! A library for scanning media files for masked malicious content.
//!
//! A file is judged by a three-stage pipeline: its leading bytes are
//! sniffed for a known media type, recognized files are searched for a
//! catalog of malicious byte signatures, and files with no signature hit
//! are measured for anomalously high Shannon entropy (a sign of packed
//! or encrypted payloads). Verdicts over a file set are tallied by an
//! order-insensitive aggregator.

pub mod aggregate;
pub mod classify;
pub mod entropy;
pub mod pipeline;
pub mod signature;
