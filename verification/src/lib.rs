//! A file-based store of economic time-series data.
//!
//! The store keeps a declared universe of series — the specification index —
//! and reconciles it against the files that actually sit on disk. Three parts
//! carry the weight:
//!
//! * resource location: mapping a logical resource kind to a directory and
//!   validating that the directory holds only the expected file kinds;
//! * the specification index: an ordered, dual-indexed collection of series
//!   records, grouped by data type and country;
//! * reconciliation: drift reports (missing and orphaned files) and resumable
//!   synchronisation passes.
//!
//! Everything here is pure: directory listings and file contents are handed in
//! as plain values, so the logic never touches the filesystem itself.

pub mod countries;
pub mod error;
pub mod file_resources;
pub mod filter_spec;
pub mod filter_to_series;
pub mod html_to_server;
pub mod meta_data;
pub mod os_setup;
pub mod path;
pub mod primitives;
pub mod series_spec;
pub mod series_to_disk;
pub mod text;
pub mod ts_graphics;

pub use text::str_eq;
