//! A verified decoder for macOS fsevents capture files: a version-aware,
//! page-framed binary record stream, rendered flag text, record filters,
//! and a unique-path aggregate, with contracts proved by Verus.  The I/O,
//! concurrency and serialization around the library live outside it.
pub mod file_parser;
pub mod flags;
pub mod hub;
pub mod opts;
pub mod record;
pub mod uniques;
pub mod version;
