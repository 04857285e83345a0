//! The core of a log search service. Given the paths found on disk and the
//! bytes of the chosen files, it picks the files of a search, turns bytes
//! into lines, gathers lines into records, judges each record against a
//! Boolean text query and a time window, and cuts the hits into pages.
//!
//! The library reads no file and keeps no clock: a caller looks at the disk
//! and hands over what it found. Every function is verified against its
//! contract; what is taken on trust of other crates is marked where it is
//! declared.
//!
//! - [`scanner`] and [`sorting`] choose and order the files.
//! - [`reader`] turns the bytes of a file into lines.
//! - [`parser`] gathers lines into records.
//! - [`query`], [`text`], [`pattern`] and [`timestamp`] judge a record and
//!   locate the matches.
//! - [`hits`] and [`pipeline`] turn the records of one file into hits, all
//!   at once or line by line.
//! - [`aggregate`], [`paging`] and [`search`] carry a search over many files
//!   and assemble the response.
//! - [`model`], [`config`] and [`error`] hold the values that pass between
//!   them.

pub mod aggregate;
pub mod config;
pub mod error;
pub mod hits;
pub mod model;
pub mod paging;
pub mod parser;
pub mod pattern;
pub mod pipeline;
pub mod query;
pub mod reader;
pub mod scanner;
pub mod search;
pub mod sorting;
pub mod text;
pub mod timestamp;
