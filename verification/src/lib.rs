//! Scan engine for the DB721 columnar table format.
//!
//! A DB721 file stores each column as a contiguous run of fixed-width values,
//! cut into blocks, followed by a JSON trailer that describes the columns and
//! carries per-block statistics (zone maps), and by the trailer's length.
//!
//! This crate finds the trailer ([`parse_file`]), puts the decoded metadata
//! together and checks it ([`Metadata::new`], [`de_int_key`]), plans a scan
//! from a projection, conjunctive predicates and an optional limit
//! ([`Db721Reader::new`]), prunes blocks by their zone maps and produces the
//! matching rows in file order ([`Db721Reader::next`]). [`Db721Fdw`] is the
//! same scan in the shape in which a host drives it.
//!
//! The crate works on bytes and plain values: reading the file and decoding
//! the JSON of the trailer are the caller's part.

pub mod compile;
pub mod decode;
pub mod error;
pub mod fdw;
pub mod keys;
pub mod metadata;
pub mod op;
pub mod plan;
pub mod qual;
pub mod reader;
pub mod rows;
pub mod trailer;
pub mod value;

pub use decode::read_val;
pub use error::ScanError;
pub use fdw::Db721Fdw;
pub use keys::{de_int_key, parse_block_index};
pub use metadata::{BlockStats, Column, Metadata, Stats};
pub use op::Op;
pub use plan::{PlannedQual, RowStep, ScanPlan};
pub use qual::{CustomQual, HostValue, Limit, Qual};
pub use reader::Db721Reader;
pub use trailer::parse_file;
pub use value::{Cell, ColumnType};
