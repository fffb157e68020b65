//! Splits a text file into numbered pieces of at most a fixed number of data
//! lines, repeating the leading header lines at the top of every piece.
//!
//! The library holds the decisions; reading and writing files is left to the
//! caller, which feeds source lines to a [`Splitter`] one at a time and carries
//! out what it hands back.

pub mod chunks;
pub mod error;
pub mod laws;
pub mod path;
pub mod splitter;

pub use error::Error;
pub use path::{generate_output_file_path, output_file_name};
pub use splitter::{Emit, OutputFile, Splitter, split_lines};

