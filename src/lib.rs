//! Line-oriented, whitespace-tokenized typed reads over an in-memory text.
//!
//! An [`Input`] holds the whole text and a cursor; each read takes exactly the
//! next line. A line splits on spaces into fields, and its non-empty fields
//! are its tokens. Tokens turn into values through [`FromToken`]. A line that
//! does not hold the wanted values gives a [`ReadError`]; once every line has
//! been read, the reads give an empty list or no value.

pub mod example;
pub mod laws;
pub mod reader;
pub mod text;
pub mod token;

pub use example::{count_at_least_in, testcase};
pub use reader::{
    Input, ReadError, parse_all, read_line, read_list, read_one, read_pair, read_triple,
};
pub use text::{fields_of, is_whitespace, tokens_of};
pub use token::{FromToken, parse_integer};
