//! Parser for a small line-oriented request-description file format.
//!
//! A file names an HTTP method and a target URL using the key markers
//! `--method` and `--url`, with `--` terminating a field when another
//! field follows it and `#` starting a comment line.  The library turns
//! such a text into a structured request value or a classified error.

pub mod comments;
pub mod extract;
pub mod request;
pub mod text;

pub use comments::clean_up_comments;
pub use request::ParseError;
pub use request::Request;
pub use request::RequestMethod;
pub use request::parse_file;
