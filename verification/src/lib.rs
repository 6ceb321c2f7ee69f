//! A parser for subtitle documents: blocks of lines, parted by empty lines,
//! each with an index, a time range and a text.
//!
//! Every parser comes with the grammar it follows as a specification
//! function, and is proved to return exactly what that function says.

pub mod exception;
pub mod number;
pub mod parser;
pub mod subtitle;
pub mod text;
pub mod time_range;
pub mod timecode;
pub mod traits;
pub mod validation;

pub use exception::ParseError;
pub use parser::{parse_srt_file, SrtParser};
