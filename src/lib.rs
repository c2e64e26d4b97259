//! Directory-scanning text utilities: name exclusion by glob patterns, line
//! exclusion by literal substrings, and the two renderings of a scanned file
//! (a token count line, or a prompt block pairing a name with its text).
pub mod lines;
pub mod names;
pub mod tokens;
pub mod render;
pub mod scan;
pub mod messages;
