//! Documents in text.

pub mod document;
pub mod lexical;
pub mod strings;
pub mod written;
