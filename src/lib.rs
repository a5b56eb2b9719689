//! Lexical scanner for a small dynamic scripting language.
//!
//! `scanner::Scanner` turns one line of source text into tokens, or into
//! every lexical fault it holds. `lexical` states the scanning rules as
//! mathematics, `scanner` is proved to follow them, and `laws` proves
//! properties of a whole pass from them.

pub mod error;
pub mod token;
pub mod lexical;
pub mod scanner;
pub mod laws;
