//! Resolves album acronyms ("SILY") to catalog entries ("Since I Left You")
//! and renders the replies that announce them.
pub mod text;
pub mod matching;
pub mod query;
pub mod catalog;
pub mod reply;
