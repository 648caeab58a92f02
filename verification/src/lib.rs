//! The `regex_replace` function of a filter engine: it replaces the first
//! match of a regular expression in a byte string with an expansion of a
//! replacement template.

pub mod regex_engine;
pub mod regex_replace;
pub mod template;
