//! A verified transpiler for a small line-oriented markup language.
//!
//! The language is read one line at a time.  A line is a constant
//! definition (`def name value...`), a structural delimiter (`{`, `}`,
//! `[`, `]`), or a content statement (`header`, `paragraph`, `img`,
//! `link`, `- ` list items, the cosmetic `list` keyword).  The output is
//! a complete HTML page: accumulated fragments spliced into a fixed
//! template together with an optional title and a named color theme.

pub mod diag;
pub mod emit;
pub mod eval;
pub mod laws;
pub mod machine;
pub mod table;
pub mod text;
