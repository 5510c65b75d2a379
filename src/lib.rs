//! Inline color markup for terminal text.
//!
//! A string literal such as `"[bold|cyan]Hello world[magenta]!"` is turned into
//! the same text with each bracketed mode expression replaced by an ANSI escape
//! sequence, and a full reset appended at the end.
//!
//! - [`buffer`] collects SGR codes and coalesces them into one sequence.
//! - [`mode`] resolves the tokens of one mode expression.
//! - [`scan`] walks a literal's text, handling `[[` / `]]` escapes.
//! - [`expand`] produces the code that the coloring macros expand to.
//! - [`lemmas`] states laws of the scanner.

pub mod buffer;
pub mod error;
pub mod mode;
pub mod scan;
pub mod expand;
pub mod lemmas;
