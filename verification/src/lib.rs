//! Scanner for string and template literals: quoted strings, bare values,
//! mapping keys and `{{name}}` interpolations over a backslash-escape grammar.
//!
//! Every parser works on a [`reader::Reader`] and is specified against the
//! grammar functions of [`grammar`], which describe, for a buffer and a
//! cursor, what is recognised there and where the cursor ends up.

pub mod ast;
pub mod error;
pub mod expr;
pub mod grammar;
pub mod laws;
pub mod reader;
pub mod string;
pub mod text;
