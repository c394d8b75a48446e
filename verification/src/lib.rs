//! An executor for a pre-compiled binary object-file format: a loader
//! that reconstructs a program image (string table, type table, function
//! table, instruction bytes) from a length-prefixed, varint-encoded
//! buffer, and a stack-based virtual machine that interprets the
//! instruction stream over a tagged value model.
//!
//! Numbers are modelled as 64-bit signed integers; arithmetic that
//! leaves that range raises a catchable runtime exception, as does
//! division or modulo by zero.  Strings are byte-exact UTF-8 text,
//! validated by the loader and kept as raw bytes.  Composite values
//! have value semantics: a
//! duplicate is a structurally equal copy, and mutation through one
//! copy is never visible through another.
use vstd::prelude::*;

pub mod errors;
pub mod exec;
pub mod image;
pub mod value;
pub mod varint;
