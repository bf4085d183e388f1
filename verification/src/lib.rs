use vstd::prelude::*;

pub mod chars;
pub mod source;
pub mod lines;
pub mod parse;
pub mod spec;
pub mod parser;
pub mod ast;
pub mod framework;
pub mod ansi;
pub mod diagnostics;
pub mod io;

verus! {

/// ANSI command sequence to reset all formatting
pub const RESET: &'static str = "\x1B[0;m";

} // verus!
