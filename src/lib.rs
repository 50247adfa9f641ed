//! An interpreter for a small line-oriented pattern-action language.
//!
//! A program is a tree of guarded statement blocks. Guards decide which
//! input lines (or the begin and end of the stream) trigger the statements
//! they enclose; statements print, rewrite the line or ask for outside work,
//! using the text that the guards captured.
//!
//! ```text
//! /^(?P<inter>[a-zA-Z0-9]+): /,/^[a-zA-Z0-9]+:/ {
//!   /inet (?P<ip>[0-9]{1,3}(\.[0-9]{1,3}){3})/ {
//!     print("${inter}: ${ip}")
//!   }
//! }
//! ```
//!
//! The library does no I/O: a run yields the effects it asks for (output
//! text, files to copy or append to, commands to run), in order, for the
//! program around it to carry out.

pub mod ast;
pub mod env;
pub mod eval;
pub mod exec;
pub mod features;
pub mod interp;
pub mod interpreter;
pub mod lex;
pub mod lint;
pub mod parse;
pub mod rx;
pub mod scope;
pub mod text;

pub use ast::{Block, Body, Expression, Match, Pattern, PatternMatch, Range, Selector, Statement};
pub use env::{Effect, Environment, Event, RangeScopeTracker};
pub use features::features;
pub use interpreter::{Builder, Interpreter};
pub use lex::{Token, full_lex, lex};
pub use lint::{LintMessage, lint};
pub use parse::{parse, to_regex};
pub use rx::Rx;
pub use scope::Scope;
