//! A small stack language: a lexer, a two-pass scope resolver and a
//! single-step execution engine over a self-modifying instruction tape.
//!
//! Numbers are IEEE-754 binary64 values carried by their bit pattern. The
//! engine never computes with them itself: `Environment::step` hands such
//! work, output and file inclusion to its host as an `Action`, and the host
//! answers through `Environment::resume` or `Environment::splice`.
use vstd::prelude::*;

pub mod arithparser;
pub mod engine;
pub mod labels;
pub mod laws;
pub mod lexer;
pub mod resolver;
pub mod text;
pub mod value;

pub use arithparser::{parse, SyntaxError};
pub use engine::{Action, Environment, FaultKind, NumOp, NumReply, NumTask, RuntimeError, Stack};
pub use labels::Labels;
pub use lexer::{lex_tokens, tokens_of, Lexed};
pub use resolver::ResolveError;
pub use text::{ends_with_whitespace, printable};
pub use value::{Command, SourceReference, StackSlot, Visibility};

verus! {

} // verus!
