//! A small backend for an editor: it takes a text, finds its tokens, checks
//! the names in it against a stack of scopes, and reports what it finds over
//! a channel of length-prefixed JSON messages.
//!
//! - `analysis::lexer` turns a text into tokens.
//! - `analysis` walks the tokens and resolves names; `analysis::scope` holds
//!   the scopes and `analysis::diagnostics` the findings.
//! - `framing` cuts a stream of bytes into messages and writes messages back.
//! - `protocol` reads a message as a request and writes the findings as a
//!   notification; `json` is the JSON codec it relies on.
//! - `decimal` writes and reads numbers.
//!
//! Every function carries a contract over a mathematical model of its data
//! (sequences of characters, bytes and tokens; sets of names), and Verus
//! proves each body against its contract. Only what `json` says of the codec,
//! and one statement about the standard library in `framing`, is taken on
//! trust.

pub mod analysis;
pub mod decimal;
pub mod framing;
pub mod json;
pub mod protocol;
