//! Cuts a line of text into tokens, one at a time, keeping quoted strings and
//! nested bracketed expressions together as single tokens.
//!
//! `TStr` is the tokenisable string and `TStrX` a configuration that several
//! of them can share. What the operations return is stated over sequences of
//! characters in `scan`; `nexttoken` holds the classifier chain that does the
//! scanning, `phases` the same scan as a state machine, and `theorems` what
//! follows for whole lines: plain words, quoted blocks, nested brackets and
//! escape sequences.

pub mod config;
pub mod error;
pub mod escapes;
pub mod nexttoken;
pub mod phases;
pub mod scan;
pub mod text;
pub mod theorems;
pub mod tstr;
pub mod util;

pub use config::{Delimiters, Flags, TokenType};
pub use error::{ErrorKind, TokenError};
pub use escapes::EscSeqMap;
pub use tstr::{TStr, TStrX};
