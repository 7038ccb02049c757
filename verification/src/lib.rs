//! Bracket-aware splitting of comma-delimited log lines, and the two passes
//! built on it: measuring the widest record of a batch, and re-emitting every
//! record padded with trailing commas to that width.
//!
//! - [`model`] says what a line is: its bracket depth, where reading it fails,
//!   and its fields.
//! - [`line`] is the tokenizer, [`source`] the sequence of records of one
//!   stream.
//! - [`count`] is the first pass over a batch, [`pad`] the second.
//! - [`laws`] states what holds of every line and of the two passes together;
//!   [`lemmas`] holds the facts that the proofs rest on.
//!
//! Reading and writing are left to the caller: a stream enters as the lines
//! read from it, and the padded rows leave as text.

pub mod count;
pub mod error;
pub mod laws;
pub mod lemmas;
pub mod line;
pub mod model;
pub mod pad;
pub mod source;
pub mod text;
