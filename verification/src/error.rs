//! Failure kinds of the tokenizer and of the passes over whole streams.

use vstd::prelude::*;

verus! {

/// Why a single line could not be split into fields.
#[derive(Clone, Copy, Debug, PartialEq, Eq, Structural)]
pub enum LineError {
    /// A `]` closes a bracket that was never opened, or the line ends while
    /// a bracket is still open.
    MalformedLine,
    /// A `[` would nest deeper than the depth counter can represent.
    StackOverflow,
}

/// A failed read or open, reduced to what a driver reports about it.
#[derive(Clone, Debug, PartialEq, Eq)]
pub struct IoFailure {
    /// The operating system's error code, where there is one.
    pub code: Option<i32>,
    /// Human-readable cause.
    pub message: String,
}

/// Why a pass over a stream stopped.
#[derive(Clone, Debug, PartialEq, Eq)]
pub enum LogError {
    /// The stream could not be opened or read.
    Io(IoFailure),
    /// A line of the stream could not be split into fields.
    Line(LineError),
    /// A record has more fields than the width it was to be padded to: the
    /// width was not counted over the lines that are now being padded.
    TooWide,
}

impl IoFailure {
    /// A copy of this failure, equal to it in code and message.
    pub fn duplicate(&self) -> (copy: IoFailure)
        ensures
            copy == *self,
    {
        IoFailure { code: self.code, message: self.message.clone() }
    }
}

} // verus!
