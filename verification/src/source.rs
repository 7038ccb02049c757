//! The line source: the lines read from one stream, presented as the
//! sequence of records and failures that they tokenize to.

use vstd::prelude::*;
use crate::error::{IoFailure, LogError};
use crate::line::tokenize;
use crate::model::fields_of;

verus! {

/// What reading one physical line gave: its text without the terminator, or
/// the failure of the read.
pub type LineRead = Result<String, IoFailure>;

/// What a stream yields for one line: its record, or why there is none.
pub type Element = Result<Seq<Seq<char>>, LogError>;

/// What one line contributes to the sequence: nothing when it is empty, the
/// read failure when it could not be read, else its fields or the reason why
/// it cannot be split.
pub open spec fn element_of(read: LineRead) -> Option<Element> {
    match read {
        Err(failure) => Some(Err(LogError::Io(failure))),
        Ok(text) => if text@.len() == 0 {
            None
        } else {
            match fields_of(text@) {
                Ok(fields) => Some(Ok(fields)),
                Err(e) => Some(Err(LogError::Line(e))),
            }
        },
    }
}

/// The elements that a stream of lines yields, in order. A line gives at most
/// one element; empty lines give none.
pub open spec fn elements_of(input: Seq<LineRead>) -> Seq<Element>
    decreases input.len(),
{
    if input.len() == 0 {
        Seq::empty()
    } else {
        match element_of(input.first()) {
            None => elements_of(input.drop_first()),
            Some(element) => seq![element] + elements_of(input.drop_first()),
        }
    }
}

/// Whether `item`, as handed out, is the element `element`.
pub open spec fn hands_out(item: Option<Result<Vec<String>, LogError>>, element: Element) -> bool {
    match element {
        Err(e) => item == Some(Err::<Vec<String>, LogError>(e)),
        Ok(fields) => item matches Some(Ok(record)) && record.deep_view() == fields,
    }
}

/// The lines of one stream, not yet scanned.
pub struct LogReader {
    r: Vec<LineRead>,
}

impl View for LogReader {
    type V = Seq<LineRead>;

    closed spec fn view(&self) -> Seq<LineRead> {
        self.r@
    }
}

impl LogReader {
    /// A reader over the lines `r`, in the order in which they were read.
    pub fn new(r: Vec<LineRead>) -> (reader: LogReader)
        ensures
            reader@ == r@,
    {
        LogReader { r }
    }

    /// The single pass over the stream.
    pub fn lines(self) -> (lines: Lines)
        ensures
            lines.upcoming() == elements_of(self@),
    {
        proof {
            assert(self.r@.skip(0) =~= self.r@);
        }
        Lines { input: self.r, pos: 0 }
    }
}

/// One pass over a stream. It hands out each element once, in order, and
/// cannot be restarted.
pub struct Lines {
    input: Vec<LineRead>,
    pos: usize,
}

impl Lines {
    #[verifier::type_invariant]
    spec fn in_bounds(self) -> bool {
        self.pos <= self.input.len()
    }

    /// The elements that are still to be handed out.
    pub closed spec fn upcoming(&self) -> Seq<Element> {
        elements_of(self.input@.skip(self.pos as int))
    }

    /// Hands out the next element, `None` at the end of the stream.
    pub fn next(&mut self) -> (item: Option<Result<Vec<String>, LogError>>)
        ensures
            old(self).upcoming().len() == 0 ==> item is None && final(self).upcoming().len() == 0,
            old(self).upcoming().len() > 0 ==> hands_out(item, old(self).upcoming()[0])
                && final(self).upcoming() == old(self).upcoming().drop_first(),
    {
        proof {
            use_type_invariant(&*self);
        }
        while self.pos < self.input.len()
            invariant
                self.input == old(self).input,
                self.pos <= self.input.len(),
                self.upcoming() == old(self).upcoming(),
            decreases self.input.len() - self.pos,
        {
            let at = self.pos;
            let ghost left = self.input@.skip(at as int);
            proof {
                assert(left.drop_first() =~= self.input@.skip(at + 1));
            }
            self.pos = at + 1;
            match &self.input[at] {
                Err(failure) => {
                    return Some(Err(LogError::Io(failure.duplicate())));
                },
                Ok(text) => {
                    if !text.as_str().is_empty() {
                        return match tokenize(text.as_str()) {
                            Ok(record) => Some(Ok(record)),
                            Err(e) => Some(Err(LogError::Line(e))),
                        };
                    }
                },
            }
        }
        None
    }
}

} // verus!
