//! The cell tokenizer: a cursor over one line that hands out its fields.

use vstd::prelude::*;
use crate::error::LineError;
use crate::lemmas::{
    lemma_cell_end_is, lemma_fault_sticks, lemma_fields_by_first_cell, lemma_push,
    lemma_separator_from,
};
use crate::model::{
    cell_end, depth, fields_of, first_cell, first_fault, is_separator, record_of, MAX_DEPTH,
};
use crate::text::chars_of;

verus! {

/// A cursor over one line. Each call of [`LineReader::next_cell`] hands out
/// the next field; [`LineReader::next`] gathers all that are left.
///
/// The bracket depth is counted anew for every field: between two fields no
/// bracket is open, so the reader keeps nothing but its position.
pub struct LineReader {
    source: Vec<char>,
    pos: usize,
    pending: bool,
}

impl LineReader {
    #[verifier::type_invariant]
    spec fn in_bounds(self) -> bool {
        self.pos <= self.source.len()
    }

    /// The text that is still to be split, or `None` once the last field has
    /// been handed out or a failure was reported. `Some` of an empty text
    /// stands for the empty field behind a trailing separator.
    pub closed spec fn rest(&self) -> Option<Seq<char>> {
        if self.pending {
            Some(self.source@.skip(self.pos as int))
        } else {
            None
        }
    }

    /// A reader at the start of `source`. An empty line has no field at all.
    pub fn new(source: String) -> (reader: LineReader)
        ensures
            reader.rest() == if source@.len() == 0 {
                None
            } else {
                Some(source@)
            },
    {
        LineReader::over(chars_of(source.as_str()))
    }

    fn over(source: Vec<char>) -> (reader: LineReader)
        ensures
            reader.rest() == if source@.len() == 0 {
                None
            } else {
                Some(source@)
            },
    {
        let pending = source.len() > 0;
        LineReader { source, pos: 0, pending }
    }

    /// Hands out the next field of the line, `None` when nothing is left.
    ///
    /// A field ends at the first comma outside every bracket, or at the end
    /// of the line. A bracket that cannot be read, or one still open at the
    /// end of the line, is reported once; the reader is then exhausted.
    pub fn next_cell(&mut self) -> (cell: Option<Result<String, LineError>>)
        ensures
            old(self).rest() is None ==> cell is None && final(self).rest() is None,
            old(self).rest() matches Some(text) ==> match first_cell(text) {
                Err(e) => cell == Some(Err::<String, LineError>(e)) && final(self).rest() is None,
                Ok((field, rest)) => {
                    &&& cell matches Some(Ok(f))
                    &&& f@ == field
                    &&& final(self).rest() == rest
                },
            },
    {
        proof {
            use_type_invariant(&*self);
        }
        if !self.pending {
            return None;
        }
        let start = self.pos;
        let ghost text = self.source@.skip(start as int);
        let mut field = String::new();
        let mut open: u8 = 0;
        let mut i: usize = start;
        while i < self.source.len()
            invariant
                start <= i <= self.source.len(),
                self.source == old(self).source,
                self.pos == start,
                self.pending,
                old(self).rest() == Some(text),
                text == self.source@.skip(start as int),
                field@ == text.take(i - start),
                open == depth(text.take(i - start)),
                first_fault(text.take(i - start)) is None,
                forall|j: int| 0 <= j < i - start ==> !is_separator(text, j),
            decreases self.source.len() - i,
        {
            let c = self.source[i];
            proof {
                let seen = text.take(i - start);
                assert(text.take(i - start + 1) =~= seen.push(c));
                lemma_push(seen, c);
            }
            if c == '[' {
                if open == MAX_DEPTH {
                    self.pending = false;
                    proof {
                        lemma_cell_stops_after(text, i - start);
                    }
                    return Some(Err(LineError::StackOverflow));
                }
                open = open + 1;
            } else if c == ']' {
                if open == 0 {
                    self.pending = false;
                    proof {
                        lemma_cell_stops_after(text, i - start);
                    }
                    return Some(Err(LineError::MalformedLine));
                }
                open = open - 1;
            } else if c == ',' && open == 0 {
                self.pos = i + 1;
                proof {
                    lemma_cell_end_is(text, i - start);
                }
                return Some(Ok(field));
            }
            field.push(c);
            i = i + 1;
        }
        self.pending = false;
        proof {
            assert(text.take(i - start) =~= text);
            lemma_cell_end_is(text, i - start);
        }
        if open == 0 {
            Some(Ok(field))
        } else {
            Some(Err(LineError::MalformedLine))
        }
    }

    /// Gathers the fields that are left into one record and exhausts the
    /// reader. `None` when nothing was left; the failure, when any of the
    /// remaining fields cannot be read.
    pub fn next(&mut self) -> (record: Option<Result<Vec<String>, LineError>>)
        ensures
            final(self).rest() is None,
            match old(self).rest() {
                None => record is None,
                Some(text) => match fields_of(text) {
                    Err(e) => record == Some(Err::<Vec<String>, LineError>(e)),
                    Ok(fields) => record matches Some(Ok(v)) && v.deep_view() == fields,
                },
            },
    {
        let mut line: Vec<String> = Vec::new();
        loop
            invariant
                match old(self).rest() {
                    None => self.rest() is None && line.len() == 0,
                    Some(text) => match self.rest() {
                        Some(cur) => fields_of(text) == match fields_of(cur) {
                            Err(e) => Err(e),
                            Ok(more) => Ok(line.deep_view() + more),
                        },
                        None => line.len() > 0 && fields_of(text) == Ok::<_, LineError>(
                            line.deep_view(),
                        ),
                    },
                },
            ensures
                self.rest() is None,
            decreases
                match self.rest() {
                    Some(cur) => cur.len() + 1,
                    None => 0,
                },
        {
            let ghost before = line.deep_view();
            proof {
                if let Some(cur) = self.rest() {
                    lemma_fields_by_first_cell(cur);
                    lemma_separator_from(cur, 0);
                }
            }
            match self.next_cell() {
                None => {
                    break ;
                },
                Some(Err(e)) => {
                    return Some(Err(e));
                },
                Some(Ok(cell)) => {
                    line.push(cell);
                    proof {
                        let now = line.deep_view();
                        match self.rest() {
                            Some(cur) => {
                                if let Ok(more) = fields_of(cur) {
                                    assert(before + (seq![cell@] + more) =~= now + more);
                                }
                            },
                            None => {
                                assert(before + seq![cell@] =~= now);
                            },
                        }
                    }
                },
            }
        }
        if line.len() == 0 {
            None
        } else {
            Some(Ok(line))
        }
    }
}

/// Splits one line, already without its terminator, into its record.
///
/// Commas outside every bracket separate the fields; brackets nest up to
/// [`MAX_DEPTH`] deep. An empty line gives an empty record.
pub fn tokenize(line: &str) -> (record: Result<Vec<String>, LineError>)
    ensures
        match record_of(line@) {
            Err(e) => record == Err::<Vec<String>, LineError>(e),
            Ok(fields) => record matches Ok(v) && v.deep_view() == fields,
        },
{
    let mut reader = LineReader::over(chars_of(line));
    match reader.next() {
        None => Ok(Vec::new()),
        Some(record) => record,
    }
}

/// A fault at position `k`, with no separator up to there, is met inside the
/// first field.
proof fn lemma_cell_stops_after(s: Seq<char>, k: int)
    requires
        0 <= k < s.len(),
        forall|j: int| 0 <= j <= k ==> !is_separator(s, j),
        first_fault(s.take(k + 1)) is Some,
    ensures
        first_cell(s) == Err::<(Seq<char>, Option<Seq<char>>), LineError>(
            first_fault(s.take(k + 1))->0,
        ),
{
    lemma_separator_from(s, 0);
    let e = cell_end(s);
    assert(s.take(e).take(k + 1) =~= s.take(k + 1));
    lemma_fault_sticks(s.take(e), k + 1);
}

} // verus!
