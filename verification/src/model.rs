//! The mathematical model of a line: bracket depth, the first point at which
//! reading fails, and the fields between top-level commas.

use vstd::prelude::*;
use crate::error::LineError;

verus! {

/// Deepest bracket nesting a line may reach.
pub const MAX_DEPTH: u8 = 255;

/// What reading `c` adds to the bracket depth.
pub open spec fn bracket_delta(c: char) -> int {
    if c == '[' {
        1
    } else if c == ']' {
        -1
    } else {
        0
    }
}

/// Opening brackets minus closing brackets in `s`.
pub open spec fn depth(s: Seq<char>) -> int
    decreases s.len(),
{
    if s.len() == 0 {
        0
    } else {
        depth(s.drop_last()) + bracket_delta(s.last())
    }
}

/// The failure, if any, of reading `c` while `d` brackets are open.
pub open spec fn fault_at(d: int, c: char) -> Option<LineError> {
    if c == '[' && d >= MAX_DEPTH {
        Some(LineError::StackOverflow)
    } else if c == ']' && d <= 0 {
        Some(LineError::MalformedLine)
    } else {
        None
    }
}

/// The first failure met when reading `s` from the left, if there is one.
pub open spec fn first_fault(s: Seq<char>) -> Option<LineError>
    decreases s.len(),
{
    if s.len() == 0 {
        None
    } else if first_fault(s.drop_last()) is Some {
        first_fault(s.drop_last())
    } else {
        fault_at(depth(s.drop_last()), s.last())
    }
}

/// Whether position `i` of `s` holds a comma outside every bracket.
pub open spec fn is_separator(s: Seq<char>, i: int) -> bool {
    0 <= i < s.len() && s[i] == ',' && depth(s.take(i)) == 0
}

/// `s` cut at its separators. There is always at least one field: a text
/// without separators is a single field, and an empty text a single empty one.
pub open spec fn split_fields(s: Seq<char>) -> Seq<Seq<char>>
    decreases s.len(),
{
    if s.len() == 0 {
        seq![Seq::empty()]
    } else {
        let head = split_fields(s.drop_last());
        if s.last() == ',' && depth(s.drop_last()) == 0 {
            head.push(Seq::empty())
        } else {
            head.drop_last().push(head.last().push(s.last()))
        }
    }
}

/// The fields of `s`, or the failure that stops the scan: the first bracket
/// that cannot be read, else a bracket left open at the end.
pub open spec fn fields_of(s: Seq<char>) -> Result<Seq<Seq<char>>, LineError> {
    match first_fault(s) {
        Some(e) => Err(e),
        None => if depth(s) != 0 {
            Err(LineError::MalformedLine)
        } else {
            Ok(split_fields(s))
        },
    }
}

/// The record of a whole line. An empty line has no record at all, which is
/// told apart from a record of one empty field.
pub open spec fn record_of(line: Seq<char>) -> Result<Seq<Seq<char>>, LineError> {
    if line.len() == 0 {
        Ok(Seq::empty())
    } else {
        fields_of(line)
    }
}

/// The first separator of `s` at or after `i`, or the length of `s`.
pub open spec fn separator_from(s: Seq<char>, i: int) -> int
    decreases s.len() - i,
{
    if i < 0 || i >= s.len() {
        s.len() as int
    } else if is_separator(s, i) {
        i
    } else {
        separator_from(s, i + 1)
    }
}

/// Where the first field of `s` ends.
pub open spec fn cell_end(s: Seq<char>) -> int {
    separator_from(s, 0)
}

/// The first field of `s` together with the text that follows its separator
/// (`None` when the field runs to the end), or the failure met inside it.
pub open spec fn first_cell(s: Seq<char>) -> Result<(Seq<char>, Option<Seq<char>>), LineError> {
    let k = cell_end(s);
    match first_fault(s.take(k)) {
        Some(e) => Err(e),
        None => if k < s.len() {
            Ok((s.take(k), Some(s.skip(k + 1))))
        } else if depth(s) != 0 {
            Err(LineError::MalformedLine)
        } else {
            Ok((s, None))
        },
    }
}

/// Fields written one after another with a comma between neighbours.
pub open spec fn join(fields: Seq<Seq<char>>) -> Seq<char>
    decreases fields.len(),
{
    if fields.len() == 0 {
        Seq::empty()
    } else if fields.len() == 1 {
        fields[0]
    } else {
        join(fields.drop_last()).push(',') + fields.last()
    }
}

} // verus!
