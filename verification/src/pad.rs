//! The padding pass: every record of a stream written out as one line of
//! exactly the batch's width.
//!
//! A record with more fields than the width cannot be padded to it. Padding
//! never cuts a record short and never emits a row of another width: such a
//! record ends the pass with [`LogError::TooWide`]. With a width counted over
//! the same lines this does not happen.

use vstd::prelude::*;
use crate::error::LogError;
use crate::model::join;
use crate::source::{elements_of, Element, LogReader};

verus! {

/// The character that ends each emitted line.
pub const LINE_END: char = '\n';

/// A run of `n` commas.
pub open spec fn commas(n: nat) -> Seq<char> {
    Seq::new(n, |i: int| ',')
}

/// A record as it is written for a target of `width` columns: its fields
/// joined by commas, then one more comma for each column it falls short.
pub open spec fn padded(fields: Seq<Seq<char>>, width: nat) -> Seq<char> {
    join(fields) + commas((width - fields.len()) as nat)
}

/// Why `element` cannot be written for a target of `width` columns, if it
/// cannot: it is a failure itself, or a record with more fields than that.
pub open spec fn element_failure(element: Element, width: nat) -> Option<LogError> {
    match element {
        Err(e) => Some(e),
        Ok(fields) => if fields.len() > width {
            Some(LogError::TooWide)
        } else {
            None
        },
    }
}

/// The first failure of writing `elements`, if there is one.
pub open spec fn pad_failure(elements: Seq<Element>, width: nat) -> Option<LogError>
    decreases elements.len(),
{
    if elements.len() == 0 {
        None
    } else if pad_failure(elements.drop_last(), width) is Some {
        pad_failure(elements.drop_last(), width)
    } else {
        element_failure(elements.last(), width)
    }
}

/// The text written for `elements`: one padded, terminated line for each
/// record that comes before the first failure.
pub open spec fn emitted(elements: Seq<Element>, width: nat) -> Seq<char>
    decreases elements.len(),
{
    if elements.len() == 0 {
        Seq::empty()
    } else {
        let before = emitted(elements.drop_last(), width);
        if pad_failure(elements, width) is Some {
            before
        } else {
            before + padded(elements.last()->Ok_0, width).push(LINE_END)
        }
    }
}

/// Writing one more element.
proof fn lemma_emit_push(done: Seq<Element>, element: Element, width: nat)
    ensures
        pad_failure(done.push(element), width) == if pad_failure(done, width) is Some {
            pad_failure(done, width)
        } else {
            element_failure(element, width)
        },
        emitted(done.push(element), width) == if pad_failure(done.push(element), width) is Some {
            emitted(done, width)
        } else {
            emitted(done, width) + padded(element->Ok_0, width).push(LINE_END)
        },
{
    assert(done.push(element).drop_last() =~= done);
}

/// Nothing is written behind the first failure.
proof fn lemma_emit_stops(a: Seq<Element>, b: Seq<Element>, width: nat)
    requires
        pad_failure(a, width) is Some,
    ensures
        pad_failure(a + b, width) == pad_failure(a, width),
        emitted(a + b, width) == emitted(a, width),
    decreases b.len(),
{
    if b.len() > 0 {
        assert((a + b).drop_last() =~= a + b.drop_last());
        lemma_emit_stops(a, b.drop_last(), width);
    }
}

/// One record as a line of `width` columns, without its terminator: the
/// fields joined by commas, then `width - record.len()` commas more. A
/// record with more than `width` fields is refused.
pub fn pad_record(record: &Vec<String>, width: usize) -> (line: Result<String, LogError>)
    ensures
        record.len() > width ==> line == Err::<String, LogError>(LogError::TooWide),
        record.len() <= width ==> (line matches Ok(text) && text@ == padded(
            record.deep_view(),
            width as nat,
        )),
{
    let count = record.len();
    if count > width {
        return Err(LogError::TooWide);
    }
    let ghost fields = record.deep_view();
    let mut text = String::new();
    let mut i: usize = 0;
    while i < count
        invariant
            i <= count == record.len(),
            fields == record.deep_view(),
            text@ == join(fields.take(i as int)),
        decreases count - i,
    {
        proof {
            assert(fields.take(i + 1).drop_last() =~= fields.take(i as int));
        }
        if i > 0 {
            text.push(',');
        }
        text.append(record[i].as_str());
        i = i + 1;
    }
    proof {
        assert(fields.take(count as int) =~= fields);
    }
    let mut k: usize = count;
    while k < width
        invariant
            count <= k <= width,
            text@ == join(fields) + commas((k - count) as nat),
        decreases width - k,
    {
        text.push(',');
        k = k + 1;
    }
    Ok(text)
}

/// The padding pass over one stream: appends to `out` one line of `width`
/// columns, with its terminator, for each record. The first line that cannot
/// be read or split, or that is wider than `width`, ends the pass with its
/// failure; the lines before it have been written.
pub fn do_file(reader: LogReader, width: usize, out: &mut String) -> (done: Result<(), LogError>)
    ensures
        final(out)@ == old(out)@ + emitted(elements_of(reader@), width as nat),
        done == match pad_failure(elements_of(reader@), width as nat) {
            Some(e) => Err(e),
            None => Ok(()),
        },
{
    let ghost all = elements_of(reader@);
    let ghost mut seen: Seq<Element> = Seq::empty();
    let mut lines = reader.lines();
    loop
        invariant
            all == elements_of(reader@),
            seen + lines.upcoming() == all,
            pad_failure(seen, width as nat) is None,
            out@ == old(out)@ + emitted(seen, width as nat),
        ensures
            lines.upcoming().len() == 0,
        decreases lines.upcoming().len(),
    {
        let ghost ahead = lines.upcoming();
        let item = lines.next();
        proof {
            if item is Some {
                assert(seen.push(ahead[0]) + ahead.drop_first() =~= seen + ahead);
                lemma_emit_push(seen, ahead[0], width as nat);
                if element_failure(ahead[0], width as nat) is Some {
                    lemma_emit_stops(seen.push(ahead[0]), ahead.drop_first(), width as nat);
                }
            }
        }
        match item {
            None => {
                break ;
            },
            Some(Err(e)) => {
                return Err(e);
            },
            Some(Ok(record)) => {
                match pad_record(&record, width) {
                    Err(e) => {
                        return Err(e);
                    },
                    Ok(line) => {
                        out.append(line.as_str());
                        out.push(LINE_END);
                        proof {
                            seen = seen.push(ahead[0]);
                        }
                    },
                }
            },
        }
    }
    Ok(())
}

} // verus!
