//! The counting pass: the widest record of a stream, and of a batch of
//! streams, in output columns.

use vstd::prelude::*;
use crate::error::{IoFailure, LogError};
use crate::source::{elements_of, Element, LogReader};

verus! {

/// The output columns of a record of `fields` fields. The first field counts
/// for two, since it holds both the time stamp and the event. The count
/// stops at the largest number a `usize` holds.
pub open spec fn columns(fields: nat) -> nat {
    if fields < usize::MAX {
        fields + 1
    } else {
        usize::MAX as nat
    }
}

/// The first failure among `elements`, if there is one.
pub open spec fn first_failure(elements: Seq<Element>) -> Option<LogError>
    decreases elements.len(),
{
    if elements.len() == 0 {
        None
    } else if first_failure(elements.drop_last()) is Some {
        first_failure(elements.drop_last())
    } else {
        match elements.last() {
            Err(e) => Some(e),
            Ok(_) => None,
        }
    }
}

/// The larger of two counts.
pub open spec fn larger(a: nat, b: nat) -> nat {
    if a >= b {
        a
    } else {
        b
    }
}

/// The columns that one element asks for: those of its record, none for a
/// failure.
pub open spec fn element_columns(element: Element) -> nat {
    match element {
        Ok(fields) => columns(fields.len()),
        Err(_) => 0,
    }
}

/// The most columns of any record among `elements`; zero when there is none.
pub open spec fn widest(elements: Seq<Element>) -> nat
    decreases elements.len(),
{
    if elements.len() == 0 {
        0
    } else {
        larger(widest(elements.drop_last()), element_columns(elements.last()))
    }
}

/// The outcome of counting over `elements`: all or nothing. The first
/// failure anywhere spoils the count; without one it is the widest record.
pub open spec fn max_columns(elements: Seq<Element>) -> Result<nat, LogError> {
    match first_failure(elements) {
        Some(e) => Err(e),
        None => Ok(widest(elements)),
    }
}

/// One stream of a batch: its lines, or why it could not be opened.
pub type Input = Result<LogReader, IoFailure>;

/// The elements of one stream of a batch. A stream that could not be opened
/// stands for its failure.
pub open spec fn input_elements(input: Input) -> Seq<Element> {
    match input {
        Err(failure) => seq![Err(LogError::Io(failure))],
        Ok(reader) => elements_of(reader@),
    }
}

/// The elements of a whole batch, stream after stream.
pub open spec fn batch_elements(inputs: Seq<Input>) -> Seq<Element>
    decreases inputs.len(),
{
    if inputs.len() == 0 {
        Seq::empty()
    } else {
        batch_elements(inputs.drop_last()) + input_elements(inputs.last())
    }
}

/// Counting one more element.
proof fn lemma_count_push(done: Seq<Element>, element: Element)
    ensures
        first_failure(done.push(element)) == if first_failure(done) is Some {
            first_failure(done)
        } else {
            match element {
                Err(e) => Some(e),
                Ok(_) => None,
            }
        },
        widest(done.push(element)) == larger(widest(done), element_columns(element)),
{
    assert(done.push(element).drop_last() =~= done);
}

/// Counting over two runs of elements, one after the other.
pub proof fn lemma_count_concat(a: Seq<Element>, b: Seq<Element>)
    ensures
        first_failure(a + b) == if first_failure(a) is Some {
            first_failure(a)
        } else {
            first_failure(b)
        },
        widest(a + b) == larger(widest(a), widest(b)),
    decreases b.len(),
{
    if b.len() > 0 {
        assert((a + b).drop_last() =~= a + b.drop_last());
        lemma_count_concat(a, b.drop_last());
    }
}

/// The widest record of one stream, in output columns: the largest
/// `columns(record length)` over its records, zero for a stream without
/// records. The first line that cannot be read or split ends the pass with
/// its failure.
pub fn count_max_columns(reader: LogReader) -> (count: Result<usize, LogError>)
    ensures
        match max_columns(elements_of(reader@)) {
            Err(e) => count == Err::<usize, LogError>(e),
            Ok(n) => count matches Ok(c) && c == n,
        },
{
    let ghost all = elements_of(reader@);
    let ghost mut done: Seq<Element> = Seq::empty();
    let mut lines = reader.lines();
    let mut max: usize = 0;
    loop
        invariant
            all == elements_of(reader@),
            done + lines.upcoming() == all,
            first_failure(done) is None,
            max == widest(done),
        ensures
            lines.upcoming().len() == 0,
        decreases lines.upcoming().len(),
    {
        let ghost ahead = lines.upcoming();
        match lines.next() {
            None => {
                break ;
            },
            Some(item) => {
                proof {
                    assert(done.push(ahead[0]) + ahead.drop_first() =~= done + ahead);
                    lemma_count_push(done, ahead[0]);
                    lemma_count_concat(done.push(ahead[0]), ahead.drop_first());
                    done = done.push(ahead[0]);
                }
                match item {
                    Err(e) => {
                        return Err(e);
                    },
                    Ok(record) => {
                        let n = record.len().saturating_add(1);
                        if n > max {
                            max = n;
                        }
                    },
                }
            },
        }
    }
    Ok(max)
}

/// Takes one more stream of a batch into the running maximum `prev`: a
/// stream that could not be opened, or whose count fails, ends the batch
/// with that failure.
pub fn widen(prev: usize, input: Input) -> (count: Result<usize, LogError>)
    ensures
        match input {
            Err(failure) => count == Err::<usize, LogError>(LogError::Io(failure)),
            Ok(reader) => match max_columns(elements_of(reader@)) {
                Err(e) => count == Err::<usize, LogError>(e),
                Ok(n) => count matches Ok(c) && c == larger(prev as nat, n),
            },
        },
{
    match input {
        Err(failure) => Err(LogError::Io(failure)),
        Ok(reader) => match count_max_columns(reader) {
            Err(e) => Err(e),
            Ok(n) => Ok(if prev > n { prev } else { n }),
        },
    }
}

/// The elements of two batches, one after the other.
pub proof fn lemma_batch_concat(a: Seq<Input>, b: Seq<Input>)
    ensures
        batch_elements(a + b) == batch_elements(a) + batch_elements(b),
    decreases b.len(),
{
    if b.len() > 0 {
        assert((a + b).drop_last() =~= a + b.drop_last());
        lemma_batch_concat(a, b.drop_last());
    }
}

/// The width to pad a whole batch to: the widest record of any of its
/// streams, zero when none has a record. The streams are taken in order, and
/// the first failure ends the pass.
pub fn count_batch(inputs: Vec<Input>) -> (count: Result<usize, LogError>)
    ensures
        match max_columns(batch_elements(inputs@)) {
            Err(e) => count == Err::<usize, LogError>(e),
            Ok(n) => count matches Ok(c) && c == n,
        },
{
    let ghost all = inputs@;
    let mut max: usize = 0;
    for input in it: inputs
        invariant
            it.seq() == all,
            first_failure(batch_elements(all.take(it.index() as int))) is None,
            max == widest(batch_elements(all.take(it.index() as int))),
    {
        let ghost i = it.index() as int;
        proof {
            let seen = batch_elements(all.take(i));
            let piece = input_elements(input);
            assert(all.take(i + 1).drop_last() =~= all.take(i));
            lemma_count_concat(seen, piece);
            if input is Err {
                lemma_count_push(Seq::empty(), piece[0]);
            }
            assert(all =~= all.take(i + 1) + all.skip(i + 1));
            lemma_batch_concat(all.take(i + 1), all.skip(i + 1));
            lemma_count_concat(batch_elements(all.take(i + 1)), batch_elements(all.skip(i + 1)));
        }
        match widen(max, input) {
            Err(e) => {
                return Err(e);
            },
            Ok(n) => {
                max = n;
            },
        }
    }
    proof {
        assert(all.take(all.len() as int) =~= all);
    }
    Ok(max)
}

} // verus!
