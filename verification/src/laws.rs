//! What holds of every line and of the two passes together: which lines are
//! well formed, that nothing is lost by splitting one, that a padded row has
//! exactly the width asked for, and that a counted width fits every record.

use vstd::prelude::*;
use crate::error::LineError;
use crate::count::{element_columns, first_failure, max_columns, widest};
use crate::lemmas::{lemma_fault_sticks, lemma_push, lemma_split_nonempty};
use crate::model::{
    depth, first_fault, is_separator, join, record_of, split_fields, MAX_DEPTH,
};
use crate::pad::{commas, pad_failure, padded};
use crate::source::{element_of, elements_of, Element, LineRead};

verus! {

/// Whether the bracket depth stays between zero and [`MAX_DEPTH`] after each
/// of the first `n` characters of `s`.
pub open spec fn depth_in_bounds(s: Seq<char>, n: int) -> bool {
    forall|j: int| 0 <= j <= n ==> 0 <= #[trigger] depth(s.take(j)) <= MAX_DEPTH
}

/// A text reads without fault exactly when its depth never leaves the range
/// that the counter can hold.
pub proof fn lemma_no_fault_iff_in_bounds(s: Seq<char>)
    ensures
        first_fault(s) is None <==> depth_in_bounds(s, s.len() as int),
    decreases s.len(),
{
    if s.len() > 0 {
        let p = s.drop_last();
        let n = p.len() as int;
        lemma_no_fault_iff_in_bounds(p);
        lemma_push(p, s.last());
        assert(s.take(n + 1) =~= s);
        assert forall|j: int| 0 <= j <= n implies p.take(j) == s.take(j) by {}
        if depth_in_bounds(s, n + 1) {
            assert(0 <= depth(s.take(n + 1)) <= MAX_DEPTH);
        }
    }
}

/// A line is well formed, that is it has a record, exactly when its bracket
/// depth stays within bounds throughout and is back at zero at its end.
pub proof fn lemma_well_formed(line: Seq<char>)
    ensures
        record_of(line) is Ok <==> depth_in_bounds(line, line.len() as int) && depth(line) == 0,
{
    lemma_no_fault_iff_in_bounds(line);
}

/// The fields of any text, joined by commas, are the text again.
pub proof fn lemma_join_split(s: Seq<char>)
    ensures
        join(split_fields(s)) == s,
    decreases s.len(),
{
    if s.len() > 0 {
        let p = s.drop_last();
        let c = s.last();
        let head = split_fields(p);
        lemma_join_split(p);
        lemma_split_nonempty(p);
        if c == ',' && depth(p) == 0 {
            assert(head.push(Seq::empty()).drop_last() =~= head);
        } else if head.len() > 1 {
            let all = head.drop_last().push(head.last().push(c));
            assert(all.drop_last() =~= head.drop_last());
            assert(join(all) =~= (join(head.drop_last()).push(',') + head.last()).push(c));
        }
    }
}

/// Fields are cut at separators and nowhere else: no field holds a comma
/// outside its own brackets, every field before the last closes the brackets
/// it opens, and the last carries whatever depth the text ends at.
pub proof fn lemma_fields_hold_no_separator(s: Seq<char>)
    ensures
        forall|k: int, i: int|
            0 <= k < split_fields(s).len() ==> !#[trigger] is_separator(split_fields(s)[k], i),
        forall|k: int|
            0 <= k < split_fields(s).len() - 1 ==> depth(#[trigger] split_fields(s)[k]) == 0,
        depth(split_fields(s).last()) == depth(s),
    decreases s.len(),
{
    lemma_split_nonempty(s);
    if s.len() > 0 {
        let p = s.drop_last();
        let c = s.last();
        let head = split_fields(p);
        let all = split_fields(s);
        lemma_fields_hold_no_separator(p);
        lemma_split_nonempty(p);
        if !(c == ',' && depth(p) == 0) {
            let last = head.last();
            let grown = last.push(c);
            lemma_push(last, c);
            assert forall|k: int, i: int| 0 <= k < all.len() implies !#[trigger] is_separator(
                all[k],
                i,
            ) by {
                if k == all.len() - 1 && 0 <= i < last.len() {
                    assert(!is_separator(head[k], i));
                    assert(grown.take(i) =~= last.take(i));
                }
            }
        }
    }
}

/// Round trip: the record of a well-formed line, joined by commas, is the
/// line it was split from.
pub proof fn lemma_round_trip(line: Seq<char>)
    requires
        record_of(line) is Ok,
    ensures
        join(record_of(line)->Ok_0) == line,
{
    if line.len() > 0 {
        lemma_join_split(line);
    }
}

/// A `]` that meets no open bracket makes the line malformed, provided the
/// depth stayed within bounds up to it.
pub proof fn lemma_unmatched_close(line: Seq<char>, i: int)
    requires
        0 <= i < line.len(),
        line[i] == ']',
        depth(line.take(i)) == 0,
        depth_in_bounds(line, i),
    ensures
        record_of(line) == Err::<Seq<Seq<char>>, LineError>(LineError::MalformedLine),
{
    let p = line.take(i);
    assert forall|j: int| 0 <= j <= i implies 0 <= #[trigger] depth(p.take(j)) <= MAX_DEPTH by {
        assert(p.take(j) =~= line.take(j));
    }
    lemma_no_fault_iff_in_bounds(p);
    lemma_push(p, ']');
    assert(line.take(i + 1) =~= p.push(']'));
    lemma_fault_sticks(line, i + 1);
}

/// A `[` at depth [`MAX_DEPTH`] overflows the counter, provided the depth
/// stayed within bounds up to it.
pub proof fn lemma_too_deep(line: Seq<char>, i: int)
    requires
        0 <= i < line.len(),
        line[i] == '[',
        depth(line.take(i)) == MAX_DEPTH,
        depth_in_bounds(line, i),
    ensures
        record_of(line) == Err::<Seq<Seq<char>>, LineError>(LineError::StackOverflow),
{
    let p = line.take(i);
    assert forall|j: int| 0 <= j <= i implies 0 <= #[trigger] depth(p.take(j)) <= MAX_DEPTH by {
        assert(p.take(j) =~= line.take(j));
    }
    lemma_no_fault_iff_in_bounds(p);
    lemma_push(p, '[');
    assert(line.take(i + 1) =~= p.push('['));
    lemma_fault_sticks(line, i + 1);
}

/// A line that reads without fault but leaves a bracket open is malformed.
pub proof fn lemma_unterminated(line: Seq<char>)
    requires
        depth_in_bounds(line, line.len() as int),
        depth(line) > 0,
    ensures
        record_of(line) == Err::<Seq<Seq<char>>, LineError>(LineError::MalformedLine),
{
    lemma_no_fault_iff_in_bounds(line);
}

/// A record is empty exactly when its line is: every line that is not empty
/// has at least one field.
pub proof fn lemma_record_empty_iff_line_empty(line: Seq<char>)
    requires
        record_of(line) is Ok,
    ensures
        record_of(line)->Ok_0.len() == 0 <==> line.len() == 0,
{
    lemma_split_nonempty(line);
}

/// A stream yields at most one element for each of its lines, and exactly
/// one for each when none of them is empty.
pub proof fn lemma_one_element_per_line(input: Seq<LineRead>)
    ensures
        elements_of(input).len() <= input.len(),
        (forall|i: int| 0 <= i < input.len() ==> element_of(#[trigger] input[i]) is Some)
            ==> elements_of(input).len() == input.len(),
    decreases input.len(),
{
    if input.len() > 0 {
        let rest = input.drop_first();
        lemma_one_element_per_line(rest);
        if forall|i: int| 0 <= i < input.len() ==> element_of(#[trigger] input[i]) is Some {
            assert forall|i: int| 0 <= i < rest.len() implies element_of(#[trigger] rest[i])
                is Some by {}
        }
    }
}

/// The count of a stream is the maximum over its elements: no element asks
/// for more columns, and unless there is none, one asks for exactly as many.
pub proof fn lemma_widest_is_maximum(elements: Seq<Element>)
    ensures
        forall|i: int|
            0 <= i < elements.len() ==> element_columns(#[trigger] elements[i]) <= widest(
                elements,
            ),
        elements.len() > 0 ==> exists|i: int|
            0 <= i < elements.len() && element_columns(#[trigger] elements[i]) == widest(
                elements,
            ),
    decreases elements.len(),
{
    if elements.len() > 0 {
        let before = elements.drop_last();
        let last = elements.len() - 1;
        lemma_widest_is_maximum(before);
        assert forall|i: int| 0 <= i < elements.len() implies element_columns(
            #[trigger] elements[i],
        ) <= widest(elements) by {
            if i < last {
                assert(before[i] == elements[i]);
            }
        }
        if element_columns(elements[last]) != widest(elements) {
            let i = choose|i: int|
                0 <= i < before.len() && element_columns(#[trigger] before[i]) == widest(before);
            assert(before[i] == elements[i]);
        }
    }
}

/// The count is zero only where there is no record at all: every record
/// takes at least one column.
pub proof fn lemma_zero_count_iff_no_record(elements: Seq<Element>)
    requires
        max_columns(elements) is Ok,
    ensures
        max_columns(elements)->Ok_0 == 0 <==> elements.len() == 0,
{
    lemma_widest_is_maximum(elements);
    if elements.len() > 0 {
        lemma_no_failure_all_records(elements);
    }
}

/// Without a failure, every element is a record.
proof fn lemma_no_failure_all_records(elements: Seq<Element>)
    requires
        first_failure(elements) is None,
    ensures
        forall|i: int| 0 <= i < elements.len() ==> #[trigger] elements[i] is Ok,
    decreases elements.len(),
{
    if elements.len() > 0 {
        let before = elements.drop_last();
        lemma_no_failure_all_records(before);
        assert forall|i: int| 0 <= i < elements.len() implies #[trigger] elements[i] is Ok by {
            if i < before.len() {
                assert(before[i] == elements[i]);
            }
        }
    }
}

/// A run of `n` empty fields.
pub open spec fn empty_fields(n: nat) -> Seq<Seq<char>> {
    Seq::new(n, |i: int| Seq::<char>::empty())
}

/// Behind a text that reads without fault and closes its brackets, each
/// comma appended adds one empty field and nothing else.
pub proof fn lemma_trailing_commas(s: Seq<char>, n: nat)
    requires
        first_fault(s) is None,
        depth(s) == 0,
    ensures
        first_fault(s + commas(n)) is None,
        depth(s + commas(n)) == 0,
        split_fields(s + commas(n)) == split_fields(s) + empty_fields(n),
    decreases n,
{
    if n > 0 {
        let m = (n - 1) as nat;
        lemma_trailing_commas(s, m);
        lemma_push(s + commas(m), ',');
        assert((s + commas(m)).push(',') =~= s + commas(n));
    }
}

/// Every padded line has exactly the target number of fields: the record of
/// a well-formed line, padded to a width that it fits, splits again into the
/// same fields followed by empty ones, `width` in all.
pub proof fn lemma_padded_width(line: Seq<char>, width: nat)
    requires
        record_of(line) is Ok,
        0 < record_of(line)->Ok_0.len() <= width,
    ensures
        record_of(padded(record_of(line)->Ok_0, width)) == Ok::<Seq<Seq<char>>, LineError>(
            record_of(line)->Ok_0 + empty_fields((width - record_of(line)->Ok_0.len()) as nat),
        ),
        record_of(padded(record_of(line)->Ok_0, width))->Ok_0.len() == width,
{
    let fields = record_of(line)->Ok_0;
    let n = (width - fields.len()) as nat;
    lemma_round_trip(line);
    lemma_trailing_commas(line, n);
}

/// The two passes agree: a width counted over a stream is wide enough for
/// every record of that stream, so padding to it refuses none.
pub proof fn lemma_counted_width_fits(elements: Seq<Element>)
    requires
        max_columns(elements) is Ok,
        forall|i: int|
            0 <= i < elements.len() ==> (#[trigger] elements[i] matches Ok(fields)
                ==> fields.len() <= usize::MAX),
    ensures
        pad_failure(elements, max_columns(elements)->Ok_0) is None,
{
    lemma_fits_wider(elements, widest(elements));
}

/// No record is refused by a width that is at least the widest count.
proof fn lemma_fits_wider(elements: Seq<Element>, width: nat)
    requires
        first_failure(elements) is None,
        width >= widest(elements),
        forall|i: int|
            0 <= i < elements.len() ==> (#[trigger] elements[i] matches Ok(fields)
                ==> fields.len() <= usize::MAX),
    ensures
        pad_failure(elements, width) is None,
    decreases elements.len(),
{
    if elements.len() > 0 {
        let before = elements.drop_last();
        assert forall|i: int| 0 <= i < before.len() implies (#[trigger] before[i] matches Ok(
            fields,
        ) ==> fields.len() <= usize::MAX) by {
            assert(before[i] == elements[i]);
        }
        lemma_fits_wider(before, width);
    }
}

} // verus!
