//! Facts about the model that the scanner's proofs rest on.

use vstd::prelude::*;
use crate::error::LineError;
use crate::model::{
    bracket_delta, cell_end, depth, fault_at, fields_of, first_cell, first_fault, is_separator,
    separator_from, split_fields,
};

verus! {

/// Depth is additive over concatenation.
pub proof fn lemma_depth_concat(a: Seq<char>, b: Seq<char>)
    ensures
        depth(a + b) == depth(a) + depth(b),
    decreases b.len(),
{
    if b.len() > 0 {
        assert((a + b).drop_last() =~= a + b.drop_last());
        lemma_depth_concat(a, b.drop_last());
    }
}

/// Reading one more character: how depth, the first fault and the fields of
/// `s.push(c)` follow from those of `s`.
pub proof fn lemma_push(s: Seq<char>, c: char)
    ensures
        depth(s.push(c)) == depth(s) + bracket_delta(c),
        first_fault(s.push(c)) == if first_fault(s) is Some {
            first_fault(s)
        } else {
            fault_at(depth(s), c)
        },
        split_fields(s.push(c)) == if c == ',' && depth(s) == 0 {
            split_fields(s).push(Seq::empty())
        } else {
            split_fields(s).drop_last().push(split_fields(s).last().push(c))
        },
{
    assert(s.push(c).drop_last() =~= s);
}

/// A fault, once met, is the fault of every longer text.
pub proof fn lemma_fault_sticks(s: Seq<char>, k: int)
    requires
        0 <= k <= s.len(),
        first_fault(s.take(k)) is Some,
    ensures
        first_fault(s) == first_fault(s.take(k)),
    decreases s.len() - k,
{
    if k == s.len() {
        assert(s.take(k) =~= s);
    } else {
        assert(s.take(k + 1) =~= s.take(k).push(s[k]));
        lemma_push(s.take(k), s[k]);
        lemma_fault_sticks(s, k + 1);
    }
}

/// Behind a text that reads without fault and closes every bracket it opens,
/// faults are those of what follows.
pub proof fn lemma_fault_after_balanced(a: Seq<char>, b: Seq<char>)
    requires
        first_fault(a) is None,
        depth(a) == 0,
    ensures
        first_fault(a + b) == first_fault(b),
    decreases b.len(),
{
    if b.len() > 0 {
        assert((a + b).drop_last() =~= a + b.drop_last());
        lemma_fault_after_balanced(a, b.drop_last());
        lemma_depth_concat(a, b.drop_last());
    }
}

/// Every text has at least one field.
pub proof fn lemma_split_nonempty(s: Seq<char>)
    ensures
        split_fields(s).len() >= 1,
    decreases s.len(),
{
    if s.len() > 0 {
        lemma_split_nonempty(s.drop_last());
    }
}

/// A text without separators is one field.
pub proof fn lemma_single_field(s: Seq<char>)
    requires
        forall|i: int| 0 <= i < s.len() ==> !is_separator(s, i),
    ensures
        split_fields(s) == seq![s],
    decreases s.len(),
{
    if s.len() == 0 {
        assert(Seq::<char>::empty() =~= s);
    } else {
        let p = s.drop_last();
        assert forall|i: int| 0 <= i < p.len() implies !is_separator(p, i) by {
            assert(!is_separator(s, i));
            assert(p.take(i) =~= s.take(i));
        }
        lemma_single_field(p);
        assert(!is_separator(s, s.len() - 1));
        assert(p.push(s.last()) =~= s);
    }
}

/// Behind a first field `p` and its separator, the fields are `p` followed
/// by the fields of the rest.
pub proof fn lemma_split_after_separator(p: Seq<char>, b: Seq<char>)
    requires
        depth(p) == 0,
        forall|i: int| 0 <= i < p.len() ==> !is_separator(p, i),
    ensures
        split_fields(p.push(',') + b) == seq![p] + split_fields(b),
    decreases b.len(),
{
    let a = p.push(',');
    lemma_push(p, ',');
    if b.len() == 0 {
        lemma_single_field(p);
    } else {
        let b0 = b.drop_last();
        assert((a + b).drop_last() =~= a + b0);
        lemma_split_after_separator(p, b0);
        lemma_depth_concat(a, b0);
        lemma_split_nonempty(b0);
    }
}

/// What `separator_from` finds: nothing before it is a separator, and it is
/// one itself unless it is the end of the text.
pub proof fn lemma_separator_from(s: Seq<char>, i: int)
    requires
        0 <= i <= s.len(),
    ensures
        i <= separator_from(s, i) <= s.len(),
        forall|j: int| i <= j < separator_from(s, i) ==> !is_separator(s, j),
        separator_from(s, i) < s.len() ==> is_separator(s, separator_from(s, i)),
    decreases s.len() - i,
{
    if i < s.len() && !is_separator(s, i) {
        lemma_separator_from(s, i + 1);
    }
}

/// The first field ends at `k` when no separator stands before `k` and `k`
/// is a separator or the end of the text.
pub proof fn lemma_cell_end_is(s: Seq<char>, k: int)
    requires
        0 <= k <= s.len(),
        forall|j: int| 0 <= j < k ==> !is_separator(s, j),
        k < s.len() ==> is_separator(s, k),
    ensures
        cell_end(s) == k,
{
    lemma_separator_from(s, 0);
}

/// The fields of a text, taken apart at its first field: a failure inside
/// the first field is the failure of the whole; a first field that runs to
/// the end is the only one; otherwise the rest contributes its own fields
/// or its own failure.
pub proof fn lemma_fields_by_first_cell(s: Seq<char>)
    ensures
        match first_cell(s) {
            Err(e) => fields_of(s) == Err::<Seq<Seq<char>>, _>(e),
            Ok((cell, None)) => fields_of(s) == Ok::<_, LineError>(seq![cell]),
            Ok((cell, Some(rest))) => fields_of(s) == match fields_of(rest) {
                Err(e) => Err(e),
                Ok(more) => Ok(seq![cell] + more),
            },
        },
{
    lemma_separator_from(s, 0);
    let k = cell_end(s);
    let cell = s.take(k);
    if first_fault(cell) is Some {
        lemma_fault_sticks(s, k);
    } else if k == s.len() {
        assert(cell =~= s);
        if depth(s) == 0 {
            lemma_single_field(s);
        }
    } else {
        let rest = s.skip(k + 1);
        assert(s =~= cell.push(',') + rest);
        assert forall|i: int| 0 <= i < cell.len() implies !is_separator(cell, i) by {
            assert(!is_separator(s, i));
            assert(cell.take(i) =~= s.take(i));
        }
        lemma_push(cell, ',');
        lemma_fault_after_balanced(cell.push(','), rest);
        lemma_depth_concat(cell.push(','), rest);
        lemma_split_after_separator(cell, rest);
    }
}

} // verus!
