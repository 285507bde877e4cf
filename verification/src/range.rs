//! Coercion of a requested byte range onto a text of a given byte length.
//!
//! A request is a pair of bounds over `usize` offsets, its start and its end:
//! the form of a range that holds every other. It may be open at either side,
//! inverted, or lie wholly outside the text. Coercion never fails: it answers
//! with the inclusive pair of offsets that the request and the text have in
//! common, or with `None` where they have none.

use std::ops::Bound;
use vstd::prelude::*;

verus! {

/// `std::ops::Bound`, an end of a requested range. Nothing is assumed of it:
/// its three variants are read as std declares them.
#[verifier::external_type_specification]
#[verifier::reject_recursive_types(T)]
pub struct ExBound<T>(Bound<T>);

/// The least offset that a range starting at `start` holds.
pub open spec fn first_offset(start: Bound<usize>) -> int {
    match start {
        Bound::Included(s) => s as int,
        Bound::Excluded(s) => s + 1,
        Bound::Unbounded => 0,
    }
}

/// The greatest offset that a range ending at `end` holds, where it has one:
/// `None` stands for a range without an upper end.
pub open spec fn last_offset(end: Bound<usize>) -> Option<int> {
    match end {
        Bound::Included(e) => Some(e as int),
        Bound::Excluded(e) => Some(e - 1),
        Bound::Unbounded => None,
    }
}

/// Whether `range` holds the offset `i`.
pub open spec fn range_holds(range: (Bound<usize>, Bound<usize>), i: int) -> bool {
    &&& first_offset(range.0) <= i
    &&& match last_offset(range.1) {
        Some(e) => i <= e,
        None => true,
    }
}

/// The greatest offset of a text of `len` bytes that a range ending at `end`
/// holds; `-1` where the text is empty or the range ends before offset 0.
pub open spec fn clamped_last_offset(len: int, end: Bound<usize>) -> int {
    match last_offset(end) {
        Some(e) if e < len - 1 => e,
        _ => len - 1,
    }
}

/// The inclusive pair of offsets that `range` has in common with a text of
/// `len` bytes, or `None` where they share no offset.
pub open spec fn coerced(len: int, range: (Bound<usize>, Bound<usize>)) -> Option<(int, int)> {
    let first = first_offset(range.0);
    let last = clamped_last_offset(len, range.1);
    if first <= last {
        Some((first, last))
    } else {
        None
    }
}

/// Coerces `range` onto a text of `len` bytes.
///
/// An exclusive start is moved up by one and an exclusive end down by one;
/// where that would leave `usize`, the range holds no offset and the answer is
/// `None`. The end is clamped to `len - 1`. No input is refused.
pub fn coerce(len: usize, range: (Bound<usize>, Bound<usize>)) -> (r: Option<(usize, usize)>)
    ensures
        match coerced(len as int, range) {
            Some((first, last)) => r == Some((first as usize, last as usize)),
            None => r is None,
        },
        r matches Some((first, last)) ==> first <= last < len,
{
    if len == 0 {
        return None;
    }
    let (start, end) = range;
    let first: usize = match start {
        Bound::Included(s) => s,
        Bound::Excluded(s) => {
            if s == usize::MAX {
                return None;
            } else {
                s + 1
            }
        },
        Bound::Unbounded => 0,
    };
    let requested_last: usize = match end {
        Bound::Included(e) => e,
        Bound::Excluded(e) => {
            if e == 0 {
                return None;
            } else {
                e - 1
            }
        },
        Bound::Unbounded => usize::MAX,
    };
    let last: usize = if requested_last < len - 1 {
        requested_last
    } else {
        len - 1
    };
    if len <= first || last < first {
        None
    } else {
        Some((first, last))
    }
}

/// Coercion is intersection: an offset lies within the coerced pair if and
/// only if it is an offset of the text and the requested range holds it.
pub proof fn lemma_coerced_is_intersection(len: int, range: (Bound<usize>, Bound<usize>), i: int)
    requires
        0 <= len,
    ensures
        (0 <= i < len && range_holds(range, i)) <==> (coerced(len, range) matches Some(
            (first, last),
        ) && first <= i <= last),
{
}

/// A text without bytes has no valid range, whatever is requested.
pub proof fn lemma_coerced_empty(range: (Bound<usize>, Bound<usize>))
    ensures
        coerced(0, range) is None,
{
}

/// A coerced pair lies within the text and is not inverted.
pub proof fn lemma_coerced_in_bounds(len: int, range: (Bound<usize>, Bound<usize>))
    requires
        0 <= len,
    ensures
        coerced(len, range) matches Some((first, last)) ==> 0 <= first <= last < len,
{
}

} // verus!
