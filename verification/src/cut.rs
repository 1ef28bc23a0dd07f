//! Where a substring of one byte string starts and ends.

use vstd::math::{max, min};
use vstd::prelude::*;

verus! {

/// The first byte of the substring of a string of `n` bytes. A `start` that is not negative counts from the
/// front, a negative one from the back, and both stop at the ends of the string.
pub open spec fn cut_start(n: int, start: int) -> int {
    if start >= 0 {
        min(start, n)
    } else {
        max(n + start, 0)
    }
}

/// One past the last byte of the substring of a string of `n` bytes: `length` bytes behind its start, or the
/// end of the string where that comes first or where no length is given.
pub open spec fn cut_end(n: int, start: int, length: Option<u64>) -> int {
    match length {
        Some(l) => min(cut_start(n, start) + l, n),
        None => n,
    }
}

/// The substring of `s` that starts at `start` and has at most `length` bytes.
pub open spec fn cut(s: Seq<u8>, start: int, length: Option<u64>) -> Seq<u8> {
    s.subrange(cut_start(s.len() as int, start), cut_end(s.len() as int, start, length))
}

/// The substring of an element that may be null. A null element has a null substring.
pub open spec fn cut_element(e: Option<Seq<u8>>, start: int, length: Option<u64>) -> Option<
    Seq<u8>,
> {
    match e {
        Some(s) => Some(cut(s, start, length)),
        None => None,
    }
}

/// The substrings of all elements of a sequence.
pub open spec fn cut_elements(
    elements: Seq<Option<Seq<u8>>>,
    start: int,
    length: Option<u64>,
) -> Seq<Option<Seq<u8>>> {
    Seq::new(elements.len(), |i: int| cut_element(elements[i], start, length))
}

/// Computes both ends of the substring of a string of `n` bytes.
pub fn cut_bounds(n: usize, start: i64, length: Option<u64>) -> (r: (usize, usize))
    ensures
        r.0 == cut_start(n as int, start as int),
        r.1 == cut_end(n as int, start as int, length),
        r.0 <= r.1 <= n,
        start >= 0 ==> r.0 == start || (r.0 == n && start >= n),
        start < 0 ==> n - r.0 == -start || (r.0 == 0 && -start >= n),
        length is None ==> r.1 == n,
        length matches Some(l) ==> r.1 - r.0 == l || (r.1 == n && n - r.0 <= l),
{
    let first: usize = if start >= 0 {
        if (start as u64) < (n as u64) {
            start as usize
        } else {
            n
        }
    } else {
        // `-start` itself overflows for the least `start`.
        let back: u64 = (-(start + 1)) as u64 + 1;
        if back < n as u64 {
            n - back as usize
        } else {
            0
        }
    };
    let last: usize = match length {
        Some(l) => if l < (n - first) as u64 {
            first + l as usize
        } else {
            n
        },
        None => n,
    };
    (first, last)
}

} // verus!
