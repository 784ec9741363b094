use vstd::prelude::*;

use crate::bytes::{find_byte, find_from, lemma_find_from};

verus! {

/// Byte offset at which line `l` (zero-based) starts: lines are separated by
/// the newline byte, and a line starts right after the newline that ends its
/// predecessor. When the text runs out before line `l`, the offset saturates
/// at the text's length.
pub open spec fn line_start(s: Seq<u8>, l: int) -> int
    decreases l,
{
    if l <= 0 {
        0
    } else {
        let e = find_from(s, line_start(s, l - 1), 10u8);
        if e < s.len() {
            e + 1
        } else {
            s.len() as int
        }
    }
}

/// Line `l` exists when its start offset lies strictly inside the text.
/// A text that ends in a newline has no extra empty line after it, and an
/// empty text has no lines at all.
pub open spec fn line_exists(s: Seq<u8>, l: int) -> bool {
    0 <= l && line_start(s, l) < s.len()
}

/// Byte offset one past the end of line `l`, including the newline that ends
/// it; on a final line without a newline, the text's length.
pub open spec fn line_end_incl(s: Seq<u8>, l: int) -> int {
    let k = find_from(s, line_start(s, l), 10u8);
    if k < s.len() {
        k + 1
    } else {
        k
    }
}

/// Once the start offset has reached the end of the text it stays there.
pub proof fn lemma_line_start_saturates(s: Seq<u8>, a: int, b: int)
    requires
        0 <= a <= b,
        line_start(s, a) == s.len(),
    ensures
        line_start(s, b) == s.len(),
    decreases b - a,
{
    if a < b {
        lemma_line_start_saturates(s, a + 1, b);
    }
}

/// Byte offset of the start of line `l`, or `None` when the text has no such
/// line.
pub fn find_line_start(s: &Vec<u8>, l: usize) -> (r: Option<usize>)
    ensures
        match r {
            Some(v) => v == line_start(s@, l as int) && line_exists(s@, l as int),
            None => !line_exists(s@, l as int),
        },
{
    let mut start: usize = 0;
    let mut i: usize = 0;
    while i < l
        invariant
            i <= l,
            start == line_start(s@, i as int),
            start <= s@.len(),
        decreases l - i,
    {
        proof {
            lemma_find_from(s@, start as int, 10u8);
        }
        let e = find_byte(s, start, 10u8);
        if e >= s.len() {
            proof {
                lemma_line_start_saturates(s@, i + 1, l as int);
            }
            return None;
        }
        start = e + 1;
        i += 1;
    }
    if start >= s.len() {
        None
    } else {
        Some(start)
    }
}

/// Byte offset one past the end of line `l`, including its newline.
pub fn find_line_end_incl(s: &Vec<u8>, start: usize) -> (r: usize)
    requires
        start <= s@.len(),
    ensures
        forall|l: int| line_start(s@, l) == start ==> r == line_end_incl(s@, l),
        start <= r <= s@.len(),
{
    proof {
        lemma_find_from(s@, start as int, 10u8);
    }
    let k = find_byte(s, start, 10u8);
    if k < s.len() {
        k + 1
    } else {
        k
    }
}

} // verus!
