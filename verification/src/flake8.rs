use vstd::prelude::*;

use crate::bytes::{find_byte, find_from, lemma_find_from, subvec};
use crate::diag::{AdapterError, Diagnostic, Severity, SpanEnd, Tool};

verus! {

/// A line with its trailing carriage return, if any, removed.
pub open spec fn strip_cr(l: Seq<u8>) -> Seq<u8> {
    if l.len() > 0 && l[l.len() - 1] == 13u8 {
        l.drop_last()
    } else {
        l
    }
}

/// The lines of `s` from byte offset `from` on: split at newline bytes, each
/// line without its terminator, a final newline producing no empty trailing
/// line.
pub open spec fn spec_lines_from(s: Seq<u8>, from: int) -> Seq<Seq<u8>>
    decreases s.len() - from,
    via spec_lines_from_decreases
{
    if from < 0 || from >= s.len() {
        Seq::empty()
    } else {
        let k = find_from(s, from, 10u8);
        if k >= s.len() {
            seq![s.subrange(from, s.len() as int)]
        } else {
            seq![strip_cr(s.subrange(from, k))] + spec_lines_from(s, k + 1)
        }
    }
}

#[via_fn]
proof fn spec_lines_from_decreases(s: Seq<u8>, from: int) {
    if 0 <= from < s.len() {
        lemma_find_from(s, from, 10u8);
    }
}

/// Split tool output into its lines.
pub fn split_output_lines(s: &Vec<u8>) -> (r: Vec<Vec<u8>>)
    ensures
        r@.map_values(|v: Vec<u8>| v@) == spec_lines_from(s@, 0),
{
    let mut r: Vec<Vec<u8>> = Vec::new();
    let mut p: usize = 0;
    while p < s.len()
        invariant
            p <= s@.len(),
            r@.map_values(|v: Vec<u8>| v@) + spec_lines_from(s@, p as int) == spec_lines_from(
                s@,
                0,
            ),
        decreases s@.len() - p,
    {
        let ghost r_pre = r@.map_values(|v: Vec<u8>| v@);
        let k = find_byte(s, p, 10u8);
        if k >= s.len() {
            let seg = subvec(s, p, s.len());
            r.push(seg);
            proof {
                assert(r@.map_values(|v: Vec<u8>| v@) =~= r_pre + seq![s@.subrange(
                    p as int,
                    s@.len() as int,
                )]);
                assert(r_pre + seq![s@.subrange(p as int, s@.len() as int)] + spec_lines_from(
                    s@,
                    s@.len() as int,
                ) =~= spec_lines_from(s@, 0));
            }
            p = s.len();
        } else {
            let seg = if k > p && s[k - 1] == 13u8 {
                subvec(s, p, k - 1)
            } else {
                subvec(s, p, k)
            };
            proof {
                if k > p && s@[k - 1] == 13u8 {
                    assert(s@.subrange(p as int, k - 1) =~= strip_cr(
                        s@.subrange(p as int, k as int),
                    ));
                }
            }
            r.push(seg);
            proof {
                assert(r@.map_values(|v: Vec<u8>| v@) =~= r_pre + seq![strip_cr(
                    s@.subrange(p as int, k as int),
                )]);
                assert(r_pre + seq![strip_cr(s@.subrange(p as int, k as int))] + spec_lines_from(
                    s@,
                    k + 1,
                ) =~= spec_lines_from(s@, 0));
            }
            p = k + 1;
        }
    }
    proof {
        assert(r@.map_values(|v: Vec<u8>| v@) + spec_lines_from(s@, p as int) =~= r@.map_values(
            |v: Vec<u8>| v@,
        ));
    }
    r
}

/// All bytes of `s` are decimal digits.
pub open spec fn is_digits(s: Seq<u8>) -> bool {
    forall|i: int| 0 <= i < s.len() ==> 48 <= #[trigger] s[i] <= 57
}

/// The value of `s` read as a decimal number.
pub open spec fn digits_val(s: Seq<u8>) -> int
    decreases s.len(),
{
    if s.len() == 0 {
        0
    } else {
        digits_val(s.drop_last()) * 10 + (s[s.len() - 1] - 48)
    }
}

proof fn lemma_digits_val_nonneg(s: Seq<u8>)
    requires
        is_digits(s),
    ensures
        digits_val(s) >= 0,
    decreases s.len(),
{
    if s.len() > 0 {
        assert(is_digits(s.drop_last()));
        lemma_digits_val_nonneg(s.drop_last());
    }
}

/// A decimal prefix never exceeds the whole number's value.
proof fn lemma_digits_val_prefix_le(s: Seq<u8>, i: int)
    requires
        is_digits(s),
        0 <= i <= s.len(),
    ensures
        digits_val(s.take(i)) <= digits_val(s),
    decreases s.len() - i,
{
    if i == s.len() {
        assert(s.take(i) =~= s);
    } else {
        assert(s.take(i + 1).drop_last() =~= s.take(i));
        assert(is_digits(s.take(i)));
        lemma_digits_val_nonneg(s.take(i));
        assert(digits_val(s.take(i + 1)) == digits_val(s.take(i)) * 10 + (s[i] - 48));
        lemma_digits_val_prefix_le(s, i + 1);
    }
}

/// Read the byte range `[a, b)` of `s` as a decimal number.  Succeeds exactly
/// on a non-empty all-digit range whose value fits the machine word.
pub fn parse_usize_range(s: &Vec<u8>, a: usize, b: usize) -> (r: Option<usize>)
    requires
        a <= b <= s@.len(),
    ensures
        r is Some <==> (a < b && is_digits(s@.subrange(a as int, b as int)) && digits_val(
            s@.subrange(a as int, b as int),
        ) <= usize::MAX),
        r matches Some(v) ==> v == digits_val(s@.subrange(a as int, b as int)),
{
    let ghost whole = s@.subrange(a as int, b as int);
    if a == b {
        return None;
    }
    let mut acc: usize = 0;
    let mut i = a;
    while i < b
        invariant
            a <= i <= b <= s@.len(),
            whole == s@.subrange(a as int, b as int),
            is_digits(whole.take(i - a)),
            acc == digits_val(whole.take(i - a)),
        decreases b - i,
    {
        let d = s[i];
        proof {
            assert(whole[i - a] == s@[i as int]);
        }
        if d < 48 || d > 57 {
            proof {
                assert(!is_digits(whole));
            }
            return None;
        }
        proof {
            assert(whole.take(i - a + 1).drop_last() =~= whole.take(i - a));
            assert(whole.take(i - a + 1).last() == whole[i - a]);
            assert(digits_val(whole.take(i - a + 1)) == acc * 10 + (d - 48));
        }
        let dd = (d - 48) as usize;
        let step = match acc.checked_mul(10) {
            Some(m) => m.checked_add(dd),
            None => None,
        };
        match step {
            Some(v) => {
                acc = v;
            },
            None => {
                proof {
                    assert(digits_val(whole.take(i - a + 1)) > usize::MAX);
                    assert(is_digits(whole.take(i - a + 1)));
                    if is_digits(whole) {
                        lemma_digits_val_prefix_le(whole, i - a + 1);
                        assert(whole.take(i - a + 1) =~= whole.take(i - a + 1));
                        assert(digits_val(whole) >= digits_val(whole.take(i - a + 1)));
                    }
                }
                return None;
            },
        }
        i += 1;
    }
    proof {
        assert(whole.take(b - a) =~= whole);
    }
    Some(acc)
}

/// The severity a flake8 code prefix letter stands for: `E` and `F` are
/// errors, `W` and `N` warnings, `C` advice, anything else unknown.
pub open spec fn sev_of_prefix(b: u8) -> Option<Severity> {
    if b == 69u8 || b == 70u8 {
        Some(Severity::Error)
    } else if b == 87u8 || b == 78u8 {
        Some(Severity::Warning)
    } else if b == 67u8 {
        Some(Severity::Advice)
    } else {
        None
    }
}

/// Map a flake8 code prefix letter to a severity.
pub fn severity_of_prefix(b: u8) -> (r: Option<Severity>)
    ensures
        r == sev_of_prefix(b),
{
    if b == 69u8 || b == 70u8 {
        Some(Severity::Error)
    } else if b == 87u8 || b == 78u8 {
        Some(Severity::Warning)
    } else if b == 67u8 {
        Some(Severity::Advice)
    } else {
        None
    }
}

/// Offset of the first colon of `l`.
pub open spec fn colon1(l: Seq<u8>) -> int {
    find_from(l, 0, 58u8)
}

/// Offset of the second colon of `l`.
pub open spec fn colon2(l: Seq<u8>) -> int {
    find_from(l, colon1(l) + 1, 58u8)
}

/// Offset of the third colon of `l`.
pub open spec fn colon3(l: Seq<u8>) -> int {
    find_from(l, colon2(l) + 1, 58u8)
}

/// What follows the third colon: a space, the four-character code, a space,
/// and the message.
pub open spec fn rest_of(l: Seq<u8>) -> Seq<u8> {
    l.subrange(colon3(l) + 1, l.len() as int)
}

/// The line has the shape `PATH:ROW:COL: CODE MESSAGE`: three colons, the row
/// and column non-empty decimal numbers that fit the machine word, both
/// one-based (so at least 1), room for the code after the third colon, and a
/// code prefix letter naming a severity.
pub open spec fn parse_line_ok(l: Seq<u8>) -> bool {
    &&& colon1(l) < l.len()
    &&& colon2(l) < l.len()
    &&& colon3(l) < l.len()
    &&& is_digits(l.subrange(colon1(l) + 1, colon2(l)))
    &&& colon1(l) + 1 < colon2(l)
    &&& 1 <= digits_val(l.subrange(colon1(l) + 1, colon2(l))) <= usize::MAX
    &&& is_digits(l.subrange(colon2(l) + 1, colon3(l)))
    &&& colon2(l) + 1 < colon3(l)
    &&& 1 <= digits_val(l.subrange(colon2(l) + 1, colon3(l))) <= usize::MAX
    &&& rest_of(l).len() >= 6
    &&& sev_of_prefix(rest_of(l)[1]) is Some
}

/// The diagnostic `d` is the normalization of the flake8 output line `l`:
/// the path before the first colon, one-based row and column converted to
/// zero-based, severity from the code's prefix letter, the message after the
/// code, and a range that runs to the end of the row's line.
pub open spec fn diag_matches_flake8(d: Diagnostic, l: Seq<u8>) -> bool {
    &&& d.file@ == l.subrange(0, colon1(l))
    &&& Some(d.severity) == sev_of_prefix(rest_of(l)[1])
    &&& d.message@ == rest_of(l).skip(6)
    &&& d.start_line == digits_val(l.subrange(colon1(l) + 1, colon2(l))) - 1
    &&& d.start_character == digits_val(l.subrange(colon2(l) + 1, colon3(l))) - 1
    &&& d.end == SpanEnd::StartLineEnd
    &&& d.rule is None
    &&& d.tool == Tool::Flake8
}

/// Parse one flake8 output line; `None` exactly when it is malformed.
pub fn parse_flake8_line(l: &Vec<u8>) -> (r: Option<Diagnostic>)
    ensures
        r is Some <==> parse_line_ok(l@),
        r matches Some(d) ==> diag_matches_flake8(d, l@),
{
    let n = l.len();
    let p1 = find_byte(l, 0, 58u8);
    if p1 >= n {
        return None;
    }
    let p2 = find_byte(l, p1 + 1, 58u8);
    if p2 >= n {
        return None;
    }
    let p3 = find_byte(l, p2 + 1, 58u8);
    if p3 >= n {
        return None;
    }
    let row = match parse_usize_range(l, p1 + 1, p2) {
        Some(v) => v,
        None => {
            return None;
        },
    };
    let col = match parse_usize_range(l, p2 + 1, p3) {
        Some(v) => v,
        None => {
            return None;
        },
    };
    if row == 0 || col == 0 {
        return None;
    }
    if n - (p3 + 1) < 6 {
        proof {
            assert(rest_of(l@).len() < 6);
        }
        return None;
    }
    let severity = match severity_of_prefix(l[p3 + 2]) {
        Some(sv) => {
            proof {
                assert(rest_of(l@)[1] == l@[p3 + 2]);
            }
            sv
        },
        None => {
            proof {
                assert(rest_of(l@)[1] == l@[p3 + 2]);
            }
            return None;
        },
    };
    let file = subvec(l, 0, p1);
    let message = subvec(l, p3 + 7, n);
    proof {
        assert(message@ =~= rest_of(l@).skip(6));
    }
    Some(
        Diagnostic {
            file,
            severity,
            message,
            start_line: row - 1,
            start_character: col - 1,
            end: SpanEnd::StartLineEnd,
            rule: None,
            tool: Tool::Flake8,
        },
    )
}

/// Parse flake8's whole standard output.  Succeeds exactly when every line is
/// well-formed; empty output yields an empty sequence.  On failure, names the
/// first offending line and carries its bytes.
pub fn flake8_diagnostics(out: &Vec<u8>) -> (r: Result<Vec<Diagnostic>, AdapterError>)
    ensures
        r is Ok <==> (forall|i: int|
            0 <= i < spec_lines_from(out@, 0).len() ==> parse_line_ok(
                #[trigger] spec_lines_from(out@, 0)[i],
            )),
        r matches Ok(ds) ==> ds@.len() == spec_lines_from(out@, 0).len() && (forall|i: int|
            0 <= i < ds@.len() ==> diag_matches_flake8(
                #[trigger] ds@[i],
                spec_lines_from(out@, 0)[i],
            )),
        r matches Err(e) ==> (e matches AdapterError::MalformedLine { index, line } && index
            < spec_lines_from(out@, 0).len() && !parse_line_ok(
            spec_lines_from(out@, 0)[index as int],
        ) && line@ == spec_lines_from(out@, 0)[index as int] && (forall|j: int|
            0 <= j < index ==> parse_line_ok(#[trigger] spec_lines_from(out@, 0)[j]))),
{
    let lines = split_output_lines(out);
    let ghost lv = spec_lines_from(out@, 0);
    let mut ds: Vec<Diagnostic> = Vec::new();
    let mut i: usize = 0;
    while i < lines.len()
        invariant
            i <= lines@.len(),
            lines@.map_values(|v: Vec<u8>| v@) == lv,
            lv == spec_lines_from(out@, 0),
            ds@.len() == i,
            forall|j: int| 0 <= j < i ==> parse_line_ok(#[trigger] lv[j]),
            forall|j: int| 0 <= j < i ==> diag_matches_flake8(#[trigger] ds@[j], lv[j]),
        decreases lines@.len() - i,
    {
        proof {
            assert(lines@[i as int]@ == lv[i as int]);
        }
        match parse_flake8_line(&lines[i]) {
            Some(d) => {
                ds.push(d);
            },
            None => {
                let line = subvec(&lines[i], 0, lines[i].len());
                proof {
                    assert(line@ =~= lv[i as int]);
                }
                return Err(AdapterError::MalformedLine { index: i, line });
            },
        }
        i += 1;
    }
    Ok(ds)
}

} // verus!
