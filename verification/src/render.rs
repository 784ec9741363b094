use vstd::prelude::*;

use crate::bytes::{find_byte, find_from, lemma_find_from, subvec};
use crate::diag::{build_header, opt_view, spec_header, Diagnostic, Severity, SpanEnd};
use crate::lines::{find_line_end_incl, find_line_start, line_end_incl, line_exists, line_start};

verus! {

/// One rendered diagnostic: an ordered sequence of opaque terminal rows,
/// each holding text and styling escapes.  Always at least one row.
pub struct Item {
    pub lines: Vec<Vec<u8>>,
}

impl Item {
    /// The rows as a sequence of byte sequences.
    pub open spec fn rows(self) -> Seq<Seq<u8>> {
        self.lines@.map_values(|v: Vec<u8>| v@)
    }
}

/// The block of styled bytes that the snippet formatter produces for a
/// report: a function of the report's kind, source id, source text, byte
/// range, header and label alone.  Styling is written unconditionally: the
/// formatter's color switch is a process-global that nothing in this
/// program or its dependencies touches.
pub uninterp spec fn rendered_block(
    severity: Severity,
    path: Seq<u8>,
    contents: Seq<u8>,
    start: int,
    end: int,
    header: Seq<u8>,
    label: Seq<u8>,
) -> Seq<u8>;

/// Whether a byte sequence is well-formed UTF-8: exactly what
/// `str::from_utf8` accepts.
pub uninterp spec fn utf8_valid(s: Seq<u8>) -> bool;

/// Relies on `str::from_utf8`: it accepts exactly the well-formed UTF-8
/// byte sequences, a property of the bytes alone, named `utf8_valid`.
#[verifier::external_body]
fn is_valid_utf8(v: &Vec<u8>) -> (r: bool)
    ensures
        r <==> utf8_valid(v@),
{
    std::str::from_utf8(v).is_ok()
}

/// In well-formed UTF-8, an index at which a character begins: the start,
/// the end, or any position whose byte is not a continuation byte.
pub open spec fn is_char_boundary(s: Seq<u8>, i: int) -> bool {
    i == 0 || i == s.len() || (0 <= i < s.len() && !(128 <= s[i] < 192))
}

/// Relies on `ariadne::Report::write` with an in-memory `ariadne::Source`,
/// configured to read the span as byte offsets: it formats a snippet block
/// from its arguments alone and writes it into the buffer, so the result is
/// named by `rendered_block`.  With default features `ariadne` does no
/// terminal detection, so the block depends on nothing but the report.  The
/// writer slices the source text at the span's offsets, which panics off a
/// character boundary, so the contract admits only well-formed UTF-8 and
/// boundary offsets.  The report kind is the one `ariadne` offers for each
/// severity, advice included.
#[verifier::external_body]
fn render_snippet(
    severity: &Severity,
    path: &Vec<u8>,
    contents: &Vec<u8>,
    start: usize,
    end: usize,
    header: &Vec<u8>,
    label: &Vec<u8>,
) -> (r: Vec<u8>)
    requires
        utf8_valid(contents@),
        start <= end <= contents@.len(),
        is_char_boundary(contents@, start as int),
        is_char_boundary(contents@, end as int),
    ensures
        r@ == rendered_block(*severity, path@, contents@, start as int, end as int, header@,
            label@),
{
    let kind = match severity {
        Severity::Error => ariadne::ReportKind::Error,
        Severity::Warning => ariadne::ReportKind::Warning,
        Severity::Advice => ariadne::ReportKind::Advice,
    };
    let p = String::from_utf8_lossy(path);
    let mut buf: Vec<u8> = Vec::new();
    let _ = ariadne::Report::<(&str, std::ops::Range<usize>)>::build(kind, p.as_ref(), start)
        .with_config(ariadne::Config::default().with_index_type(ariadne::IndexType::Byte))
        .with_message(String::from_utf8_lossy(header))
        .with_label(ariadne::Label::new((p.as_ref(), start..end))
            .with_message(String::from_utf8_lossy(label)))
        .finish()
        .write((p.as_ref(), ariadne::Source::from(String::from_utf8_lossy(contents))), &mut buf);
    buf
}

/// The rows of a rendered block: split at every newline byte, so a block
/// that ends in a newline keeps its empty trailing row, and even an empty
/// block has one (empty) row.
pub open spec fn spec_block_rows(s: Seq<u8>) -> Seq<Seq<u8>>
    decreases s.len(),
    via spec_block_rows_decreases
{
    let k = find_from(s, 0, 10u8);
    if k >= s.len() {
        seq![s]
    } else {
        seq![s.take(k)] + spec_block_rows(s.skip(k + 1))
    }
}

#[via_fn]
proof fn spec_block_rows_decreases(s: Seq<u8>) {
    lemma_find_from(s, 0, 10u8);
}

/// A block always splits into at least one row.
pub proof fn lemma_block_rows_len(s: Seq<u8>)
    ensures
        spec_block_rows(s).len() >= 1,
{
    lemma_find_from(s, 0, 10u8);
}

/// Split a rendered block into its rows.
pub fn split_block_rows(s: &Vec<u8>) -> (r: Vec<Vec<u8>>)
    ensures
        r@.map_values(|v: Vec<u8>| v@) == spec_block_rows(s@),
        r@.len() >= 1,
{
    let mut r: Vec<Vec<u8>> = Vec::new();
    let mut p: usize = 0;
    proof {
        assert(s@.skip(0) =~= s@);
        assert(r@.map_values(|v: Vec<u8>| v@) + spec_block_rows(s@.skip(0)) =~= spec_block_rows(
            s@,
        ));
    }
    loop
        invariant
            p <= s@.len(),
            r@.map_values(|v: Vec<u8>| v@) + spec_block_rows(s@.skip(p as int)) == spec_block_rows(
                s@,
            ),
        decreases s@.len() - p,
    {
        let ghost r_pre = r@.map_values(|v: Vec<u8>| v@);
        let ghost tail = s@.skip(p as int);
        let k = find_byte(s, p, 10u8);
        proof {
            lemma_find_from(s@, p as int, 10u8);
            assert(find_from(tail, 0, 10u8) == k - p) by {
                lemma_find_shift(s@, p as int, k as int);
            }
        }
        if k >= s.len() {
            let seg = subvec(s, p, s.len());
            r.push(seg);
            proof {
                assert(seg@ =~= tail);
                assert(spec_block_rows(tail) =~= seq![tail]);
                assert(r@.map_values(|v: Vec<u8>| v@) =~= r_pre + seq![tail]);
                assert(r_pre + seq![tail] =~= spec_block_rows(s@));
                assert(r@.len() >= 1);
            }
            return r;
        }
        let seg = subvec(s, p, k);
        r.push(seg);
        proof {
            assert(seg@ =~= tail.take(k - p));
            assert(s@.skip(k + 1) =~= tail.skip(k - p + 1));
            assert(spec_block_rows(tail) =~= seq![tail.take(k - p)] + spec_block_rows(
                tail.skip(k - p + 1),
            ));
            assert(r@.map_values(|v: Vec<u8>| v@) =~= r_pre + seq![tail.take(k - p)]);
            assert(r_pre + seq![tail.take(k - p)] + spec_block_rows(s@.skip(k + 1))
                =~= spec_block_rows(s@));
        }
        p = k + 1;
    }
}

/// Searching in a suffix finds the shifted first occurrence.
proof fn lemma_find_shift(s: Seq<u8>, p: int, k: int)
    requires
        0 <= p <= s.len(),
        k == find_from(s, p, 10u8),
    ensures
        find_from(s.skip(p), 0, 10u8) == k - p,
{
    lemma_find_from(s, p, 10u8);
    lemma_find_from(s.skip(p), 0, 10u8);
    let f = find_from(s.skip(p), 0, 10u8);
    if f < k - p {
        assert(s[p + f] == s.skip(p)[f]);
    }
    if k - p < f {
        assert(k < s.len());
        assert(s.skip(p)[k - p] == s[k]);
    }
}

/// The byte offset a diagnostic's start position resolves to.
pub open spec fn spec_start_offset(d: Diagnostic, contents: Seq<u8>) -> int {
    line_start(contents, d.start_line as int) + d.start_character
}

/// The byte offset a diagnostic's end resolves to: an explicit position via
/// the line table, or the end of the start's line, newline included.
pub open spec fn spec_end_offset(d: Diagnostic, contents: Seq<u8>) -> int {
    match d.end {
        SpanEnd::Position { line, character } => line_start(contents, line as int) + character,
        SpanEnd::StartLineEnd => line_end_incl(contents, d.start_line as int),
    }
}

/// A diagnostic can be rendered against `contents`: the text is well-formed
/// UTF-8, its lines exist, and the resolved byte range is ordered, within
/// the text, and on character boundaries.
pub open spec fn render_ok(d: Diagnostic, contents: Seq<u8>) -> bool {
    &&& utf8_valid(contents)
    &&& line_exists(contents, d.start_line as int)
    &&& match d.end {
        SpanEnd::Position { line, character } => line_exists(contents, line as int),
        SpanEnd::StartLineEnd => true,
    }
    &&& 0 <= spec_start_offset(d, contents) <= spec_end_offset(d, contents) <= contents.len()
    &&& is_char_boundary(contents, spec_start_offset(d, contents))
    &&& is_char_boundary(contents, spec_end_offset(d, contents))
}

/// A diagnostic whose positions do not fit its source file.
#[derive(Debug)]
pub struct RenderError {
    pub start_line: usize,
}

/// Render one diagnostic against the bytes of its source file.  Succeeds
/// exactly when the text is well-formed UTF-8 and the positions resolve to
/// an ordered in-bounds byte range on character boundaries; the item's rows
/// are then the split of the formatter's block for that range, with the
/// diagnostic's header and message.  Anything else is a malformed
/// diagnostic, which is fatal.
pub fn render_item(d: &Diagnostic, contents: &Vec<u8>) -> (r: Result<Item, RenderError>)
    ensures
        r is Ok <==> render_ok(*d, contents@),
        r matches Ok(item) ==> item.rows() == spec_block_rows(
            rendered_block(
                d.severity,
                d.file@,
                contents@,
                spec_start_offset(*d, contents@),
                spec_end_offset(*d, contents@),
                spec_header(d.tool, opt_view(d.rule)),
                d.message@,
            ),
        ) && item.lines@.len() >= 1,
{
    let n = contents.len();
    if !is_valid_utf8(contents) {
        return Err(RenderError { start_line: d.start_line });
    }
    let sl = match find_line_start(contents, d.start_line) {
        Some(v) => v,
        None => {
            return Err(RenderError { start_line: d.start_line });
        },
    };
    let start = match sl.checked_add(d.start_character) {
        Some(v) => v,
        None => {
            proof {
                assert(spec_start_offset(*d, contents@) > usize::MAX);
                assert(contents@.len() == n <= usize::MAX);
            }
            return Err(RenderError { start_line: d.start_line });
        },
    };
    let end = match d.end {
        SpanEnd::Position { line, character } => {
            let el = match find_line_start(contents, line) {
                Some(v) => v,
                None => {
                    return Err(RenderError { start_line: d.start_line });
                },
            };
            match el.checked_add(character) {
                Some(v) => v,
                None => {
                    proof {
                        assert(spec_end_offset(*d, contents@) > usize::MAX);
                        assert(contents@.len() == n <= usize::MAX);
                    }
                    return Err(RenderError { start_line: d.start_line });
                },
            }
        },
        SpanEnd::StartLineEnd => find_line_end_incl(contents, sl),
    };
    if !(start <= end && end <= contents.len()) {
        return Err(RenderError { start_line: d.start_line });
    }
    let start_on_boundary = start == 0 || start == n || !(contents[start] >= 128 && contents[start]
        < 192);
    let end_on_boundary = end == 0 || end == n || !(contents[end] >= 128 && contents[end] < 192);
    if !(start_on_boundary && end_on_boundary) {
        return Err(RenderError { start_line: d.start_line });
    }
    let header = build_header(d.tool, &d.rule);
    let block = render_snippet(&d.severity, &d.file, contents, start, end, &header, &d.message);
    let rows = split_block_rows(&block);
    Ok(Item { lines: rows })
}

/// Concatenate the per-adapter item sequences in their fixed order:
/// pyright's items first, flake8's after them.
pub fn render_in_buffer(pyright_items: Vec<Item>, flake8_items: Vec<Item>) -> (r: Vec<Item>)
    ensures
        r@ == pyright_items@ + flake8_items@,
{
    let mut r = pyright_items;
    let mut tail = flake8_items;
    r.append(&mut tail);
    r
}

} // verus!
