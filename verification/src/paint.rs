use vstd::prelude::*;

use crate::bytes::push_all;
use crate::viewport::{lemma_offset_bounds, seq_len_of, App};
use crate::render::Item;

verus! {

/// The decimal digits of `n`, most significant first, without leading
/// zeros; a single `0` for anything at or below zero.
pub open spec fn dec_rep(n: int) -> Seq<u8>
    decreases n,
{
    if n <= 0 {
        seq![48u8]
    } else if n < 10 {
        seq![(48 + n) as u8]
    } else {
        dec_rep(n / 10) + seq![(48 + n % 10) as u8]
    }
}

/// Append the decimal digits of `n`.
pub fn push_decimal(buf: &mut Vec<u8>, n: usize)
    ensures
        final(buf)@ == old(buf)@ + dec_rep(n as int),
    decreases n,
{
    if n >= 10 {
        push_decimal(buf, n / 10);
    }
    let d: u8 = 48 + (n % 10) as u8;
    buf.push(d);
    proof {
        assert(buf@ =~= old(buf)@ + dec_rep(n as int));
    }
}

/// The two bytes that begin a terminal control sequence.
pub open spec fn csi_prefix() -> Seq<u8> {
    seq![27u8, 91u8]
}

/// The escapes that clear the whole screen and put the cursor at the
/// zero-based (column, row): the clear sequence, then the cursor-position
/// sequence, whose coordinates are encoded one-based, row first.
pub open spec fn clear_home_bytes(column: u16, row: u16) -> Seq<u8> {
    csi_prefix() + seq![50u8, 74u8] + csi_prefix() + dec_rep(row + 1) + seq![59u8] + dec_rep(
        column + 1,
    ) + seq![72u8]
}

/// The escape that moves the cursor right by `cols` columns.
pub open spec fn move_right_bytes(cols: u16) -> Seq<u8> {
    csi_prefix() + dec_rep(cols as int) + seq![67u8]
}

/// The escape that moves the cursor to the start of the row `rows` below.
pub open spec fn next_line_bytes(rows: u16) -> Seq<u8> {
    csi_prefix() + dec_rep(rows as int) + seq![69u8]
}

/// The styling escape the badge opens with: foreground black, background
/// red, both in the 256-color select-graphic-rendition form.
pub open spec fn badge_style_bytes() -> Seq<u8> {
    csi_prefix() + seq![51u8, 56u8, 59u8, 53u8, 59u8, 48u8, 59u8, 52u8, 56u8, 59u8, 53u8, 59u8,
        57u8, 109u8]
}

/// The escape that resets all styling.
pub open spec fn reset_style_bytes() -> Seq<u8> {
    csi_prefix() + seq![48u8, 109u8]
}

/// The styled index badge for an item: the number surrounded by single
/// spaces, black on red, with the styling reset after it.
pub open spec fn badge_bytes(label: int) -> Seq<u8> {
    badge_style_bytes() + seq![32u8] + dec_rep(label) + seq![32u8] + reset_style_bytes()
}

/// Append an item's styled index badge.
pub fn push_badge(buf: &mut Vec<u8>, label: usize)
    ensures
        final(buf)@ == old(buf)@ + badge_bytes(label as int),
{
    let style: Vec<u8> = vec![27u8, 91u8, 51u8, 56u8, 59u8, 53u8, 59u8, 48u8, 59u8, 52u8, 56u8,
        59u8, 53u8, 59u8, 57u8, 109u8];
    proof {
        assert(style@ =~= badge_style_bytes());
    }
    push_all(buf, &style);
    buf.push(32u8);
    push_decimal(buf, label);
    buf.push(32u8);
    let reset: Vec<u8> = vec![27u8, 91u8, 48u8, 109u8];
    proof {
        assert(reset@ =~= reset_style_bytes());
    }
    push_all(buf, &reset);
    proof {
        assert(buf@ =~= old(buf)@ + badge_bytes(label as int));
    }
}

/// Relies on crossterm's `Clear(ClearType::All)` and `MoveTo`: queues the
/// clear-screen escape, then the cursor-position escape, which encodes each
/// zero-based coordinate incremented by one — hence the saturated
/// coordinates, on which that increment would overflow, are excluded.
#[verifier::external_body]
fn queue_clear_home(buf: &mut Vec<u8>, column: u16, row: u16)
    requires
        column < u16::MAX,
        row < u16::MAX,
    ensures
        final(buf)@ == old(buf)@ + clear_home_bytes(column, row),
{
    let _ = crossterm::QueueableCommand::queue(
        buf,
        crossterm::terminal::Clear(crossterm::terminal::ClearType::All),
    );
    let _ = crossterm::QueueableCommand::queue(buf, crossterm::cursor::MoveTo(column, row));
}

/// Relies on crossterm's `MoveRight`: queues the cursor-right escape, the
/// column count in decimal between the control-sequence prefix and `C`.
#[verifier::external_body]
fn queue_move_right(buf: &mut Vec<u8>, cols: u16)
    ensures
        final(buf)@ == old(buf)@ + move_right_bytes(cols),
{
    let _ = crossterm::QueueableCommand::queue(buf, crossterm::cursor::MoveRight(cols));
}

/// Relies on crossterm's `MoveToNextLine`: queues the next-line escape, the
/// row count in decimal between the control-sequence prefix and `E`.
#[verifier::external_body]
fn queue_next_line(buf: &mut Vec<u8>, rows: u16)
    ensures
        final(buf)@ == old(buf)@ + next_line_bytes(rows),
{
    let _ = crossterm::QueueableCommand::queue(buf, crossterm::cursor::MoveToNextLine(rows));
}

/// The selection marker: a triangular glyph and a space.
pub open spec fn marker_bytes() -> Seq<u8> {
    seq![0xe2u8, 0x96u8, 0xb7u8, 0x20u8]
}

/// The bytes one terminal row of the paint holds: on an item's first row,
/// the selection marker (or a cursor skip) and the badge and a space; on a
/// continuation row, only the cursor skip; then the row's bytes verbatim and
/// the move to the next terminal row.
pub open spec fn spec_row_bytes(items: Seq<Item>, selected: int, i: int, s: int) -> Seq<u8> {
    let prefix = if s == 0 {
        (if i == selected {
            marker_bytes()
        } else {
            move_right_bytes(3)
        }) + badge_bytes(i + 1) + seq![32u8]
    } else {
        move_right_bytes(3)
    };
    prefix + items[i].lines@[s]@ + next_line_bytes(1)
}

/// The bytes of up to `rows` terminal rows painted from position `(i, s)`,
/// rolling to the next item when one is exhausted, stopping when the items
/// run out.
pub open spec fn spec_paint_rows(
    items: Seq<Item>,
    selected: int,
    i: int,
    s: int,
    rows: int,
) -> Seq<u8>
    decreases rows,
{
    if rows <= 0 || i >= items.len() {
        Seq::empty()
    } else {
        let roll = s + 1 >= seq_len_of(items, i);
        spec_row_bytes(items, selected, i, s) + spec_paint_rows(
            items,
            selected,
            if roll {
                i + 1
            } else {
                i
            },
            if roll {
                0
            } else {
                s + 1
            },
            rows - 1,
        )
    }
}

/// The whole byte stream of one repaint: clear the screen and home the
/// cursor to the first row and column, then paint from the viewport anchor
/// for up to `height` rows.
pub open spec fn spec_paint(app: App) -> Seq<u8> {
    clear_home_bytes(0, 0) + spec_paint_rows(
        app.items@,
        app.selected_item as int,
        app.first_visible_item as int,
        app.first_visible_subline as int,
        app.height as int,
    )
}

impl App {
    /// Produce the byte stream of one repaint of the viewport.  The caller
    /// writes it to the terminal and flushes.
    pub fn render_to_term(&self) -> (r: Vec<u8>)
        requires
            self.inv(),
        ensures
            r@ == spec_paint(*self),
    {
        let ghost sel = self.selected_item as int;
        let mut buf: Vec<u8> = Vec::new();
        queue_clear_home(&mut buf, 0, 0);
        let mut item = self.first_visible_item;
        let mut subline = self.first_visible_subline;
        let mut row: u16 = 0;
        proof {
            assert(buf@ =~= Seq::<u8>::empty() + clear_home_bytes(0, 0));
            assert(buf@ + spec_paint_rows(
                self.items@,
                sel,
                item as int,
                subline as int,
                self.height - row,
            ) =~= spec_paint(*self));
        }
        while row < self.height && item < self.items.len()
            invariant
                self.inv(),
                sel == self.selected_item as int,
                row <= self.height,
                item <= self.n(),
                item < self.n() ==> subline < self.len_of(item as int),
                item == self.n() ==> subline == 0,
                buf@ + spec_paint_rows(
                    self.items@,
                    sel,
                    item as int,
                    subline as int,
                    self.height - row,
                ) == spec_paint(*self),
            decreases self.height - row,
        {
            let ghost pre = buf@;
            let ghost i0 = item as int;
            let ghost s0 = subline as int;
            proof {
                lemma_offset_bounds(*self, i0);
            }
            if subline == 0 {
                if item == self.selected_item {
                    buf.push(0xe2u8);
                    buf.push(0x96u8);
                    buf.push(0xb7u8);
                    buf.push(0x20u8);
                    proof {
                        assert(buf@ =~= pre + marker_bytes());
                    }
                } else {
                    queue_move_right(&mut buf, 3);
                }
                push_badge(&mut buf, item + 1);
                buf.push(32u8);
            } else {
                queue_move_right(&mut buf, 3);
            }
            let ghost mid = buf@;
            proof {
                if s0 == 0 {
                    if i0 == sel {
                        assert(mid =~= pre + (marker_bytes() + badge_bytes(i0 + 1) + seq![32u8]));
                    } else {
                        assert(mid =~= pre + (move_right_bytes(3) + badge_bytes(i0 + 1)
                            + seq![32u8]));
                    }
                } else {
                    assert(mid =~= pre + move_right_bytes(3));
                }
            }
            push_all(&mut buf, &self.items[item].lines[subline]);
            queue_next_line(&mut buf, 1);
            proof {
                assert(buf@ =~= pre + spec_row_bytes(self.items@, sel, i0, s0));
            }
            subline += 1;
            if subline >= self.items[item].lines.len() {
                item += 1;
                subline = 0;
            }
            row += 1;
            proof {
                assert(spec_paint_rows(self.items@, sel, i0, s0, self.height - row + 1)
                    == spec_row_bytes(self.items@, sel, i0, s0) + spec_paint_rows(
                    self.items@,
                    sel,
                    item as int,
                    subline as int,
                    self.height - row,
                ));
                assert(buf@ + spec_paint_rows(
                    self.items@,
                    sel,
                    item as int,
                    subline as int,
                    self.height - row,
                ) =~= spec_paint(*self));
            }
        }
        proof {
            assert(spec_paint_rows(self.items@, sel, item as int, subline as int, self.height - row)
                =~= Seq::<u8>::empty());
            assert(buf@ =~= spec_paint(*self));
        }
        buf
    }
}

} // verus!
