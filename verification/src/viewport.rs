use vstd::prelude::*;

use crate::render::Item;

verus! {

/// Room kept above the total line count so that viewport arithmetic (an
/// offset plus a terminal height) never overflows the machine word.
pub open spec fn height_headroom() -> int {
    65536
}

/// The interactive viewer's whole state: the rendered items, the prefix-sum
/// table of their row counts, and the viewport anchored at
/// `(first_visible_item, first_visible_subline)` with one selected item.
pub struct App {
    pub items: Vec<Item>,
    pub line_offsets: Vec<usize>,
    pub first_visible_item: usize,
    pub first_visible_subline: usize,
    pub selected_item: usize,
    pub width: u16,
    pub height: u16,
}

/// Row count of item `i` of a sequence of items.
pub open spec fn seq_len_of(items: Seq<Item>, i: int) -> int {
    items[i].lines@.len() as int
}

/// Entry `i` of an offset table.
pub open spec fn seq_off(offs: Seq<usize>, i: int) -> int {
    offs[i] as int
}

/// The offset table is the prefix sum of the items' row counts.
pub open spec fn seq_offsets_wf(offs: Seq<usize>, items: Seq<Item>) -> bool {
    &&& offs.len() == items.len()
    &&& (items.len() > 0 ==> seq_off(offs, 0) == 0)
    &&& forall|i: int| 1 <= i < items.len() ==> #[trigger] seq_off(offs, i) == seq_off(offs, i - 1)
        + seq_len_of(items, i - 1)
}

/// Every item of the sequence has at least one row.
pub open spec fn all_items_nonempty(items: Seq<Item>) -> bool {
    forall|i: int| 0 <= i < items.len() ==> #[trigger] seq_len_of(items, i) >= 1
}

impl App {
    /// Number of items.
    pub open spec fn n(self) -> int {
        self.items@.len() as int
    }

    /// Number of rows of item `i`.
    pub open spec fn len_of(self, i: int) -> int {
        seq_len_of(self.items@, i)
    }

    /// Global row offset at which item `i` starts.
    pub open spec fn off(self, i: int) -> int {
        seq_off(self.line_offsets@, i)
    }

    /// Total number of rows over all items.
    pub open spec fn total(self) -> int {
        if self.n() == 0 {
            0
        } else {
            self.off(self.n() - 1) + self.len_of(self.n() - 1)
        }
    }

    /// The offset table is the prefix sum of the items' row counts.
    pub open spec fn offsets_wf(self) -> bool {
        seq_offsets_wf(self.line_offsets@, self.items@)
    }

    /// Every item has at least one row.
    pub open spec fn items_wf(self) -> bool {
        all_items_nonempty(self.items@)
    }

    /// Selection and viewport anchor are in bounds.
    pub open spec fn sel_wf(self) -> bool {
        if self.n() == 0 {
            self.selected_item == 0 && self.first_visible_item == 0 && self.first_visible_subline
                == 0
        } else {
            &&& self.selected_item < self.n()
            &&& self.first_visible_item < self.n()
            &&& self.first_visible_subline < self.len_of(self.first_visible_item as int)
        }
    }

    /// The structural invariant every operation preserves.
    pub open spec fn inv(self) -> bool {
        &&& self.offsets_wf()
        &&& self.items_wf()
        &&& self.sel_wf()
        &&& self.total() + height_headroom() <= usize::MAX
        &&& self.height >= 1
    }

    /// The selection is never above the viewport, and when the viewport
    /// starts at the selected item it starts at its first row.
    pub open spec fn v2(self) -> bool {
        &&& self.first_visible_item <= self.selected_item
        &&& (self.first_visible_item == self.selected_item ==> self.first_visible_subline == 0)
    }

    /// The selected item's last row lies no further down than the last
    /// visible row of the viewport.
    pub open spec fn v1(self) -> bool {
        self.n() > 0 ==> self.off(self.selected_item as int) + self.len_of(
            self.selected_item as int,
        ) - 1 <= self.off(self.first_visible_item as int) + self.first_visible_subline
            + self.height - 1
    }

    /// Every item fits the viewport's height.  The visibility guarantees
    /// hold under this proviso: an item taller than the terminal cannot be
    /// wholly on screen.
    pub open spec fn fits(self) -> bool {
        forall|i: int| 0 <= i < self.n() ==> #[trigger] seq_len_of(self.items@, i) <= self.height
    }
}

/// Offsets grow by at least one per item, so an item's start is at least its
/// index, and its rows end within the total.
pub proof fn lemma_offset_bounds(app: App, i: int)
    requires
        app.offsets_wf(),
        app.items_wf(),
        0 <= i < app.n(),
    ensures
        i <= app.off(i),
        app.off(i) + app.len_of(i) <= app.total(),
    decreases app.n() - i,
{
    lemma_off_mono(app, 0, i);
    if i < app.n() - 1 {
        lemma_off_mono(app, i + 1, app.n() - 1);
    }
}

/// Between two items, the start offset grows by at least their distance.
pub proof fn lemma_off_mono(app: App, i: int, j: int)
    requires
        app.offsets_wf(),
        app.items_wf(),
        0 <= i <= j < app.n(),
    ensures
        app.off(i) + (j - i) <= app.off(j),
    decreases j - i,
{
    if i < j {
        lemma_off_mono(app, i, j - 1);
        assert(app.off(j) == app.off(j - 1) + app.len_of(j - 1));
    }
}

/// Total rows of a sequence of items.
pub open spec fn spec_total_lines(items: Seq<Item>) -> int
    decreases items.len(),
{
    if items.len() == 0 {
        0
    } else {
        spec_total_lines(items.drop_last()) + items.last().lines@.len()
    }
}

proof fn lemma_total_lines_prefix_le(items: Seq<Item>, i: int)
    requires
        0 <= i <= items.len(),
    ensures
        spec_total_lines(items.take(i)) <= spec_total_lines(items),
    decreases items.len() - i,
{
    if i == items.len() {
        assert(items.take(i) =~= items);
    } else {
        assert(items.take(i + 1).drop_last() =~= items.take(i));
        assert(spec_total_lines(items.take(i + 1)) == spec_total_lines(items.take(i))
            + items[i].lines@.len());
        lemma_total_lines_prefix_le(items, i + 1);
    }
}

/// The selection after a downward move: one further, unless already at the
/// last item (then the move is a no-op).
pub open spec fn sel_after_down(sel: int, n: int) -> int {
    if sel + 1 < n {
        sel + 1
    } else {
        sel
    }
}

/// The selection after an upward move: one back, unless already at the
/// first item.
pub open spec fn sel_after_up(sel: int) -> int {
    if sel > 0 {
        sel - 1
    } else {
        0
    }
}

/// Moving down and then up restores the selection to its prior value,
/// provided the downward move had an item to move to.  The viewport is not
/// rewound: only the selection is restored.
pub proof fn lemma_down_then_up_restores_selection(sel: int, n: int)
    requires
        0 <= sel,
        sel + 1 < n,
    ensures
        sel_after_up(sel_after_down(sel, n)) == sel,
{
}

/// Everything one upward move guarantees of the state before and after it:
/// `move_up` ensures this relation between its old and new state.
pub open spec fn is_move_up_step(pre: App, post: App) -> bool {
    &&& post.inv()
    &&& post.items == pre.items
    &&& post.line_offsets == pre.line_offsets
    &&& post.width == pre.width
    &&& post.height == pre.height
    &&& post.selected_item == sel_after_up(pre.selected_item as int)
    &&& (pre.selected_item == 0 ==> post == pre)
    &&& (pre.selected_item > 0 ==> post.v2())
    &&& (pre.v2() ==> post.v2())
    &&& (pre.fits() && pre.v1() ==> post.v1())
}

/// Everything one downward move guarantees of the state before and after
/// it: `move_down` ensures this relation between its old and new state.
pub open spec fn is_move_down_step(pre: App, post: App) -> bool {
    &&& post.inv()
    &&& post.items == pre.items
    &&& post.line_offsets == pre.line_offsets
    &&& post.width == pre.width
    &&& post.height == pre.height
    &&& post.selected_item == sel_after_down(pre.selected_item as int, pre.n())
    &&& (pre.selected_item + 1 >= pre.n() ==> post == pre)
    &&& (pre.selected_item + 1 < pre.n() ==> post.v1())
    &&& (pre.v1() ==> post.v1())
    &&& (pre.fits() && pre.v2() ==> post.v2())
}

/// Both visibility invariants hold after every event of any sequence of
/// Move-Up / Move-Down steps that starts from a state satisfying them, as
/// the initial state does, provided every item fits the viewport: the
/// selection is never above the viewport and starts its item's rows there,
/// and the selected item's last row stays visible.
pub proof fn lemma_move_sequence_keeps_invariants(states: Seq<App>, downs: Seq<bool>)
    requires
        states.len() == downs.len() + 1,
        forall|i: int| #![trigger downs[i]]
            0 <= i < downs.len() ==> if downs[i] {
                is_move_down_step(states[i], states[i + 1])
            } else {
                is_move_up_step(states[i], states[i + 1])
            },
        states[0].inv(),
        states[0].v2(),
        states[0].v1(),
        states[0].fits(),
    ensures
        forall|i: int|
            0 <= i < states.len() ==> (#[trigger] states[i]).inv() && states[i].v2()
                && states[i].v1(),
    decreases states.len(),
{
    if downs.len() == 0 {
        assert forall|i: int| 0 <= i < states.len() implies (#[trigger] states[i]).inv()
            && states[i].v2() && states[i].v1() by {
            assert(i == 0);
        }
    } else {
        let p = states[0];
        let q = states[1];
        assert(if downs[0] {
            is_move_down_step(p, q)
        } else {
            is_move_up_step(p, q)
        });
        assert(q.inv() && q.v2() && q.v1());
        assert forall|i: int| 0 <= i < q.n() implies #[trigger] seq_len_of(q.items@, i)
            <= q.height by {
            assert(seq_len_of(p.items@, i) <= p.height);
        }
        assert(q.fits());
        let states2 = states.drop_first();
        let downs2 = downs.drop_first();
        assert forall|i: int| #![trigger downs2[i]] 0 <= i < downs2.len() implies if downs2[i] {
            is_move_down_step(states2[i], states2[i + 1])
        } else {
            is_move_up_step(states2[i], states2[i + 1])
        } by {
            assert(downs2[i] == downs[i + 1]);
            assert(states2[i] == states[i + 1]);
            assert(states2[i + 1] == states[i + 2]);
            assert(if downs[i + 1] {
                is_move_down_step(states[i + 1], states[i + 2])
            } else {
                is_move_up_step(states[i + 1], states[i + 2])
            });
        }
        lemma_move_sequence_keeps_invariants(states2, downs2);
        assert forall|i: int| 0 <= i < states.len() implies (#[trigger] states[i]).inv()
            && states[i].v2() && states[i].v1() by {
            if i == 0 {
            } else {
                assert(states2[i - 1] == states[i]);
            }
        }
    }
}

impl App {
    /// Build the viewer state: the items, their prefix-sum offset table, and
    /// a viewport at the top with the first item selected.  Fails exactly
    /// when the terminal has no rows, an item has no rows, or the total row
    /// count leaves no headroom for viewport arithmetic.
    pub fn new(items: Vec<Item>, width: u16, height: u16) -> (r: Option<App>)
        ensures
            r is Some <==> (height >= 1 && all_items_nonempty(items@) && spec_total_lines(items@)
                + height_headroom() <= usize::MAX),
            r matches Some(app) ==> {
                &&& app.items == items
                &&& app.first_visible_item == 0
                &&& app.first_visible_subline == 0
                &&& app.selected_item == 0
                &&& app.width == width
                &&& app.height == height
                &&& app.inv()
                &&& app.v2()
                &&& (app.fits() ==> app.v1())
                &&& app.total() == spec_total_lines(items@)
            },
    {
        if height == 0 {
            return None;
        }
        let headroom: usize = 65536;
        let mut offsets: Vec<usize> = Vec::new();
        let mut offset: usize = 0;
        let mut k: usize = 0;
        while k < items.len()
            invariant
                k <= items@.len(),
                offsets@.len() == k,
                offset == spec_total_lines(items@.take(k as int)),
                offset + height_headroom() <= usize::MAX,
                headroom == height_headroom(),
                forall|j: int| 0 <= j < k ==> #[trigger] seq_len_of(items@, j) >= 1,
                k > 0 ==> seq_off(offsets@, 0) == 0,
                forall|j: int| 1 <= j < k ==> #[trigger] seq_off(offsets@, j) == seq_off(
                    offsets@,
                    j - 1,
                ) + seq_len_of(items@, j - 1),
                k > 0 ==> offset == seq_off(offsets@, k - 1) + seq_len_of(items@, k - 1),
            decreases items@.len() - k,
        {
            let len = items[k].lines.len();
            proof {
                assert(items@.take(k + 1).drop_last() =~= items@.take(k as int));
                assert(spec_total_lines(items@.take(k + 1)) == spec_total_lines(
                    items@.take(k as int),
                ) + items@[k as int].lines@.len());
            }
            if len == 0 {
                proof {
                    assert(seq_len_of(items@, k as int) == 0);
                }
                return None;
            }
            if len > usize::MAX - headroom - offset {
                proof {
                    lemma_total_lines_prefix_le(items@, k + 1);
                }
                return None;
            }
            let ghost old_offs = offsets@;
            offsets.push(offset);
            proof {
                assert forall|j: int| 1 <= j < k + 1 implies #[trigger] seq_off(offsets@, j)
                    == seq_off(offsets@, j - 1) + seq_len_of(items@, j - 1) by {
                    if j < k {
                        assert(seq_off(old_offs, j) == seq_off(old_offs, j - 1) + seq_len_of(
                            items@,
                            j - 1,
                        ));
                        assert(seq_off(offsets@, j) == seq_off(old_offs, j));
                        assert(seq_off(offsets@, j - 1) == seq_off(old_offs, j - 1));
                    } else {
                        assert(seq_off(offsets@, j) == offset);
                        if k > 0 {
                            assert(seq_off(offsets@, j - 1) == seq_off(old_offs, k - 1));
                        }
                    }
                }
            }
            offset = offset + len;
            k += 1;
        }
        proof {
            assert(items@.take(items@.len() as int) =~= items@);
        }
        let app = App {
            items,
            line_offsets: offsets,
            first_visible_item: 0,
            first_visible_subline: 0,
            selected_item: 0,
            width,
            height,
        };
        Some(app)
    }

    /// Global row offset of row `subline` of item `item`.
    pub fn line_offset(&self, item: usize, subline: usize) -> (r: usize)
        requires
            self.inv(),
            item < self.n(),
            subline < self.len_of(item as int),
        ensures
            r == self.off(item as int) + subline,
    {
        proof {
            lemma_offset_bounds(*self, item as int);
        }
        self.line_offsets[item] + subline
    }

    /// Move the selection one item up.  A no-op at the top.  When the new
    /// selection is at or above the viewport anchor, the viewport snaps to
    /// the new selection's first row; otherwise it stays.  Keeps the
    /// selection-not-above-viewport invariant after every move, and keeps
    /// the selection's last row visible whenever it was visible before and
    /// every item fits the viewport.
    pub fn move_up(&mut self)
        requires
            old(self).inv(),
        ensures
            final(self).inv(),
            final(self).items == old(self).items,
            final(self).line_offsets == old(self).line_offsets,
            final(self).width == old(self).width,
            final(self).height == old(self).height,
            final(self).selected_item == sel_after_up(old(self).selected_item as int),
            old(self).selected_item == 0 ==> *final(self) == *old(self),
            old(self).selected_item > 0 ==> {
                if old(self).first_visible_item >= old(self).selected_item - 1 {
                    final(self).first_visible_item == final(self).selected_item
                        && final(self).first_visible_subline == 0
                } else {
                    final(self).first_visible_item == old(self).first_visible_item && final(self).first_visible_subline == old(self).first_visible_subline
                }
            },
            old(self).selected_item > 0 ==> final(self).v2(),
            old(self).v2() ==> final(self).v2(),
            old(self).fits() && old(self).v1() ==> final(self).v1(),
            is_move_up_step(*old(self), *final(self)),
    {
        if self.selected_item > 0 {
            proof {
                lemma_offset_bounds(*self, self.selected_item as int);
            }
            self.selected_item = self.selected_item - 1;
            if self.first_visible_item >= self.selected_item {
                self.first_visible_item = self.selected_item;
                self.first_visible_subline = 0;
            }
            proof {
                let o = *old(self);
                let s = *self;
                assert(s.offsets_wf() && s.items_wf());
                if o.fits() && o.v1() {
                    if o.first_visible_item >= o.selected_item - 1 {
                        lemma_offset_bounds(s, s.selected_item as int);
                    } else {
                        assert(s.off(s.selected_item as int) + s.len_of(s.selected_item as int)
                            == s.off(o.selected_item as int));
                    }
                }
            }
        }
    }

    /// Move the selection one item down.  A no-op at the bottom.  The
    /// viewport then scrolls forward row by row, rolling over item
    /// boundaries, until the new selection's last row is within the
    /// viewport's height; if it already is, the viewport stays.  The
    /// selection stays within bounds, the selection's last row is visible
    /// after every effective move, and the selection-not-above-viewport
    /// invariant is kept whenever it held and every item fits the viewport.
    pub fn move_down(&mut self)
        requires
            old(self).inv(),
        ensures
            final(self).inv(),
            final(self).items == old(self).items,
            final(self).line_offsets == old(self).line_offsets,
            final(self).width == old(self).width,
            final(self).height == old(self).height,
            final(self).selected_item == sel_after_down(
                old(self).selected_item as int,
                old(self).n(),
            ),
            old(self).selected_item + 1 >= old(self).n() ==> *final(self) == *old(self),
            old(self).selected_item + 1 < old(self).n() ==> {
                let s_last = old(self).off(old(self).selected_item + 1) + old(self).len_of(
                    old(self).selected_item + 1,
                ) - 1;
                let l_last = old(self).off(old(self).first_visible_item as int) + old(self).first_visible_subline + old(self).height - 1;
                if s_last <= l_last {
                    final(self).first_visible_item == old(self).first_visible_item && final(self).first_visible_subline == old(self).first_visible_subline
                } else {
                    final(self).off(final(self).first_visible_item as int) + final(self).first_visible_subline == s_last + 1 - old(self).height
                }
            },
            old(self).selected_item + 1 < old(self).n() ==> final(self).v1(),
            old(self).v1() ==> final(self).v1(),
            old(self).fits() && old(self).v2() ==> final(self).v2(),
            is_move_down_step(*old(self), *final(self)),
    {
        let n = self.items.len();
        if self.selected_item + 1 < n {
            self.selected_item = self.selected_item + 1;
            proof {
                lemma_offset_bounds(*self, self.first_visible_item as int);
                lemma_offset_bounds(*self, self.selected_item as int);
            }
            let l0 = self.line_offsets[self.first_visible_item] + self.first_visible_subline;
            let s_last = self.line_offsets[self.selected_item] + (self.items[self.selected_item]
                .lines
                .len() - 1);
            let h = self.height as usize;
            if l0 + h <= s_last {
                let ghost target = s_last + 1 - h;
                let mut delta = s_last - (l0 + h - 1);
                proof {
                    assert(self.off(self.first_visible_item as int) + self.first_visible_subline
                        + delta == target);
                }
                while delta > 0
                    invariant
                        self.offsets_wf(),
                        self.items_wf(),
                        self.n() > 0,
                        self.total() + height_headroom() <= usize::MAX,
                        0 <= self.first_visible_item < self.n(),
                        self.first_visible_subline < self.len_of(self.first_visible_item as int),
                        self.off(self.first_visible_item as int) + self.first_visible_subline
                            + delta == target,
                        target <= self.total() - 1,
                        self.items == old(self).items,
                        self.line_offsets == old(self).line_offsets,
                        self.width == old(self).width,
                        self.height == old(self).height,
                        self.selected_item == old(self).selected_item + 1,
                    decreases delta,
                {
                    proof {
                        lemma_offset_bounds(*self, self.first_visible_item as int);
                    }
                    self.first_visible_subline = self.first_visible_subline + 1;
                    if self.first_visible_subline > self.items[self.first_visible_item].lines.len()
                        - 1 {
                        proof {
                            if self.first_visible_item + 1 == self.n() {
                                assert(self.off(self.first_visible_item as int) + self.len_of(
                                    self.first_visible_item as int,
                                ) == self.total());
                            }
                        }
                        self.first_visible_item = self.first_visible_item + 1;
                        self.first_visible_subline = 0;
                    }
                    delta = delta - 1;
                }
                proof {
                    let o = *old(self);
                    let s = *self;
                    if o.fits() && o.v2() {
                        assert(s.len_of(s.selected_item as int) <= s.height);
                        if s.first_visible_item > s.selected_item {
                            lemma_off_mono(s, s.selected_item + 1, s.first_visible_item as int);
                            assert(s.off(s.selected_item + 1) == s.off(s.selected_item as int)
                                + s.len_of(s.selected_item as int));
                            assert(false);
                        }
                    }
                }
            }
        }
    }

    /// Record new terminal dimensions.  Items are not re-rendered and the
    /// viewport anchor and selection stay where they were.
    pub fn resize(&mut self, width: u16, height: u16)
        requires
            old(self).inv(),
            height >= 1,
        ensures
            final(self).inv(),
            final(self).items == old(self).items,
            final(self).line_offsets == old(self).line_offsets,
            final(self).first_visible_item == old(self).first_visible_item,
            final(self).first_visible_subline == old(self).first_visible_subline,
            final(self).selected_item == old(self).selected_item,
            final(self).width == width,
            final(self).height == height,
            old(self).v2() ==> final(self).v2(),
    {
        self.width = width;
        self.height = height;
    }
}

/// A key press reduced to what the controller reads: whether control is
/// held, whether any other modifier is held, and the key itself.
#[derive(Clone, Copy, Debug, PartialEq, Eq, Structural)]
pub struct KeyPress {
    pub ctrl: bool,
    pub other_mods: bool,
    pub code: KeySym,
}

/// The keys the controller distinguishes; everything else is `Other`.
#[derive(Clone, Copy, Debug, PartialEq, Eq, Structural)]
pub enum KeySym {
    Up,
    Down,
    Esc,
    Char(char),
    PageDown,
    Other,
}

/// What the event loop should do with a key press.
#[derive(Clone, Copy, Debug, PartialEq, Eq, Structural)]
pub enum Action {
    MoveUp,
    MoveDown,
    Quit,
    Scroll,
    Ignore,
}

/// The controller's key table: control-c quits; any other modified key is
/// ignored; plain up and down move the selection; escape, `q` and `Q` quit;
/// page-down asks for a cosmetic terminal scroll; all else is ignored.
pub open spec fn spec_classify(k: KeyPress) -> Action {
    if k.ctrl && (k.code == KeySym::Char('c') || k.code == KeySym::Char('C')) {
        Action::Quit
    } else if k.ctrl || k.other_mods {
        Action::Ignore
    } else {
        match k.code {
            KeySym::Up => Action::MoveUp,
            KeySym::Down => Action::MoveDown,
            KeySym::Esc => Action::Quit,
            KeySym::Char(c) => if c == 'q' || c == 'Q' {
                Action::Quit
            } else {
                Action::Ignore
            },
            KeySym::PageDown => Action::Scroll,
            KeySym::Other => Action::Ignore,
        }
    }
}

/// Decide what a key press does.
pub fn classify(k: KeyPress) -> (r: Action)
    ensures
        r == spec_classify(k),
{
    if k.ctrl {
        match k.code {
            KeySym::Char(c) => if c == 'c' || c == 'C' {
                Action::Quit
            } else {
                Action::Ignore
            },
            _ => Action::Ignore,
        }
    } else if k.other_mods {
        Action::Ignore
    } else {
        match k.code {
            KeySym::Up => Action::MoveUp,
            KeySym::Down => Action::MoveDown,
            KeySym::Esc => Action::Quit,
            KeySym::Char(c) => if c == 'q' || c == 'Q' {
                Action::Quit
            } else {
                Action::Ignore
            },
            KeySym::PageDown => Action::Scroll,
            KeySym::Other => Action::Ignore,
        }
    }
}

} // verus!
