//! The row recycler: decides which rows exist this frame, and stays bounded doing it.
//!
//! A frame lays out about as many rows as fit on screen, however long the corpus is. What
//! recycles is the buffer: the allocations persist, the contents do not.

use crate::density::Density;
use crate::fenwick::{at_least_a_pixel, is_min_height, prefix, Heights};
use crate::row_source::{rows_present, RowBuf, RowSource, RowView};
use crate::scroll::{
    ceil_div, rows_wanted, starts_at, starts_inside, tall, visible_range, whole_pixel,
    VisibleRange, FURTHEST,
};
use crate::units::{fits, larger, max_of, min_of, Micros, MICRO, WIDEST};
use vstd::prelude::*;

verus! {

/// Non-glyph primitives one visible entry is allowed to cost.
pub const SURFACE_PRIMS_PER_ENTRY: u32 = 6;

/// Everything about the frame's geometry that the row builder needs.
#[derive(Clone, Copy, PartialEq, Eq, Debug, Structural)]
pub struct ViewportLayout {
    /// Left edge of the entry surface within the window, in physical pixels.
    pub origin_x: Micros,
    /// Top edge of the entry surface within the window, in physical pixels.
    pub origin_y: Micros,
    /// Width of the entry surface, in whole physical pixels.
    pub width: u32,
    /// Height of the entry surface, in whole physical pixels.
    pub height: u32,
    /// Device pixel ratio.
    pub scale: Micros,
    /// Text-size setting.
    pub text_scale: Micros,
    /// Row density.
    pub density: Density,
    /// Physical pixels per row.
    pub row_height: u32,
    /// Content-space scroll offset.
    pub scroll: Micros,
    /// How far the first visible row is scrolled off the top, in physical pixels.
    pub first_row_offset: Micros,
    /// The visible entries.
    pub visible: VisibleRange,
    /// Total logical entries.
    pub row_count: u64,
    /// Total content height in physical pixels.
    pub content_height: u64,
    /// Shortest row in the source, in physical pixels.
    pub min_row_height: u32,
    /// Entries packed into one laid-out row: one in the list.
    pub columns: u32,
}

/// The larger of a column count and one.
pub open spec fn at_least_one(n: u32) -> int {
    if n < 1 {
        1
    } else {
        n as int
    }
}

/// The smaller of a number and the largest 32-bit one.
pub open spec fn saturated(n: int) -> int {
    min_of(n, u32::MAX as int)
}

impl ViewportLayout {
    /// Positions are small enough to compute with, and the visible entries are numbered
    /// within 64 bits.
    pub open spec fn sane(self) -> bool {
        &&& fits(self.origin_x as int)
        &&& fits(self.origin_y as int)
        &&& 0 <= self.first_row_offset <= FURTHEST + MICRO
        &&& self.visible.first + self.visible.count <= u64::MAX
    }

    /// The bound on visible entries: the rows that fit, of the shortest height, and two.
    pub open spec fn entry_bound(self) -> int {
        saturated(
            (self.height / (at_least_one(self.min_row_height) as u32) + 2) * at_least_one(
                self.columns,
            ),
        )
    }

    /// Width of one cell.
    pub open spec fn cell(self) -> int {
        self.width * 1_000_000 / at_least_one(self.columns)
    }

    /// Top edge of the entry at `slot` of the visible slice.
    pub open spec fn top_of(self, slot: int) -> int {
        self.origin_y + slot / at_least_one(self.columns) * self.row_height * 1_000_000
            - self.first_row_offset
    }

    /// Which entry a point falls on.
    pub open spec fn entry_under(self, x: int, y: int) -> Option<u64> {
        let columns = at_least_one(self.columns);
        let across = x - self.origin_x;
        let column = across / max_of(self.cell(), 1_000_000);
        let within = y - self.origin_y + self.first_row_offset;
        let line = within / (at_least_one(self.row_height) * 1_000_000);
        let slot = line * columns + column;
        if y < self.origin_y || self.visible.count == 0 {
            None
        } else if across < 0 || column >= columns {
            None
        } else if within < 0 || slot >= self.visible.count {
            None
        } else {
            Some((self.visible.first + slot) as u64)
        }
    }

    /// The bound on visible entries for this viewport.
    ///
    /// Derived from the shortest row, since that is how many can be on screen at once, and
    /// counted in entries, of which a grid has several to a row.
    pub fn virtualization_bound(&self) -> (result: u32)
        ensures
            result == self.entry_bound(),
    {
        let shortest: u32 = if self.min_row_height < 1 {
            1
        } else {
            self.min_row_height
        };
        let columns: u32 = if self.columns < 1 {
            1
        } else {
            self.columns
        };
        let rows: u64 = (self.height / shortest) as u64 + 2;
        proof {
            let h = self.height as int;
            let d = shortest as int;
            assert(h / d <= h) by (nonlinear_arith)
                requires
                    h >= 0,
                    d >= 1,
            ;
            assert(0 <= rows * columns <= 0x1_0000_0001 * 0xffff_ffff) by (nonlinear_arith)
                requires
                    0 <= rows <= 0x1_0000_0001,
                    0 <= columns <= 0xffff_ffff,
            ;
        }
        let entries: u64 = rows * columns as u64;
        if entries > 0xffff_ffff {
            0xffff_ffff
        } else {
            entries as u32
        }
    }

    /// The same bound in surface primitives, which is what a frame pays for.
    pub fn surface_prim_bound(&self) -> (result: u32)
        ensures
            result == saturated(self.entry_bound() * SURFACE_PRIMS_PER_ENTRY),
    {
        let prims: u64 = self.virtualization_bound() as u64 * SURFACE_PRIMS_PER_ENTRY as u64;
        if prims > 0xffff_ffff {
            0xffff_ffff
        } else {
            prims as u32
        }
    }

    /// Width of one cell: the full surface width in the list.
    pub fn cell_width(&self) -> (result: Micros)
        ensures
            result == self.cell(),
            0 <= result <= self.width * 1_000_000,
    {
        let columns: u32 = if self.columns < 1 {
            1
        } else {
            self.columns
        };
        proof {
            let w = self.width * 1_000_000;
            let d = columns as int;
            assert(0 <= w / d <= w) by (nonlinear_arith)
                requires
                    w >= 0,
                    d >= 1,
            ;
        }
        self.width as i128 * MICRO / columns as i128
    }

    /// Where the entry at `slot` within the visible slice is drawn: left, top, width and
    /// height, in window space.
    pub fn cell_rect(&self, slot: u32) -> (result: (Micros, Micros, Micros, Micros))
        requires
            self.sane(),
        ensures
            result.0 == self.origin_x + slot as int % at_least_one(self.columns) * self.cell(),
            result.1 == self.top_of(slot as int),
            result.2 == self.cell(),
            result.3 == self.row_height * 1_000_000,
            -100_000_000_000_000_000_000_000_000 <= result.0
                <= 100_000_000_000_000_000_000_000_000,
            0 <= result.2 <= self.width * 1_000_000,
    {
        let columns: u32 = if self.columns < 1 {
            1
        } else {
            self.columns
        };
        let width: Micros = self.cell_width();
        let column: i128 = (slot % columns) as i128;
        proof {
            assert(0 <= column * width <= 0xffff_ffff * (0xffff_ffff * 1_000_000))
                by (nonlinear_arith)
                requires
                    0 <= column <= 0xffff_ffff,
                    0 <= width <= 0xffff_ffff * 1_000_000,
            ;
        }
        (
            self.origin_x + column * width,
            self.row_top(slot),
            width,
            self.row_height as i128 * MICRO,
        )
    }

    /// Place this layout's entry surface at `(x, y)` within the window.
    pub fn at(self, x: Micros, y: Micros) -> (result: Self)
        ensures
            result == (ViewportLayout { origin_x: x, origin_y: y, ..self }),
    {
        ViewportLayout { origin_x: x, origin_y: y, ..self }
    }

    /// The tops of rows that a 32-bit slot can name leave room to compute with.
    pub(crate) proof fn lemma_tops_are_bounded(self, slot: int)
        requires
            self.sane(),
            0 <= slot <= u32::MAX,
        ensures
            -100_000_000_000_000_000_000_000_000 <= self.top_of(slot)
                <= 100_000_000_000_000_000_000_000_000,
    {
        let d = at_least_one(self.columns);
        let line = slot / d;
        assert(0 <= line <= slot) by (nonlinear_arith)
            requires
                line == slot / d,
                slot >= 0,
                d >= 1,
        ;
        assert(0 <= line * self.row_height <= 0xffff_ffff * 0xffff_ffff) by (nonlinear_arith)
            requires
                0 <= line <= 0xffff_ffff,
                0 <= self.row_height <= 0xffff_ffff,
        ;
    }

    /// Top edge of a visible row in window space.
    pub fn row_top(&self, slot: u32) -> (result: Micros)
        requires
            self.sane(),
        ensures
            result == self.top_of(slot as int),
    {
        let columns: u32 = if self.columns < 1 {
            1
        } else {
            self.columns
        };
        let line: i128 = (slot / columns) as i128;
        proof {
            let n = slot as int;
            let d = columns as int;
            assert(0 <= n / d <= n) by (nonlinear_arith)
                requires
                    n >= 0,
                    d >= 1,
            ;
            assert(0 <= line * self.row_height <= 0xffff_ffff * 0xffff_ffff) by (nonlinear_arith)
                requires
                    0 <= line <= 0xffff_ffff,
                    0 <= self.row_height <= 0xffff_ffff,
            ;
        }
        self.origin_y + line * self.row_height as i128 * MICRO - self.first_row_offset
    }

    /// Which entry a window-space point falls on, if any: `None` above the surface and to either side
    /// of it, past the last row that is laid out, and in the gap after the last entry of a short
    /// final row. A row that is laid out below the bottom edge of the surface is hit there.
    pub fn entry_at(&self, x: Micros, y: Micros) -> (result: Option<u64>)
        requires
            self.sane(),
            fits(x as int),
            fits(y as int),
        ensures
            result == self.entry_under(x as int, y as int),
    {
        if y < self.origin_y || self.visible.count == 0 {
            return None;
        }
        let columns: u32 = if self.columns < 1 {
            1
        } else {
            self.columns
        };
        let across: Micros = x - self.origin_x;
        if across < 0 {
            return None;
        }
        let column: i128 = across / larger(self.cell_width(), MICRO);
        if column >= columns as i128 {
            return None;
        }
        proof {
            assert(column >= 0) by (nonlinear_arith)
                requires
                    across >= 0,
                    column == across as int / max_of(self.cell(), 1_000_000),
                    max_of(self.cell(), 1_000_000) >= 1,
            ;
        }
        let within: Micros = y - self.origin_y + self.first_row_offset;
        let row: i128 = if self.row_height < 1 {
            1
        } else {
            self.row_height as i128
        };
        let line: i128 = within / (row * MICRO);
        proof {
            let d = row * 1_000_000;
            assert(0 <= line <= within) by (nonlinear_arith)
                requires
                    line == within as int / d,
                    within >= 0,
                    d >= 1,
            ;
            assert(0 <= line * columns <= (FURTHEST + 3 * WIDEST) * 0xffff_ffff)
                by (nonlinear_arith)
                requires
                    0 <= line <= FURTHEST + 3 * WIDEST,
                    0 <= columns <= 0xffff_ffff,
            ;
        }
        let slot: i128 = line * columns as i128 + column;
        if slot < self.visible.count as i128 {
            Some(self.visible.first + slot as u64)
        } else {
            None
        }
    }

    /// Which row a window-space `y` falls on: the list's case of [`Self::entry_at`].
    pub fn row_at(&self, y: Micros) -> (result: Option<u64>)
        requires
            self.sane(),
            fits(y as int),
        ensures
            result == self.entry_under(self.origin_x as int, y as int),
    {
        self.entry_at(self.origin_x, y)
    }
}

/// A point inside a cell is on the entry that is drawn there, as long as it is on the
/// surface at all: hit testing inverts placement.
pub proof fn hit_testing_inverts_placement(layout: ViewportLayout, slot: int, x: int, y: int)
    requires
        layout.sane(),
        0 <= slot < layout.visible.count,
        layout.row_height >= 1,
        at_least_one(layout.columns) > 1 ==> layout.cell() >= 1_000_000,
        ({
            let left = layout.origin_x + slot % at_least_one(layout.columns) * layout.cell();
            left <= x < left + layout.cell()
        }),
        layout.top_of(slot) <= y < layout.top_of(slot) + layout.row_height * 1_000_000,
        layout.origin_y <= y,
    ensures
        layout.entry_under(x, y) == Some((layout.visible.first + slot) as u64),
{
    let columns = at_least_one(layout.columns);
    let w = layout.cell();
    let c = slot % columns;
    let l = slot / columns;
    let across = x - layout.origin_x;
    assert(0 <= c < columns && 0 <= l && slot == l * columns + c) by (nonlinear_arith)
        requires
            c == slot % columns,
            l == slot / columns,
            columns >= 1,
            slot >= 0,
    ;
    assert(w >= 1_000_000);
    assert(across / w == c) by (nonlinear_arith)
        requires
            c * w <= across < c * w + w,
            w >= 1,
    ;
    assert(across >= 0) by (nonlinear_arith)
        requires
            c * w <= across,
            c >= 0,
            w >= 0,
    ;
    let within = y - layout.origin_y + layout.first_row_offset;
    let d = layout.row_height * 1_000_000;
    let r = layout.row_height as int;
    assert(l * r * 1_000_000 == l * d) by (nonlinear_arith)
        requires
            d == r * 1_000_000,
    ;
    assert(within / d == l) by (nonlinear_arith)
        requires
            l * d <= within < l * d + d,
            d >= 1,
    ;
    assert(within >= 0) by (nonlinear_arith)
        requires
            l * d <= within,
            l >= 0,
            d >= 0,
    ;
}

/// Whatever a point is on was laid out: it is one of the visible entries.
pub proof fn only_visible_entries_are_hit(layout: ViewportLayout, x: int, y: int)
    requires
        layout.sane(),
    ensures
        layout.entry_under(x, y) matches Some(entry) ==> layout.visible.first <= entry
            < layout.visible.first + layout.visible.count,
{
    let columns = at_least_one(layout.columns);
    let across = x - layout.origin_x;
    let within = y - layout.origin_y + layout.first_row_offset;
    let d = at_least_one(layout.row_height) * 1_000_000;
    let w = max_of(layout.cell(), 1_000_000);
    if layout.entry_under(x, y) is Some {
        assert(within / d >= 0) by (nonlinear_arith)
            requires
                within >= 0,
                d >= 1,
        ;
        assert(across / w >= 0) by (nonlinear_arith)
            requires
                across >= 0,
                w >= 1,
        ;
        assert((within / d) * columns >= 0) by (nonlinear_arith)
            requires
                within / d >= 0,
                columns >= 1,
        ;
    }
}

/// Moving the surface moves every row by the same distance, and nothing else.
pub proof fn an_origin_moves_every_row_alike(layout: ViewportLayout, x: Micros, y: Micros, slot: int)
    ensures
        (ViewportLayout { origin_x: x, origin_y: y, ..layout }).top_of(slot) - layout.top_of(slot)
            == y - layout.origin_y,
{
}

/// Owns the reusable row buffer.
#[derive(Debug)]
pub struct Recycler {
    buf: RowBuf,
    filled_version: u64,
    last_range: Option<VisibleRange>,
}

impl Default for Recycler {
    fn default() -> (result: Self)
        ensures
            result.buffered() == Seq::<RowView>::empty(),
            result.filled_from() == 0,
            result.filled_range() is None,
    {
        Recycler::new()
    }
}

/// The layout of `row_count` rows, of which `visible` are laid out; `clipped` is what
/// [`visible_range`] gives.
pub open spec fn list_layout(
    row_count: u64,
    heights: Heights,
    width: u32,
    height: u32,
    scale: Micros,
    text_scale: Micros,
    density: Density,
    row_height: u32,
    scroll: Micros,
    visible: VisibleRange,
    clipped: Micros,
    shortest: u32,
) -> ViewportLayout {
    ViewportLayout {
        origin_x: 0,
        origin_y: 0,
        width,
        height,
        scale,
        text_scale,
        density,
        row_height: at_least_one(row_height) as u32,
        scroll,
        first_row_offset: clipped,
        visible,
        row_count,
        content_height: content_of(heights, row_count) as u64,
        min_row_height: shortest,
        columns: 1,
    }
}

/// Total content height of `row_count` rows.
pub open spec fn content_of(heights: Heights, row_count: u64) -> int {
    match heights {
        Heights::Uniform(h) => h * row_count,
        Heights::Variable(tree) => prefix(tree@, tree@.len() as int) as int,
    }
}

/// `visible` and `clipped` are what a list of these heights shows at `scroll`.
pub open spec fn shows(
    heights: Heights,
    scroll: Micros,
    viewport_height: u32,
    row_count: u64,
    visible: VisibleRange,
    clipped: Micros,
) -> bool {
    &&& visible.first + visible.count <= row_count
    &&& 0 <= clipped < FURTHEST + MICRO
    &&& row_count == 0 || viewport_height == 0 ==> visible == (VisibleRange { first: 0, count: 0 })
        && clipped == 0
    &&& row_count > 0 && viewport_height > 0 ==> {
        &&& clipped as int % 1_000_000 == max_of(scroll as int, 0) % 1_000_000
        &&& starts_at(
            heights,
            whole_pixel(scroll as int),
            row_count as int,
            visible.first as int,
            clipped as int / 1_000_000,
        )
        &&& visible.first < row_count
        &&& visible.count == min_of(
            rows_wanted(
                heights,
                visible.first as int,
                clipped as int,
                viewport_height as int,
                row_count as int,
            ),
            row_count - visible.first,
        ) as u32
    }
}

/// What a list lays out of the rows that [`visible_range`] gives: no more than one past its bound.
pub open spec fn held_to(seen: VisibleRange, bound: int) -> VisibleRange {
    VisibleRange { first: seen.first, count: min_of(seen.count as int, bound + 1) as u32 }
}

/// The visible entries as a range.
pub open spec fn rows_in(visible: VisibleRange) -> std::ops::Range<u64> {
    std::ops::Range { start: visible.first, end: (visible.first + visible.count) as u64 }
}

/// `m` is the shortest of the heights, and at least a pixel.
pub open spec fn is_shortest(heights: Heights, m: u32) -> bool {
    match heights {
        Heights::Uniform(h) => m == tall(h),
        Heights::Variable(tree) => is_min_height(tree@, m),
    }
}

/// The entries that lines `lines` of a grid hold.
pub open spec fn entries_of(lines: VisibleRange, columns: int, entry_count: u64) -> VisibleRange {
    let first = lines.first * columns;
    let end = min_of((lines.first + lines.count) * columns, entry_count as int);
    VisibleRange { first: first as u64, count: (end - first) as u32 }
}

/// The layout of `entry_count` entries in lines of `columns`: `seen` and `clipped` are what
/// [`visible_range`] gives for the lines.
pub open spec fn grid_layout(
    entry_count: u64,
    columns: int,
    cells: Heights,
    width: u32,
    height: u32,
    scale: Micros,
    text_scale: Micros,
    density: Density,
    scroll: Micros,
    seen: VisibleRange,
    clipped: Micros,
) -> ViewportLayout {
    ViewportLayout {
        origin_x: 0,
        origin_y: 0,
        width,
        height,
        scale,
        text_scale,
        density,
        row_height: cells->Uniform_0,
        scroll,
        first_row_offset: clipped,
        visible: entries_of(seen, columns, entry_count),
        row_count: entry_count,
        content_height: content_of(cells, ceil_div(entry_count as int, columns) as u64) as u64,
        min_row_height: cells->Uniform_0,
        columns: columns as u32,
    }
}

/// Lines `first..first + count` of a grid hold entries that exist, in a 64-bit corpus.
proof fn lemma_lines_hold_entries(entries: int, columns: int, lines: int, first: int, count: int)
    requires
        columns >= 1,
        entries >= 0,
        lines == ceil_div(entries, columns),
        first >= 0,
        count >= 0,
        first + count <= lines,
        lines == 0 || first < lines || count == 0 && first == 0,
    ensures
        0 <= first * columns <= entries,
        first * columns <= (first + count) * columns <= entries + columns - 1,
        first <= (first + count),
{
    assert(lines * columns <= entries + columns - 1) by (nonlinear_arith)
        requires
            lines == (entries + columns - 1) / columns,
            columns >= 1,
    ;
    assert(0 <= first * columns <= (first + count) * columns <= lines * columns)
        by (nonlinear_arith)
        requires
            0 <= first,
            0 <= count,
            first + count <= lines,
            columns >= 1,
    ;
    if first < lines {
        assert(first * columns <= entries) by (nonlinear_arith)
            requires
                first <= lines - 1,
                lines * columns <= entries + columns - 1,
                columns >= 1,
        ;
    } else {
        assert(first * columns == 0) by (nonlinear_arith)
            requires
                first == 0,
        ;
    }
}

impl Recycler {
    /// The buffer.
    pub closed spec fn buffer(&self) -> RowBuf {
        self.buf
    }

    /// The rows the buffer holds.
    pub open spec fn buffered(&self) -> Seq<RowView> {
        self.buffer()@
    }

    /// The version of the source that the buffer was filled from.
    pub closed spec fn filled_from(&self) -> u64 {
        self.filled_version
    }

    /// The range that the buffer was filled with.
    pub closed spec fn filled_range(&self) -> Option<VisibleRange> {
        self.last_range
    }

    /// An empty buffer.
    pub fn new() -> (result: Self)
        ensures
            result.buffered() == Seq::<RowView>::empty(),
            result.filled_from() == 0,
            result.filled_range() is None,
    {
        Recycler { buf: RowBuf::new(), filled_version: 0, last_range: None }
    }

    /// Compute this frame's layout. At most one row past the virtualization bound is laid out.
    pub fn layout<S: RowSource + ?Sized>(
        &self,
        source: &S,
        heights: &Heights,
        width: u32,
        height: u32,
        scale: Micros,
        text_scale: Micros,
        density: Density,
        row_height: u32,
        scroll: Micros,
    ) -> (result: ViewportLayout)
        requires
            heights matches Heights::Uniform(h) ==> h * source.count() <= u64::MAX,
            source.count() > 0 && height > 0 ==> starts_inside(
                *heights,
                scroll as int,
                source.count(),
            ),
        ensures
            exists|seen: VisibleRange|
                {
                    &&& #[trigger] shows(
                        *heights,
                        scroll,
                        height,
                        source.count(),
                        seen,
                        result.first_row_offset,
                    )
                    &&& result == list_layout(
                        source.count(),
                        *heights,
                        width,
                        height,
                        scale,
                        text_scale,
                        density,
                        row_height,
                        scroll,
                        held_to(seen, result.entry_bound()),
                        result.first_row_offset,
                        result.min_row_height,
                    )
                },
            is_shortest(*heights, result.min_row_height),
            heights is Uniform ==> shows(
                *heights,
                scroll,
                height,
                source.count(),
                result.visible,
                result.first_row_offset,
            ),
            result.entry_bound() == saturated(height / result.min_row_height + 2),
            result.visible.count <= result.entry_bound() + 1,
            result.visible.first + result.visible.count <= source.count(),
            result.sane(),
    {
        let row_count: u64 = source.len();
        let content_height: u64 = heights.total(row_count);
        let (seen, first_row_offset): (VisibleRange, Micros) = visible_range(
            scroll,
            height,
            row_count,
            heights,
        );
        let mut result: ViewportLayout = ViewportLayout {
            origin_x: 0,
            origin_y: 0,
            width,
            height,
            scale,
            text_scale,
            density,
            row_height: if row_height < 1 {
                1
            } else {
                row_height
            },
            scroll,
            first_row_offset,
            visible: seen,
            row_count,
            content_height,
            min_row_height: heights.min_height(),
            columns: 1,
        };
        let bound: u32 = result.virtualization_bound();
        if seen.count > bound && seen.count - bound > 1 {
            result.visible = VisibleRange { first: seen.first, count: bound + 1 };
        }
        proof {
            assert(shows(
                *heights,
                scroll,
                height,
                source.count(),
                seen,
                result.first_row_offset,
            ));
            assert(result.visible == held_to(seen, result.entry_bound()));
            assert(result == list_layout(
                source.count(),
                *heights,
                width,
                height,
                scale,
                text_scale,
                density,
                row_height,
                scroll,
                held_to(seen, result.entry_bound()),
                result.first_row_offset,
                result.min_row_height,
            ));
            lists_stay_inside_their_bound(result, *heights, seen);
            lemma_list_bound(result);
        }
        result
    }

    /// Compute this frame's layout as a grid of `columns` cells per row.
    ///
    /// The lines of the grid are laid out as the rows of a list, and the answer is turned
    /// back into entries: the visible range and the row count are those of the corpus.
    pub fn layout_grid<S: RowSource + ?Sized>(
        &self,
        source: &S,
        columns: u32,
        cell_height: u32,
        width: u32,
        height: u32,
        scale: Micros,
        text_scale: Micros,
        density: Density,
        scroll: Micros,
    ) -> (result: ViewportLayout)
        requires
            at_least_one(cell_height) * ceil_div(source.count() as int, at_least_one(columns))
                <= u64::MAX,
            source.count() + at_least_one(columns) <= u64::MAX,
        ensures
            ({
                let across = at_least_one(columns);
                let lines = ceil_div(source.count() as int, across) as u64;
                let cells = Heights::Uniform(at_least_one(cell_height) as u32);
                exists|seen: VisibleRange|
                    {
                        &&& #[trigger] shows(
                            cells,
                            scroll,
                            height,
                            lines,
                            seen,
                            result.first_row_offset,
                        )
                        &&& result == grid_layout(
                            source.count(),
                            across,
                            cells,
                            width,
                            height,
                            scale,
                            text_scale,
                            density,
                            scroll,
                            seen,
                            result.first_row_offset,
                        )
                    }
            }),
            result.visible.first + result.visible.count <= source.count(),
            result.sane(),
    {
        let across: u32 = if columns < 1 {
            1
        } else {
            columns
        };
        let cell: u32 = if cell_height < 1 {
            1
        } else {
            cell_height
        };
        let entry_count: u64 = source.len();
        let lines: u64 = (entry_count + (across as u64 - 1)) / across as u64;
        let heights: Heights = Heights::Uniform(cell);
        let content_height: u64 = heights.total(lines);
        let (seen, first_row_offset): (VisibleRange, Micros) = visible_range(
            scroll,
            height,
            lines,
            &heights,
        );
        proof {
            lemma_lines_hold_entries(
                entry_count as int,
                across as int,
                lines as int,
                seen.first as int,
                seen.count as int,
            );
        }
        let first: u64 = seen.first * across as u64;
        let reach: u64 = (seen.first + seen.count as u64) * across as u64;
        let end: u64 = if reach <= entry_count {
            reach
        } else {
            entry_count
        };
        let span: u64 = end - first;
        assert((span as u32) <= span) by (bit_vector);
        #[verifier::truncate]
        let count: u32 = span as u32;
        let visible: VisibleRange = VisibleRange { first, count };
        assert(visible == entries_of(seen, across as int, entry_count));
        let result: ViewportLayout = ViewportLayout {
            origin_x: 0,
            origin_y: 0,
            width,
            height,
            scale,
            text_scale,
            density,
            row_height: cell,
            scroll,
            first_row_offset,
            visible,
            row_count: entry_count,
            content_height,
            min_row_height: cell,
            columns: across,
        };
        proof {
            assert(at_least_one(columns) == across);
            assert(ceil_div(source.count() as int, at_least_one(columns)) as u64 == lines);
            assert(heights == Heights::Uniform(at_least_one(cell_height) as u32));
            assert(shows(heights, scroll, height, lines, seen, result.first_row_offset));
            assert(result == grid_layout(
                entry_count,
                across as int,
                heights,
                width,
                height,
                scale,
                text_scale,
                density,
                scroll,
                seen,
                first_row_offset,
            ));
        }
        result
    }

    /// Fill the buffer with the visible rows: one request, for exactly the visible range. Where
    /// nothing is visible the source is not asked.
    pub fn fill<S: RowSource + ?Sized>(&mut self, source: &S, layout: &ViewportLayout) -> (result:
        &RowBuf)
        requires
            layout.visible.first + layout.visible.count <= u64::MAX,
        ensures
            *result == final(self).buffer(),
            final(self).filled_from() == source.revision(),
            final(self).filled_range() == Some(layout.visible),
            if layout.visible.count == 0 {
                &&& result@ == Seq::<RowView>::empty()
                &&& result.arena() == Seq::<u8>::empty()
            } else {
                source.gives(rows_in(layout.visible), *result)
            },
            result@.len() == rows_present(rows_in(layout.visible), source.count()),
            result@.len() <= layout.visible.count,
    {
        self.buf.clear();
        if layout.visible.count > 0 {
            source.rows(layout.visible.as_range(), &mut self.buf);
        }
        self.filled_version = source.version();
        self.last_range = Some(layout.visible);
        &self.buf
    }

    /// The rows the buffer holds.
    pub fn rows(&self) -> (result: &RowBuf)
        ensures
            *result == self.buffer(),
    {
        &self.buf
    }

    /// Whether the buffer's contents predate the source's current version.
    pub fn is_stale<S: RowSource + ?Sized>(&self, source: &S) -> (result: bool)
        ensures
            result == (self.filled_from() != source.revision()),
    {
        self.filled_version != source.version()
    }
}

/// Keeping the low 32 bits of a number never makes it larger.
proof fn lemma_truncation(x: u64)
    ensures
        (x as u32) <= x,
{
    assert((x as u32) <= x) by (bit_vector);
}

proof fn lemma_shown_rows(
    heights: Heights,
    scroll: Micros,
    viewport_height: u32,
    row_count: u64,
    visible: VisibleRange,
    clipped: Micros,
)
    requires
        shows(heights, scroll, viewport_height, row_count, visible, clipped),
        row_count > 0,
        viewport_height > 0,
    ensures
        visible.count <= max_of(
            rows_wanted(
                heights,
                visible.first as int,
                clipped as int,
                viewport_height as int,
                row_count as int,
            ),
            0,
        ),
{
    let wanted = rows_wanted(
        heights,
        visible.first as int,
        clipped as int,
        viewport_height as int,
        row_count as int,
    );
    match heights {
        Heights::Uniform(h) => {
            let v = viewport_height as int;
            let d = tall(h);
            assert((v + d - 1) / d >= 0) by (nonlinear_arith)
                requires
                    v >= 1,
                    d >= 1,
            ;
        },
        Heights::Variable(_) => {
            crate::scroll::first_row_below_is_below(
                heights,
                visible.first as int,
                row_count as int,
                heights.top(visible.first as int) + viewport_height + ceil_div(
                    clipped as int,
                    1_000_000,
                ),
            );
        },
    }
    let shown = min_of(wanted, row_count - visible.first);
    lemma_truncation(shown as u64);
}

/// Whether the heights are those of `row_count` rows, each at least a pixel tall. A uniform height
/// of none counts as a pixel.
pub open spec fn spans_rows(heights: Heights, row_count: u64) -> bool {
    match heights {
        Heights::Uniform(_) => true,
        Heights::Variable(tree) => {
            &&& tree@.len() == row_count
            &&& forall|i: int| 0 <= i < tree@.len() ==> #[trigger] tree@[i] >= 1
        },
    }
}

proof fn lemma_list_bound(layout: ViewportLayout)
    requires
        layout.columns == 1,
        layout.min_row_height >= 1,
    ensures
        layout.height / layout.min_row_height >= 0,
        layout.entry_bound() == saturated(layout.height / layout.min_row_height + 2),
{
    let h = layout.height as int;
    let d = layout.min_row_height as int;
    assert(h / d >= 0) by (nonlinear_arith)
        requires
            h >= 0,
            d >= 1,
    ;
    assert((h / d + 2) * at_least_one(layout.columns) == h / d + 2) by (nonlinear_arith)
        requires
            at_least_one(layout.columns) == 1,
    ;
}

/// A list never lays out more than one row past its bound, wherever it is scrolled and whichever
/// way its heights are given, and never a row past the end of the corpus. The bound is that of the
/// shortest row. Where all rows are as tall as each other nothing is held back for it, and where
/// each has its own height, of a pixel or more, one row at most.
pub proof fn lists_stay_inside_their_bound(
    layout: ViewportLayout,
    heights: Heights,
    seen: VisibleRange,
)
    requires
        shows(
            heights,
            layout.scroll,
            layout.height,
            layout.row_count,
            seen,
            layout.first_row_offset,
        ),
        layout.visible == held_to(seen, layout.entry_bound()),
        is_shortest(heights, layout.min_row_height),
        layout.columns == 1,
    ensures
        layout.visible.count <= layout.entry_bound() + 1,
        layout.visible.first + layout.visible.count <= layout.row_count,
        heights is Uniform ==> layout.visible == seen,
        spans_rows(heights, layout.row_count) ==> seen.count <= layout.visible.count + 1,
{
    let first = seen.first as int;
    let clipped = layout.first_row_offset as int;
    lemma_list_bound(layout);
    if layout.row_count > 0 && layout.height > 0 && spans_rows(heights, layout.row_count) {
        lemma_shown_rows(
            heights,
            layout.scroll,
            layout.height,
            layout.row_count,
            seen,
            layout.first_row_offset,
        );
        match heights {
            Heights::Uniform(height) => {
                crate::scroll::uniform_rows_are_bounded(
                    height,
                    first,
                    clipped,
                    layout.height as int,
                    layout.row_count as int,
                );
            },
            Heights::Variable(tree) => {
                lemma_covering_rows(layout, heights, seen);
            },
        }
    }
}

proof fn lemma_covering_rows(layout: ViewportLayout, heights: Heights, seen: VisibleRange)
    requires
        shows(
            heights,
            layout.scroll,
            layout.height,
            layout.row_count,
            seen,
            layout.first_row_offset,
        ),
        heights is Variable,
        is_shortest(heights, layout.min_row_height),
        spans_rows(heights, layout.row_count),
        layout.row_count > 0,
        layout.height > 0,
    ensures
        seen.first + 1 < layout.row_count ==> rows_wanted(
            heights,
            seen.first as int,
            layout.first_row_offset as int,
            layout.height as int,
            layout.row_count as int,
        ) <= layout.height / layout.min_row_height + 4,
{
    let first = seen.first as int;
    let tree = heights->Variable_0;
    let whole = whole_pixel(layout.scroll as int);
    assert(tree@[first] >= 1);
    assert forall|i: int| 0 <= i < tree@.len() implies layout.min_row_height
        <= #[trigger] tree@[i] by {
        assert(layout.min_row_height <= at_least_a_pixel(tree@[i]));
    }
    if whole < prefix(tree@, tree@.len() as int) {
        crate::fenwick::offset_is_inside_its_row(tree@, whole, first);
        crate::scroll::variable_rows_are_bounded(
            heights,
            first,
            layout.first_row_offset as int,
            layout.height as int,
            layout.row_count as int,
            layout.min_row_height as int,
        );
    } else if first + 1 < tree@.len() {
        crate::fenwick::prefix_is_monotone(tree@, first + 1, tree@.len() as int);
    }
}

/// What a list holds back to stay inside its bound was not in the viewport: the rows that are laid
/// out reach past its bottom edge, or to the end of the corpus.
pub proof fn a_bounded_list_covers_its_viewport(
    layout: ViewportLayout,
    heights: Heights,
    seen: VisibleRange,
)
    requires
        shows(
            heights,
            layout.scroll,
            layout.height,
            layout.row_count,
            seen,
            layout.first_row_offset,
        ),
        layout.visible == held_to(seen, layout.entry_bound()),
        is_shortest(heights, layout.min_row_height),
        spans_rows(heights, layout.row_count),
        heights matches Heights::Uniform(h) ==> h >= 1,
        layout.columns == 1,
        0 < layout.height <= u32::MAX - 4,
    ensures
        ({
            let first = layout.visible.first as int;
            let end = first + layout.visible.count;
            end < layout.row_count ==> heights.top(end) * 1_000_000 >= heights.top(first)
                * 1_000_000 + layout.first_row_offset + layout.height * 1_000_000
        }),
{
    let first = seen.first as int;
    let clipped = layout.first_row_offset as int;
    let h = layout.height as int;
    let n = layout.row_count as int;
    if n > 0 {
        let wanted = rows_wanted(heights, first, clipped, h, n);
        lists_stay_inside_their_bound(layout, heights, seen);
        lemma_list_bound(layout);
        let d = layout.min_row_height as int;
        assert(h / d <= h) by (nonlinear_arith)
            requires
                h >= 0,
                d >= 1,
        ;
        match heights {
            Heights::Uniform(height) => {
                crate::scroll::uniform_rows_are_bounded(height, first, clipped, h, n);
                crate::scroll::the_viewport_is_covered(
                    heights,
                    whole_pixel(layout.scroll as int),
                    n,
                    first,
                    clipped,
                    h,
                );
            },
            Heights::Variable(tree) => {
                lemma_covering_rows(layout, heights, seen);
                let target = heights.top(first) + h + ceil_div(clipped, 1_000_000);
                let covering = crate::scroll::first_row_below(heights, first, n, target);
                crate::scroll::first_row_below_is_below(heights, first, n, target);
                let end = first + layout.visible.count;
                if end < n {
                    assert(wanted == covering - first + 2);
                    assert(end >= covering);
                    crate::fenwick::prefix_is_monotone(tree@, covering, end);
                }
            },
        }
    }
}

/// A grid never lays out more than one line of entries past its bound, wherever it is
/// scrolled, and never an entry past the end of the corpus.
pub proof fn grids_stay_inside_their_bound(
    layout: ViewportLayout,
    lines: u64,
    seen: VisibleRange,
    clipped: Micros,
)
    requires
        layout.columns >= 1,
        layout.min_row_height >= 1,
        lines == ceil_div(layout.row_count as int, layout.columns as int),
        shows(
            Heights::Uniform(layout.min_row_height),
            layout.scroll,
            layout.height,
            lines,
            seen,
            clipped,
        ),
        layout.visible == entries_of(seen, layout.columns as int, layout.row_count),
    ensures
        layout.visible.count <= layout.entry_bound() + layout.columns,
        layout.visible.first + layout.visible.count <= layout.row_count,
{
    let c = layout.columns as int;
    let h = layout.height as int;
    let d = layout.min_row_height as int;
    let k = seen.count as int;
    lemma_lines_hold_entries(
        layout.row_count as int,
        c,
        lines as int,
        seen.first as int,
        seen.count as int,
    );
    assert(h / d >= 0) by (nonlinear_arith)
        requires
            h >= 0,
            d >= 1,
    ;
    if lines > 0 && h > 0 {
        lemma_shown_rows(
            Heights::Uniform(layout.min_row_height),
            layout.scroll,
            layout.height,
            lines,
            seen,
            clipped,
        );
        crate::scroll::uniform_rows_are_bounded(
            layout.min_row_height,
            seen.first as int,
            clipped as int,
            h,
            lines as int,
        );
    }
    assert(k <= h / d + 3);
    assert(k * c <= (h / d + 2) * c + c) by (nonlinear_arith)
        requires
            k <= h / d + 3,
            c >= 1,
    ;
    let first = seen.first * c;
    assert((seen.first + k) * c == first + k * c) by (nonlinear_arith)
        requires
            first == seen.first * c,
    ;
    let end = min_of((seen.first + k) * c, layout.row_count as int);
    lemma_truncation((end - first) as u64);
}

/// The list is the grid of one column, exactly.
pub proof fn a_one_column_grid_is_the_list(
    entry_count: u64,
    cell: u32,
    width: u32,
    height: u32,
    scale: Micros,
    text_scale: Micros,
    density: Density,
    scroll: Micros,
    seen: VisibleRange,
    clipped: Micros,
)
    requires
        cell >= 1,
        shows(Heights::Uniform(cell), scroll, height, entry_count, seen, clipped),
    ensures
        ceil_div(entry_count as int, 1) == entry_count,
        ({
            let grid = grid_layout(
                entry_count,
                1,
                Heights::Uniform(cell),
                width,
                height,
                scale,
                text_scale,
                density,
                scroll,
                seen,
                clipped,
            );
            grid == list_layout(
                entry_count,
                Heights::Uniform(cell),
                width,
                height,
                scale,
                text_scale,
                density,
                cell,
                scroll,
                held_to(seen, grid.entry_bound()),
                clipped,
                cell,
            )
        }),
{
    let grid = grid_layout(
        entry_count,
        1,
        Heights::Uniform(cell),
        width,
        height,
        scale,
        text_scale,
        density,
        scroll,
        seen,
        clipped,
    );
    let list = ViewportLayout { visible: held_to(seen, grid.entry_bound()), ..grid };
    lists_stay_inside_their_bound(list, Heights::Uniform(cell), seen);
}

/// The lines of a layout lie one under the other, each as far below the one above as a row is tall, and the
/// first is as far above the surface as it is scrolled off. Entries of one line are on one level.
pub proof fn lines_lie_one_under_the_other(layout: ViewportLayout, line: int, column: int)
    requires
        line >= 0,
        0 <= column < at_least_one(layout.columns),
    ensures
        layout.top_of(0) == layout.origin_y - layout.first_row_offset,
        layout.top_of((line + 1) * at_least_one(layout.columns)) == layout.top_of(
            line * at_least_one(layout.columns),
        ) + layout.row_height * 1_000_000,
        layout.top_of(line * at_least_one(layout.columns) + column) == layout.top_of(
            line * at_least_one(layout.columns),
        ),
{
    let d = at_least_one(layout.columns);
    let h = layout.row_height as int;
    vstd::arithmetic::div_mod::lemma_fundamental_div_mod_converse(line * d, d, line, 0);
    vstd::arithmetic::div_mod::lemma_fundamental_div_mod_converse((line + 1) * d, d, line + 1, 0);
    vstd::arithmetic::div_mod::lemma_fundamental_div_mod_converse(
        line * d + column,
        d,
        line,
        column,
    );
    vstd::arithmetic::div_mod::lemma_fundamental_div_mod_converse(0, d, 0, 0);
    assert((line + 1) * h * 1_000_000 == line * h * 1_000_000 + h * 1_000_000) by (nonlinear_arith);
    assert(0 * h * 1_000_000 == 0);
}

/// The cells of a line share the width of the surface: as many as there are columns fit, and a pixel's
/// worth more for each would not.
pub proof fn cells_share_the_width(layout: ViewportLayout)
    ensures
        0 <= layout.width * 1_000_000 - layout.cell() * at_least_one(layout.columns)
            < at_least_one(layout.columns),
        layout.columns <= 1 ==> layout.cell() == layout.width * 1_000_000,
{
    let w = layout.width * 1_000_000;
    let d = at_least_one(layout.columns);
    assert(0 <= w - (w / d) * d < d) by (nonlinear_arith)
        requires
            d >= 1,
    ;
}

/// A grid lays out every entry of the lines that it shows, and no other: the first is the first of the first
/// line, and the last is the last of the last line or of the corpus.
pub proof fn a_grid_shows_whole_lines(
    lines: VisibleRange,
    columns: int,
    entry_count: u64,
    entry: int,
)
    requires
        1 <= columns <= u32::MAX,
        0 <= entry < entry_count,
        lines.first * columns <= entry_count,
        lines.count * columns <= u32::MAX,
    ensures
        ({
            let shown = entries_of(lines, columns, entry_count);
            shown.first <= entry < shown.first + shown.count <==> lines.first <= entry / columns
                < lines.first + lines.count
        }),
{
    let q = entry / columns;
    let a = lines.first as int;
    let b = lines.first + lines.count;
    assert(q * columns <= entry < (q + 1) * columns) by (nonlinear_arith)
        requires
            q == entry / columns,
            columns >= 1,
    ;
    assert(a <= q <==> a * columns <= entry) by (nonlinear_arith)
        requires
            q * columns <= entry < (q + 1) * columns,
            columns >= 1,
    ;
    assert(q < b <==> entry < b * columns) by (nonlinear_arith)
        requires
            q * columns <= entry < (q + 1) * columns,
            columns >= 1,
    ;
    assert(b * columns == a * columns + lines.count * columns) by (nonlinear_arith)
        requires
            b == a + lines.count,
    ;
    assert(a * columns >= 0) by (nonlinear_arith)
        requires
            a >= 0,
            columns >= 1,
    ;
    assert(lines.count * columns >= 0) by (nonlinear_arith)
        requires
            columns >= 1,
    ;
}

/// A layout is of the surface that it was asked for: at the window's origin, as large as the surface, at its
/// scales and its offset, of as many rows as the corpus has and as tall as they are together.
pub proof fn a_layout_is_of_what_was_asked_for(
    row_count: u64,
    heights: Heights,
    width: u32,
    height: u32,
    scale: Micros,
    text_scale: Micros,
    density: Density,
    row_height: u32,
    scroll: Micros,
    visible: VisibleRange,
    clipped: Micros,
    shortest: u32,
)
    requires
        heights matches Heights::Uniform(h) ==> h * row_count <= u64::MAX,
        heights matches Heights::Variable(tree) ==> tree@.len() == row_count && prefix(
            tree@,
            tree@.len() as int,
        ) <= u64::MAX,
    ensures
        ({
            let l = list_layout(
                row_count,
                heights,
                width,
                height,
                scale,
                text_scale,
                density,
                row_height,
                scroll,
                visible,
                clipped,
                shortest,
            );
            &&& l.origin_x == 0 && l.origin_y == 0
            &&& l.width == width && l.height == height
            &&& l.scale == scale && l.text_scale == text_scale && l.density == density
            &&& l.scroll == scroll && l.first_row_offset == clipped
            &&& l.row_count == row_count
            &&& l.content_height == heights.top(row_count as int)
            &&& row_height >= 1 ==> l.row_height == row_height
            &&& row_height == 0 ==> l.row_height == 1
            &&& l.columns == 1
            &&& l.visible == visible
            &&& l.min_row_height == shortest
        }),
{
}

} // verus!
