//! How the entry surface is divided into columns, and where the horizontal scroll sits.
//!
//! A band's `x` is in content space: it is measured from the left edge of the first column and
//! ignores the scroll. Taking the scroll away gives viewport space.

use crate::units::{
    clamped, fits, floor_div, hold_between, larger, max_of, min_of, smaller, Micros, MICRO,
};
use core::ops::Range;
use vstd::prelude::*;

verus! {

/// One column's horizontal band, in content space.
#[derive(Clone, Copy, PartialEq, Eq, Debug, Structural)]
pub struct ColumnBand {
    /// Which column.
    pub index: usize,
    /// Left edge, measured from the first column rather than from the viewport.
    pub x: Micros,
    /// How wide it is.
    pub width: Micros,
}

impl ColumnBand {
    /// Right edge, in content space.
    pub fn right(&self) -> (result: Micros)
        requires
            i128::MIN <= self.x + self.width <= i128::MAX,
        ensures
            result == self.x + self.width,
    {
        self.x + self.width
    }
}

/// The horizontal division of the entry surface into columns of one width.
#[derive(Clone, Copy, PartialEq, Eq, Debug, Structural)]
pub struct ColumnLayout {
    /// How wide the visible entry surface is.
    pub surface_width: Micros,
    /// How wide one column is.
    pub column_width: Micros,
    /// Space between columns. A divider belongs to neither side.
    pub gap: Micros,
    /// How many columns are open.
    pub count: usize,
}

impl ColumnLayout {
    /// A column has some width, and is no wider than the surface it must be shown on.
    pub open spec fn sane(self) -> bool {
        &&& 0 <= self.surface_width <= 1_152_921_504_606_846_976
        &&& MICRO <= self.column_width <= max_of(self.surface_width as int, 1_000_000)
        &&& 0 <= self.gap <= 1_152_921_504_606_846_976
    }

    /// From the left edge of one column to the left edge of the next.
    pub open spec fn stride(self) -> int {
        self.column_width + self.gap
    }

    /// Left edge of a column, in content space.
    pub open spec fn left_of(self, index: int) -> int {
        index * self.stride()
    }

    /// How wide all the columns are together, with gaps between but not after.
    pub open spec fn content(self) -> int {
        if self.count == 0 {
            0
        } else {
            self.count * self.column_width + (self.count - 1) * self.gap
        }
    }

    /// The furthest that the surface can be scrolled.
    pub open spec fn furthest(self) -> int {
        max_of(self.content() - self.surface_width, 0)
    }

    /// A scroll offset that is in range.
    pub open spec fn held(self, scroll_x: int) -> int {
        clamped(scroll_x, 0, self.furthest())
    }

    /// Whether viewport `x` lies in a column, rather than in a gap or past the end.
    pub open spec fn is_in(self, index: int, x: int, scroll_x: int) -> bool {
        &&& 0 <= index < self.count
        &&& 0 <= x < self.surface_width
        &&& self.left_of(index) <= x + self.held(scroll_x) < self.left_of(index)
            + self.column_width
    }

    /// Whether a column meets the viewport: any of it is on screen.
    pub open spec fn shows(self, index: int, scroll_x: int) -> bool {
        &&& 0 <= index < self.count
        &&& self.surface_width > 0
        &&& self.left_of(index) + self.column_width > self.held(scroll_x)
        &&& self.left_of(index) < self.held(scroll_x) + self.surface_width
    }

    /// The column that holds the scroll, or the one after it where its gap does.
    pub open spec fn first_met(self, scroll_x: int) -> int {
        let scroll = self.held(scroll_x);
        let stride = self.column_width + self.gap;
        if scroll % stride >= self.column_width {
            scroll / stride + 1
        } else {
            scroll / stride
        }
    }

    /// The smallest move that shows a column completely.
    pub open spec fn following(self, index: int, scroll_x: int) -> int {
        let scroll = self.held(scroll_x);
        if !(0 <= index < self.count) {
            scroll
        } else if self.left_of(index) < scroll {
            self.held(self.left_of(index))
        } else if self.left_of(index) + self.column_width > scroll + self.surface_width {
            self.held(self.left_of(index) + self.column_width - self.surface_width)
        } else {
            scroll
        }
    }

    /// A layout over `count` columns. A column is never wider than the surface, because one
    /// that is could never be scrolled fully into view.
    pub fn new(surface_width: Micros, column_width: Micros, gap: Micros, count: usize) -> (result:
        Self)
        requires
            fits(surface_width as int),
            fits(column_width as int),
            fits(gap as int),
        ensures
            result.sane(),
            result.surface_width == max_of(surface_width as int, 0),
            result.column_width == min_of(
                max_of(column_width as int, 1_000_000),
                max_of(surface_width as int, 1_000_000),
            ),
            result.gap == max_of(gap as int, 0),
            result.count == count,
    {
        ColumnLayout {
            surface_width: larger(surface_width, 0),
            column_width: smaller(larger(column_width, MICRO), larger(surface_width, MICRO)),
            gap: larger(gap, 0),
            count,
        }
    }

    /// The band of a column, in content space.
    pub fn band(&self, index: usize) -> (result: Option<ColumnBand>)
        requires
            self.sane(),
        ensures
            result == if index < self.count {
                Some(
                    ColumnBand {
                        index,
                        x: self.left_of(index as int) as Micros,
                        width: self.column_width,
                    },
                )
            } else {
                None
            },
            result matches Some(band) ==> band.x == self.left_of(index as int) && 0 <= band.x
                && band.x + band.width <= self.content(),
    {
        if index >= self.count {
            return None;
        }
        proof {
            self.lemma_bounds(index as int);
        }
        Some(
            ColumnBand {
                index,
                x: index as i128 * (self.column_width + self.gap),
                width: self.column_width,
            },
        )
    }

    /// How wide all the columns are together, with gaps between but not after.
    pub fn content_width(&self) -> (result: Micros)
        requires
            self.sane(),
        ensures
            result == self.content(),
            result >= 0,
    {
        if self.count == 0 {
            return 0;
        }
        proof {
            self.lemma_bounds(self.count - 1);
        }
        self.count as i128 * self.column_width + (self.count as i128 - 1) * self.gap
    }

    /// The furthest that the surface can be scrolled; zero when everything fits.
    pub fn max_scroll(&self) -> (result: Micros)
        requires
            self.sane(),
        ensures
            result == self.furthest(),
    {
        larger(self.content_width() - self.surface_width, 0)
    }

    /// Hold a proposed scroll offset in range.
    pub fn clamp_scroll(&self, scroll_x: Micros) -> (result: Micros)
        requires
            self.sane(),
        ensures
            result == self.held(scroll_x as int),
    {
        hold_between(scroll_x, 0, self.max_scroll())
    }

    /// Which columns meet the viewport. One that is half visible is among them: it has rows on
    /// screen, so it has to be laid out. One of which only the gap after it is left is not: where that
    /// gap is all that the viewport meets, the range is empty and starts at the next column.
    pub fn visible(&self, scroll_x: Micros) -> (result: Range<usize>)
        requires
            self.sane(),
        ensures
            result.start <= result.end <= self.count,
            self.surface_width <= 0 ==> result.start == 0 && result.end == 0,
            self.surface_width > 0 && self.count > 0 ==> result.start == self.first_met(
                scroll_x as int,
            ),
            forall|i: int|
                (result.start <= i < result.end) <==> #[trigger] self.shows(i, scroll_x as int),
    {
        if self.count == 0 || self.surface_width <= 0 {
            return 0..0;
        }
        let scroll: Micros = self.clamp_scroll(scroll_x);
        let stride: Micros = self.column_width + self.gap;
        proof {
            self.lemma_bounds(self.count - 1);
        }
        let right: Micros = scroll + self.surface_width;
        let from: i128 = floor_div(scroll, stride);
        let after: i128 = floor_div(right + (stride - 1), stride);
        proof {
            let s = stride as int;
            let n = self.count as int;
            lemma_quotient(scroll as int, s);
            lemma_quotient(right + (s - 1), s);
            assert(from < n) by (nonlinear_arith)
                requires
                    from * s <= scroll,
                    scroll < n * s,
                    s > 0,
            ;
            assert(from >= 0 && after >= 1) by (nonlinear_arith)
                requires
                    scroll >= 0,
                    right >= 1,
                    (from + 1) * s > scroll,
                    (after + 1) * s > right + (s - 1),
                    s > 0,
            ;
            assert(after > from) by (nonlinear_arith)
                requires
                    from * s <= scroll,
                    right > scroll,
                    (after + 1) * s > right + (s - 1),
                    s > 0,
            ;
        }
        let past: bool = scroll - from * stride >= self.column_width;
        proof {
            assert((from + 1) * stride == from * stride + stride) by (nonlinear_arith);
            vstd::arithmetic::div_mod::lemma_fundamental_div_mod_converse(
                scroll as int,
                stride as int,
                from as int,
                scroll - from * stride,
            );
            let s = stride as int;
            let n = self.count as int;
            let w = self.column_width as int;
            let start = if past {
                from + 1
            } else {
                from as int
            };
            assert forall|i: int|
                (start <= i < min_of(after as int, n)) <==> #[trigger] self.shows(
                    i,
                    scroll_x as int,
                ) by {
                lemma_in_between(i, from as int, scroll as int, s, w);
                lemma_short_of(i, after as int, right as int, s);
            }
        }
        let first: usize = if past {
            from as usize + 1
        } else {
            from as usize
        };
        let last: usize = if after < self.count as i128 {
            after as usize
        } else {
            self.count
        };
        first..last
    }

    /// The smallest move that shows a column completely. A column that is fully visible already
    /// does not move at all.
    pub fn scroll_to_show(&self, index: usize, scroll_x: Micros) -> (result: Micros)
        requires
            self.sane(),
        ensures
            result == self.following(index as int, scroll_x as int),
    {
        let scroll: Micros = self.clamp_scroll(scroll_x);
        proof {
            if self.count > 0 {
                self.lemma_bounds(self.count - 1);
            }
        }
        match self.band(index) {
            None => scroll,
            Some(band) => {
                if band.x < scroll {
                    self.clamp_scroll(band.x)
                } else if band.right() > scroll + self.surface_width {
                    self.clamp_scroll(band.right() - self.surface_width)
                } else {
                    scroll
                }
            },
        }
    }

    /// Which column contains viewport `x`. None for a gap: a click on a divider belongs to
    /// neither column.
    pub fn column_at(&self, x: Micros, scroll_x: Micros) -> (result: Option<usize>)
        requires
            self.sane(),
        ensures
            match result {
                Some(index) => self.is_in(index as int, x as int, scroll_x as int),
                None => forall|i: int| !(#[trigger] self.is_in(i, x as int, scroll_x as int)),
            },
    {
        if x < 0 || x >= self.surface_width {
            return None;
        }
        let scroll: Micros = self.clamp_scroll(scroll_x);
        proof {
            if self.count > 0 {
                self.lemma_bounds(self.count - 1);
            }
        }
        let content_x: Micros = x + scroll;
        let stride: Micros = self.column_width + self.gap;
        let at: i128 = floor_div(content_x, stride);
        proof {
            let s = stride as int;
            lemma_quotient(content_x as int, s);
            assert(at >= 0) by (nonlinear_arith)
                requires
                    content_x >= 0,
                    (at + 1) * s > content_x,
                    s > 0,
            ;
            assert forall|i: int| #[trigger]
                self.is_in(i, x as int, scroll_x as int) implies i == at by {
                lemma_only_one(i, at as int, content_x as int, s);
            }
        }
        if at >= self.count as i128 {
            return None;
        }
        proof {
            self.lemma_bounds(at as int);
        }
        // Past the column's own width is the gap after it.
        if content_x < at * stride + self.column_width {
            Some(at as usize)
        } else {
            assert(!self.is_in(at as int, x as int, scroll_x as int));
            None
        }
    }

    /// Where a column is drawn, in viewport space, or `None` when it is off screen.
    pub fn viewport_x(&self, index: usize, scroll_x: Micros) -> (result: Option<Micros>)
        requires
            self.sane(),
        ensures
            ({
                let x = self.left_of(index as int) - self.held(scroll_x as int);
                match result {
                    Some(found) => {
                        &&& index < self.count
                        &&& found == x
                        &&& x + self.column_width > 0
                        &&& x < self.surface_width
                    },
                    None => {
                        ||| index >= self.count
                        ||| x + self.column_width <= 0
                        ||| x >= self.surface_width
                    },
                }
            }),
    {
        let band: ColumnBand = match self.band(index) {
            None => return None,
            Some(band) => band,
        };
        proof {
            self.lemma_bounds(self.count - 1);
        }
        let x: Micros = band.x - self.clamp_scroll(scroll_x);
        if x + band.width > 0 && x < self.surface_width {
            Some(x)
        } else {
            None
        }
    }

    proof fn lemma_bounds(self, index: int)
        requires
            self.sane(),
            0 <= index < self.count,
        ensures
            0 <= self.left_of(index),
            self.left_of(index) + self.column_width <= self.content(),
            self.content() + self.gap == self.count * self.stride(),
            0 <= index * (self.column_width + self.gap),
            0 <= self.count * self.column_width
                <= 0x1_0000_0000_0000_0000 * 1_152_921_504_606_846_976,
            0 <= (self.count - 1) * self.gap
                <= 0x1_0000_0000_0000_0000 * 1_152_921_504_606_846_976,
            0 <= self.content() <= 0x2_0000_0000_0000_0000 * 1_152_921_504_606_846_976,
            0x2_0000_0000_0000_0000 * 1_152_921_504_606_846_976
                < 0x3000_0000_0000_0000_0000_0000_0000_0000,
    {
        let n = self.count as int;
        let w = self.column_width as int;
        let g = self.gap as int;
        assert(n * (w + g) == n * w + (n - 1) * g + g) by (nonlinear_arith);
        assert(0 <= index * (w + g)) by (nonlinear_arith)
            requires
                0 <= index,
                w > 0,
                g >= 0,
        ;
        assert(index * (w + g) + w <= n * w + (n - 1) * g) by (nonlinear_arith)
            requires
                0 <= index <= n - 1,
                w > 0,
                g >= 0,
        ;
        assert(0 <= n * w <= 0x1_0000_0000_0000_0000 * 1_152_921_504_606_846_976)
            by (nonlinear_arith)
            requires
                0 <= n <= 0x1_0000_0000_0000_0000,
                0 <= w <= 1_152_921_504_606_846_976,
        ;
        assert(0 <= (n - 1) * g <= 0x1_0000_0000_0000_0000 * 1_152_921_504_606_846_976)
            by (nonlinear_arith)
            requires
                1 <= n <= 0x1_0000_0000_0000_0000,
                0 <= g <= 1_152_921_504_606_846_976,
        ;
        assert(0x2_0000_0000_0000_0000 * 1_152_921_504_606_846_976
            < 0x3000_0000_0000_0000_0000_0000_0000_0000) by (nonlinear_arith);
        assert(0x1_0000_0000_0000_0000 * 1_152_921_504_606_846_976 + 0x1_0000_0000_0000_0000
            * 1_152_921_504_606_846_976 == 0x2_0000_0000_0000_0000 * 1_152_921_504_606_846_976)
            by (nonlinear_arith);
    }
}

proof fn lemma_quotient(a: int, d: int)
    requires
        d > 0,
    ensures
        (a / d) * d <= a < (a / d + 1) * d,
{
    assert((a / d) * d <= a < (a / d + 1) * d) by (nonlinear_arith)
        requires
            d > 0,
    ;
}

proof fn lemma_in_between(i: int, from: int, scroll: int, s: int, w: int)
    requires
        0 < w <= s,
        from * s <= scroll < (from + 1) * s,
    ensures
        (if scroll - from * s >= w {
            from + 1
        } else {
            from
        }) <= i <==> i * s + w > scroll,
{
    if from < i {
        assert(i * s >= (from + 1) * s) by (nonlinear_arith)
            requires
                from + 1 <= i,
                s > 0,
        ;
    } else if i < from {
        assert(i * s + s <= from * s) by (nonlinear_arith)
            requires
                i + 1 <= from,
                s > 0,
        ;
    }
}

proof fn lemma_short_of(i: int, after: int, right: int, s: int)
    requires
        s > 0,
        after * s <= right + (s - 1) < (after + 1) * s,
    ensures
        i < after <==> i * s < right,
{
    assert((after + 1) * s == after * s + s) by (nonlinear_arith);
    if i < after {
        assert(i * s + s <= after * s) by (nonlinear_arith)
            requires
                i + 1 <= after,
                s > 0,
        ;
    } else {
        assert(i * s >= after * s) by (nonlinear_arith)
            requires
                i >= after,
                s > 0,
        ;
    }
}

proof fn lemma_only_one(i: int, at: int, x: int, s: int)
    requires
        s > 0,
        at * s <= x < (at + 1) * s,
        i * s <= x < i * s + s,
    ensures
        i == at,
{
    if i < at {
        assert(i * s + s <= at * s) by (nonlinear_arith)
            requires
                i + 1 <= at,
                s > 0,
        ;
    }
    if i > at {
        assert((at + 1) * s <= i * s) by (nonlinear_arith)
            requires
                at + 1 <= i,
                s > 0,
        ;
    }
}

/// A viewport position lies in at most one column.
pub proof fn columns_do_not_overlap(layout: ColumnLayout, i: int, j: int, x: int, scroll_x: int)
    requires
        layout.sane(),
        layout.is_in(i, x, scroll_x),
        layout.is_in(j, x, scroll_x),
    ensures
        i == j,
{
    let s = layout.stride();
    let at = x + layout.held(scroll_x);
    assert((j + 1) * s == j * s + s) by (nonlinear_arith);
    lemma_only_one(i, j, at, s);
}

/// Where a column is drawn and what a click there answers agree, for every visible pixel of it.
pub proof fn drawing_and_hit_testing_agree(
    layout: ColumnLayout,
    index: int,
    probe: int,
    scroll_x: int,
)
    requires
        layout.sane(),
        0 <= index < layout.count,
        0 <= probe < layout.surface_width,
        ({
            let x = layout.left_of(index) - layout.held(scroll_x);
            x <= probe < x + layout.column_width
        }),
    ensures
        layout.is_in(index, probe, scroll_x),
{
}

/// A column of which any pixel can be clicked is among the visible ones.
pub proof fn a_clickable_column_is_laid_out(
    layout: ColumnLayout,
    index: int,
    x: int,
    scroll_x: int,
)
    requires
        layout.sane(),
        layout.is_in(index, x, scroll_x),
    ensures
        layout.shows(index, scroll_x),
{
    let s = layout.stride();
    assert((index + 1) * s == index * s + s) by (nonlinear_arith);
}

/// Following focus shows the whole column wherever the surface has room for one, lands in range,
/// and settles: following again does not move.
pub proof fn following_focus_shows_the_column(layout: ColumnLayout, index: int, scroll_x: int)
    requires
        layout.sane(),
        0 <= index < layout.count,
        layout.surface_width >= MICRO,
    ensures
        ({
            let scroll = layout.following(index, scroll_x);
            &&& 0 <= scroll <= layout.furthest()
            &&& scroll <= layout.left_of(index)
            &&& layout.left_of(index) + layout.column_width <= scroll + layout.surface_width
            &&& layout.following(index, scroll) == scroll
        }),
{
    layout.lemma_bounds(index);
}

/// How far apart two offsets are.
pub open spec fn distance(a: int, b: int) -> int {
    if a <= b {
        b - a
    } else {
        a - b
    }
}

/// Following focus moves no further than it must: any offset in range that shows the whole
/// column is at least as far away.
pub proof fn following_focus_moves_least(
    layout: ColumnLayout,
    index: int,
    scroll_x: int,
    other: int,
)
    requires
        layout.sane(),
        0 <= index < layout.count,
        layout.surface_width >= MICRO,
        0 <= other <= layout.furthest(),
        other <= layout.left_of(index),
        layout.left_of(index) + layout.column_width <= other + layout.surface_width,
    ensures
        ({
            let from = layout.held(scroll_x);
            let to = layout.following(index, scroll_x);
            distance(from, to) <= distance(from, other)
        }),
{
    layout.lemma_bounds(index);
}

/// Columns that all fit never scroll.
pub proof fn what_fits_does_not_scroll(layout: ColumnLayout, index: int, scroll_x: int)
    requires
        layout.sane(),
        layout.content() <= layout.surface_width,
    ensures
        layout.held(scroll_x) == 0,
        layout.following(index, scroll_x) == 0,
{
}

/// Columns stand side by side, each as wide as the others and one gap apart, from the left edge of
/// the content to its right edge.
pub proof fn columns_stand_side_by_side(layout: ColumnLayout, index: int)
    requires
        0 <= index < layout.count,
    ensures
        layout.left_of(0) == 0,
        index + 1 < layout.count ==> layout.left_of(index + 1) == layout.left_of(index)
            + layout.column_width + layout.gap,
        index + 1 == layout.count ==> layout.left_of(index) + layout.column_width
            == layout.content(),
{
    let stride = layout.stride();
    let gap = layout.gap as int;
    let width = layout.column_width as int;
    assert((index + 1) * stride == index * stride + stride) by (nonlinear_arith);
    assert(0 * stride == 0) by (nonlinear_arith);
    assert(index * (width + gap) + width == (index + 1) * width + index * gap) by (nonlinear_arith);
}

/// Scrolling stops where the content's edges meet the surface's, and goes everywhere in between.
pub proof fn scrolling_stops_at_the_edges(layout: ColumnLayout, scroll_x: int)
    ensures
        0 <= layout.held(scroll_x),
        layout.content() > layout.surface_width ==> layout.held(scroll_x) + layout.surface_width
            <= layout.content(),
        0 <= scroll_x && scroll_x + layout.surface_width <= layout.content() ==> layout.held(scroll_x)
            == scroll_x,
        scroll_x <= 0 ==> layout.held(scroll_x) == 0,
        layout.content() > layout.surface_width && scroll_x + layout.surface_width
            >= layout.content() ==> layout.held(scroll_x) + layout.surface_width == layout.content(),
{
}

/// The first column that a scrolled surface meets ends to the right of the surface's left edge, and
/// the one before it does not.
pub proof fn the_first_column_met_is_the_leftmost(layout: ColumnLayout, scroll_x: int)
    requires
        layout.sane(),
    ensures
        ({
            let first = layout.first_met(scroll_x);
            let scroll = layout.held(scroll_x);
            &&& 0 <= first
            &&& layout.left_of(first) + layout.column_width > scroll
            &&& first > 0 ==> layout.left_of(first - 1) + layout.column_width <= scroll
        }),
{
    let scroll = layout.held(scroll_x);
    let stride = layout.stride();
    let q = scroll / stride;
    vstd::arithmetic::div_mod::lemma_fundamental_div_mod(scroll, stride);
    vstd::arithmetic::div_mod::lemma_mod_bound(scroll, stride);
    vstd::arithmetic::div_mod::lemma_div_pos_is_pos(scroll, stride);
    assert(stride * q == q * stride) by (nonlinear_arith);
    assert((q + 1) * stride == q * stride + stride) by (nonlinear_arith);
    assert((q - 1) * stride == q * stride - stride) by (nonlinear_arith);
}

} // verus!
