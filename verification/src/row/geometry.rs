//! Where things are on a row and in a cell.

use crate::material::{modest, Surface};
use crate::recycler::ViewportLayout;
use crate::units::{
    clamped, fits, floor_div, larger, max_of, min_of, product, smaller, times, Micros, MICRO,
};
use vstd::prelude::*;

verus! {

/// What the design system says about rows, in logical pixels.
#[derive(Clone, Copy, PartialEq, Eq, Debug, Structural)]
pub struct RowTokens {
    /// The smallest step of the space scale.
    pub space_xs: Micros,
    /// The next step.
    pub space_sm: Micros,
    /// The middle step.
    pub space_md: Micros,
    /// The next step.
    pub space_lg: Micros,
    /// The largest step.
    pub space_xl: Micros,
    /// The radius of a row.
    pub radius_row: Micros,
    /// The radius of a chip.
    pub radius_chip: Micros,
    /// How wide the focus ring is.
    pub ring_width: Micros,
    /// How wide the outline on either side of the focus ring is.
    pub outline_width: Micros,
    /// The grid that icons are designed on.
    pub icon_grid: Micros,
    /// How much of an icon an emblem takes.
    pub emblem_fraction: Micros,
}

impl RowTokens {
    /// Every length is one that can be scaled.
    pub open spec fn sane(self) -> bool {
        &&& 0 <= self.space_xs <= 1_000_000_000_000
        &&& 0 <= self.space_sm <= 1_000_000_000_000
        &&& 0 <= self.space_md <= 1_000_000_000_000
        &&& 0 <= self.space_lg <= 1_000_000_000_000
        &&& 0 <= self.space_xl <= 1_000_000_000_000
        &&& 0 <= self.radius_row <= 1_000_000_000_000
        &&& 0 <= self.radius_chip <= 1_000_000_000_000
        &&& 0 <= self.ring_width <= 1_000_000_000_000
        &&& 0 <= self.outline_width <= 1_000_000_000_000
        &&& 0 <= self.icon_grid <= 1_000_000_000_000
        &&& 0 <= self.emblem_fraction <= MICRO
    }
}

/// A device pixel ratio that is never nothing.
pub open spec fn sound_scale(scale: int) -> int {
    max_of(scale, 100_000)
}

/// A logical length in physical pixels.
pub open spec fn in_px(logical: int, scale: int) -> int {
    times(logical, sound_scale(scale))
}

/// A logical length in physical pixels.
pub fn to_px(logical: Micros, scale: Micros) -> (result: Micros)
    requires
        0 <= logical <= 1_000_000_000_000,
        modest(scale as int),
    ensures
        result == in_px(logical as int, scale as int),
        0 <= result <= 1_000_000_000_000_000_000,
{
    let scale: Micros = larger(scale, 100_000);
    assert(0 <= logical * scale <= 1_000_000_000_000_000_000_000_000) by (nonlinear_arith)
        requires
            0 <= logical <= 1_000_000_000_000,
            0 <= scale <= 1_000_000_000_000,
    ;
    product(logical, scale)
}

/// Column geometry, in physical pixels.
#[derive(Clone, Copy, PartialEq, Eq, Debug, Structural)]
pub struct Columns {
    /// Left edge of the surface that the columns are laid out on.
    pub x0: Micros,
    /// Space between the surface's edge and the row's content.
    pub gutter: Micros,
    /// Width of the status rail.
    pub rail: Micros,
    /// Width of the icon slot.
    pub icon: Micros,
    /// Width of the name column.
    pub name: Micros,
    /// Width of the size column.
    pub size: Micros,
    /// Width of the modified column.
    pub modified: Micros,
    /// Width of the kind column.
    pub kind: Micros,
    /// Space between columns.
    pub gap: Micros,
    /// Space at either end of a row.
    pub padding: Micros,
    /// Whether size, modified and kind are drawn at all.
    pub metadata: bool,
}

/// The columns of a surface. Gaps, padding and the rail come from the space scale, the icon slot
/// from the icon grid, and the other columns from what they must hold; the name has what is
/// left, and never less than forty logical pixels.
pub open spec fn columns_of(
    x: Micros,
    width: int,
    scale: int,
    tokens: RowTokens,
    metadata: bool,
) -> Columns {
    let gutter = in_px(tokens.space_md as int, scale);
    let padding = in_px(tokens.space_lg as int, scale);
    let gap = in_px(tokens.space_xl as int, scale);
    let rail = in_px(tokens.space_xs as int, scale);
    let icon = in_px(tokens.icon_grid as int, scale);
    let size = if metadata {
        in_px(72_000_000, scale)
    } else {
        0
    };
    let modified = if metadata {
        in_px(132_000_000, scale)
    } else {
        0
    };
    let kind = if metadata {
        in_px(96_000_000, scale)
    } else {
        0
    };
    let gaps = if metadata {
        gap * 4
    } else {
        gap
    };
    let fixed = gutter * 2 + padding * 2 + rail + icon + size + modified + kind + gaps;
    Columns {
        x0: x,
        gutter: gutter as Micros,
        rail: rail as Micros,
        icon: icon as Micros,
        name: max_of(width - fixed, in_px(40_000_000, scale)) as Micros,
        size: size as Micros,
        modified: modified as Micros,
        kind: kind as Micros,
        gap: gap as Micros,
        padding: padding as Micros,
        metadata,
    }
}

impl Columns {
    /// No column is negative, and every edge is small enough to compute with.
    pub open spec fn sane(self) -> bool {
        &&& fits(self.x0 as int)
        &&& 0 <= self.gutter <= 1_000_000_000_000_000_000
        &&& 0 <= self.rail <= 1_000_000_000_000_000_000
        &&& 0 <= self.icon <= 1_000_000_000_000_000_000
        &&& 0 <= self.name <= 2_000_000_000_000_000_000
        &&& 0 <= self.size <= 1_000_000_000_000_000_000
        &&& 0 <= self.modified <= 1_000_000_000_000_000_000
        &&& 0 <= self.kind <= 1_000_000_000_000_000_000
        &&& 0 <= self.gap <= 1_000_000_000_000_000_000
        &&& 0 <= self.padding <= 1_000_000_000_000_000_000
    }

    /// Left edge of the rail.
    pub open spec fn rail_at(self) -> int {
        self.x0 + self.gutter + self.padding
    }

    /// Left edge of the icon slot.
    pub open spec fn icon_at(self) -> int {
        self.rail_at() + self.rail + self.gap
    }

    /// Left edge of the name.
    pub open spec fn name_at(self) -> int {
        self.icon_at() + self.icon + self.gap
    }

    /// Left edge of the size.
    pub open spec fn size_at(self) -> int {
        self.name_at() + self.name + self.gap
    }

    /// Left edge of the modified time.
    pub open spec fn modified_at(self) -> int {
        self.size_at() + self.size + self.gap
    }

    /// Left edge of the kind.
    pub open spec fn kind_at(self) -> int {
        self.modified_at() + self.modified + self.gap
    }

    /// Columns for a list that starts at the window's left edge.
    pub fn for_width(width: Micros, scale: Micros, tokens: &RowTokens) -> (result: Self)
        requires
            fits(width as int),
            modest(scale as int),
            tokens.sane(),
        ensures
            result == columns_of(0, width as int, scale as int, *tokens, true),
            result.sane(),
    {
        Self::for_rect(0, width, scale, tokens)
    }

    /// Columns for a surface that starts at `x` and is `width` wide.
    pub fn for_rect(x: Micros, width: Micros, scale: Micros, tokens: &RowTokens) -> (result: Self)
        requires
            fits(x as int),
            fits(width as int),
            modest(scale as int),
            tokens.sane(),
        ensures
            result == columns_of(x, width as int, scale as int, *tokens, true),
            result.sane(),
    {
        Self::for_rect_with(x, width, scale, tokens, true)
    }

    /// The name and nothing else, for a narrow column among several.
    pub fn for_column(x: Micros, width: Micros, scale: Micros, tokens: &RowTokens) -> (result: Self)
        requires
            fits(x as int),
            fits(width as int),
            modest(scale as int),
            tokens.sane(),
        ensures
            result == columns_of(x, width as int, scale as int, *tokens, false),
            result.sane(),
    {
        Self::for_rect_with(x, width, scale, tokens, false)
    }

    /// Columns for a surface, with or without the metadata.
    pub fn for_rect_with(
        x: Micros,
        width: Micros,
        scale: Micros,
        tokens: &RowTokens,
        metadata: bool,
    ) -> (result: Self)
        requires
            fits(x as int),
            fits(width as int),
            modest(scale as int),
            tokens.sane(),
        ensures
            result == columns_of(x, width as int, scale as int, *tokens, metadata),
            result.sane(),
    {
        let gutter: Micros = to_px(tokens.space_md, scale);
        let padding: Micros = to_px(tokens.space_lg, scale);
        let gap: Micros = to_px(tokens.space_xl, scale);
        let rail: Micros = to_px(tokens.space_xs, scale);
        let icon: Micros = to_px(tokens.icon_grid, scale);
        // What these must hold: "999.9 GB", a fixed-width timestamp, and a kind.
        let (size, modified, kind): (Micros, Micros, Micros) = if metadata {
            (to_px(72_000_000, scale), to_px(132_000_000, scale), to_px(96_000_000, scale))
        } else {
            (0, 0, 0)
        };
        let gaps: Micros = if metadata {
            gap * 4
        } else {
            gap
        };
        let fixed: Micros = gutter * 2 + padding * 2 + rail + icon + size + modified + kind + gaps;
        let name: Micros = larger(width - fixed, to_px(40_000_000, scale));
        Columns { x0: x, gutter, rail, icon, name, size, modified, kind, gap, padding, metadata }
    }

    /// Left edge of the row's content, inside the gutter.
    pub fn content_x(&self) -> (result: Micros)
        requires
            self.sane(),
        ensures
            result == self.x0 + self.gutter,
    {
        self.x0 + self.gutter
    }

    /// Width of the content of a surface that is `width` wide.
    pub fn content_width(&self, width: Micros) -> (result: Micros)
        requires
            self.sane(),
            fits(width as int),
        ensures
            result == max_of(width - self.gutter * 2, 1_000_000),
    {
        larger(width - self.gutter * 2, MICRO)
    }

    /// Left edge of the status rail.
    pub fn rail_x(&self) -> (result: Micros)
        requires
            self.sane(),
        ensures
            result == self.rail_at(),
    {
        self.x0 + self.gutter + self.padding
    }

    /// Left edge of the icon slot.
    pub fn icon_x(&self) -> (result: Micros)
        requires
            self.sane(),
        ensures
            result == self.icon_at(),
    {
        self.rail_x() + self.rail + self.gap
    }

    /// Left edge of the name column.
    pub fn name_x(&self) -> (result: Micros)
        requires
            self.sane(),
        ensures
            result == self.name_at(),
    {
        self.icon_x() + self.icon + self.gap
    }

    /// Left edge of the size column.
    pub fn size_x(&self) -> (result: Micros)
        requires
            self.sane(),
        ensures
            result == self.size_at(),
    {
        self.name_x() + self.name + self.gap
    }

    /// Left edge of the modified column.
    pub fn modified_x(&self) -> (result: Micros)
        requires
            self.sane(),
        ensures
            result == self.modified_at(),
    {
        self.size_x() + self.size + self.gap
    }

    /// Left edge of the kind column.
    pub fn kind_x(&self) -> (result: Micros)
        requires
            self.sane(),
        ensures
            result == self.kind_at(),
    {
        self.modified_x() + self.modified + self.gap
    }
}

/// However narrow the surface is, every column starts at or after the end of the one before it,
/// and the name has at least forty logical pixels.
pub proof fn columns_are_in_order(
    x: Micros,
    width: int,
    scale: int,
    tokens: RowTokens,
    metadata: bool,
)
    requires
        columns_of(x, width, scale, tokens, metadata).sane(),
        tokens.sane(),
        fits(width),
        modest(scale),
    ensures
        ({
            let c = columns_of(x, width, scale, tokens, metadata);
            &&& c.x0 <= c.rail_at() <= c.icon_at() <= c.name_at() <= c.size_at()
                <= c.modified_at() <= c.kind_at()
            &&& c.name >= in_px(40_000_000, scale)
        }),
{
    lemma_px(tokens.space_md as int, scale);
    lemma_px(tokens.space_lg as int, scale);
    lemma_px(tokens.space_xl as int, scale);
    lemma_px(tokens.space_xs as int, scale);
    lemma_px(tokens.icon_grid as int, scale);
    lemma_px(40_000_000, scale);
    lemma_px(72_000_000, scale);
    lemma_px(132_000_000, scale);
    lemma_px(96_000_000, scale);
}

/// Without the metadata the name is never narrower than with it.
pub proof fn a_column_spends_its_width_on_the_name(
    x: Micros,
    width: int,
    scale: int,
    tokens: RowTokens,
)
    requires
        tokens.sane(),
        fits(width),
        modest(scale),
    ensures
        columns_of(x, width, scale, tokens, true).name <= columns_of(
            x,
            width,
            scale,
            tokens,
            false,
        ).name,
        columns_of(x, width, scale, tokens, false).size == 0,
        columns_of(x, width, scale, tokens, false).modified == 0,
        columns_of(x, width, scale, tokens, false).kind == 0,
{
    lemma_px(tokens.space_md as int, scale);
    lemma_px(tokens.space_lg as int, scale);
    lemma_px(tokens.space_xl as int, scale);
    lemma_px(tokens.space_xs as int, scale);
    lemma_px(tokens.icon_grid as int, scale);
    lemma_px(40_000_000, scale);
    lemma_px(72_000_000, scale);
    lemma_px(132_000_000, scale);
    lemma_px(96_000_000, scale);
}

/// A surface further right has the same columns, moved as far.
pub proof fn an_origin_moves_every_column_alike(
    x: Micros,
    by: int,
    width: int,
    scale: int,
    tokens: RowTokens,
    metadata: bool,
)
    requires
        i128::MIN <= x + by <= i128::MAX,
    ensures
        ({
            let a = columns_of(x, width, scale, tokens, metadata);
            let b = columns_of((x + by) as Micros, width, scale, tokens, metadata);
            &&& b.name_at() == a.name_at() + by
            &&& b.size_at() == a.size_at() + by
            &&& b.modified_at() == a.modified_at() + by
            &&& b.kind_at() == a.kind_at() + by
            &&& b.name == a.name
        }),
{
}

proof fn lemma_px(logical: int, scale: int)
    requires
        0 <= logical <= 1_000_000_000_000,
        modest(scale),
    ensures
        0 <= in_px(logical, scale) <= 1_000_000_000_000_000_000,
{
    let s = sound_scale(scale);
    assert(0 <= logical * s <= 1_000_000_000_000_000_000_000_000) by (nonlinear_arith)
        requires
            0 <= logical <= 1_000_000_000_000,
            0 <= s <= 1_000_000_000_000,
    ;
}

/// Where a row's baseline sits, and how much room is left around its text.
#[derive(Clone, Copy, PartialEq, Eq, Debug, Structural)]
pub struct RowTextFit {
    /// From the row's top edge down to the baseline.
    pub baseline: Micros,
    /// Room above the tallest letter; negative where its top is cut off.
    pub headroom_above: Micros,
    /// Room below the deepest letter; negative where its tail is cut off.
    pub headroom_below: Micros,
}

impl RowTextFit {
    /// Whether any letter is cut off.
    pub fn clips(self) -> (result: bool)
        ensures
            result == (self.headroom_above < 0 || self.headroom_below < 0),
    {
        self.headroom_above < 0 || self.headroom_below < 0
    }

    /// The tighter of the two margins.
    pub fn tightest(self) -> (result: Micros)
        ensures
            result == min_of(self.headroom_above as int, self.headroom_below as int),
    {
        smaller(self.headroom_above, self.headroom_below)
    }
}

/// Where a row's text sits: centred on the middle of its small letters, which is where a line of
/// text looks centred.
pub open spec fn text_fit(row_height: u32, ascent: int, descent: int, x_height: int) -> RowTextFit {
    let height = row_height * 1_000_000;
    let baseline = (height + x_height) / 2;
    RowTextFit {
        baseline: baseline as Micros,
        headroom_above: (baseline - ascent) as Micros,
        headroom_below: (height - (baseline + descent)) as Micros,
    }
}

/// Place a row's baseline, and measure what is left above and below it.
pub fn row_text_fit(row_height: u32, ascent: Micros, descent: Micros, x_height: Micros) -> (result:
    RowTextFit)
    requires
        fits(ascent as int),
        fits(descent as int),
        fits(x_height as int),
    ensures
        result == text_fit(row_height, ascent as int, descent as int, x_height as int),
{
    let height: Micros = row_height as i128 * MICRO;
    let baseline: Micros = floor_div(height + x_height, 2);
    RowTextFit {
        baseline,
        headroom_above: baseline - ascent,
        headroom_below: height - (baseline + descent),
    }
}

/// The two margins and the text fill the row exactly.
pub proof fn the_margins_fill_the_row(row_height: u32, ascent: int, descent: int, x_height: int)
    requires
        fits(ascent),
        fits(descent),
        fits(x_height),
    ensures
        ({
            let fit = text_fit(row_height, ascent, descent, x_height);
            fit.headroom_above + ascent + descent + fit.headroom_below == row_height * 1_000_000
        }),
{
}

/// The icon sizes that a rasterizer produces, and the one that is asked for.
#[derive(Clone, Copy, PartialEq, Eq, Debug, Structural)]
pub struct IconSize {
    /// What the icon box comes to in device pixels.
    pub asked: u16,
    /// The smallest it produces.
    pub smallest: u16,
    /// The largest it produces.
    pub largest: u16,
}

/// The grid's cell geometry, derived from one continuously variable size.
#[derive(Clone, Copy, PartialEq, Eq, Debug, Structural)]
pub struct GridMetrics {
    /// The requested cell width in logical pixels, before it is stretched to fill.
    pub cell_logical: Micros,
    /// How many cells fit across the surface; at least one, however narrow it is.
    pub columns: u32,
    /// Cell height in physical pixels.
    pub cell_height: u32,
    /// Icon size in device pixels, within what the rasterizer produces.
    pub icon_px: u16,
    /// The label's line height in logical pixels.
    pub label_logical: Micros,
}

/// A cell is at least twenty-four logical pixels wide.
pub open spec fn sound_cell(cell_logical: int) -> int {
    max_of(cell_logical, 24_000_000)
}

/// The icon box of a cell, in logical pixels: fifty-five hundredths of its width.
pub open spec fn icon_box_of(cell_logical: int) -> int {
    times(cell_logical, 550_000)
}

/// How many cells fit across a surface.
pub open spec fn cells_across(surface_width: u32, cell_logical: int, scale: int) -> int {
    max_of(
        surface_width * 1_000_000 / max_of(
            times(sound_cell(cell_logical), sound_scale(scale)),
            1_000_000,
        ),
        1,
    )
}

/// A label's line height in logical pixels.
pub open spec fn label_of(label_line_height: int, scale: int) -> int {
    label_line_height * 1_000_000 / sound_scale(scale)
}

/// How tall a cell is, in logical pixels: padding, the icon, half as much padding, the label, and
/// padding again.
pub open spec fn cell_tall(cell_logical: int, label_logical: int, pad: int) -> int {
    pad + icon_box_of(cell_logical) + pad / 2 + label_logical + pad
}

/// How tall a cell is, in whole physical pixels.
pub open spec fn cell_height_of(tall: int, scale: int) -> int {
    clamped((times(tall, sound_scale(scale)) + 500_000) / 1_000_000, 1, u32::MAX as int)
}

impl GridMetrics {
    /// Fit cells of `cell_logical` across a surface. `label_line_height` is in physical pixels.
    /// `icon` is what the icon box comes to in device pixels.
    pub fn fit(
        surface_width: u32,
        cell_logical: Micros,
        scale: Micros,
        label_line_height: Micros,
        space_sm: Micros,
        icon: IconSize,
    ) -> (result: Self)
        requires
            modest(cell_logical as int),
            modest(scale as int),
            0 <= label_line_height <= 1_000_000_000_000,
            0 <= space_sm <= 1_000_000_000_000,
        ensures
            result.cell_logical == sound_cell(cell_logical as int),
            result.columns == cells_across(surface_width, cell_logical as int, scale as int),
            result.label_logical == label_of(label_line_height as int, scale as int),
            result.cell_height == cell_height_of(
                cell_tall(
                    sound_cell(cell_logical as int),
                    label_of(label_line_height as int, scale as int),
                    space_sm as int,
                ),
                scale as int,
            ),
            result.icon_px == clamped(icon.asked as int, icon.smallest as int, icon.largest as int),
            result.sane(),
    {
        let scale: Micros = larger(scale, 100_000);
        let cell: Micros = larger(cell_logical, 24_000_000);
        proof {
            lemma_product_is_modest(cell as int, scale as int);
        }
        let target: Micros = larger(product(cell, scale), MICRO);
        let across: i128 = surface_width as i128 * MICRO / target;
        proof {
            let n = surface_width * 1_000_000;
            let t = target as int;
            assert(0 <= n / t <= surface_width) by (nonlinear_arith)
                requires
                    n == surface_width * 1_000_000,
                    t >= 1_000_000,
            ;
        }
        let columns: u32 = if across < 1 {
            1
        } else {
            across as u32
        };
        let label: Micros = label_line_height * MICRO / scale;
        proof {
            let n = label_line_height * 1_000_000;
            assert(0 <= n / scale as int <= 10 * label_line_height) by (nonlinear_arith)
                requires
                    n == label_line_height * 1_000_000,
                    scale >= 100_000,
                    label_line_height >= 0,
            ;
            crate::units::times_is_bounded(cell as int, 550_000, 1);
        }
        let tall: Micros = space_sm + product(cell, 550_000) + space_sm / 2 + label + space_sm;
        proof {
            assert(0 <= tall * scale <= 100_000_000_000_000_000_000_000_000) by (nonlinear_arith)
                requires
                    0 <= tall <= 100_000_000_000_000,
                    0 <= scale <= 1_000_000_000_000,
            ;
        }
        let whole: i128 = (tall * scale / MICRO + 500_000) / MICRO;
        let cell_height: u32 = if whole < 1 {
            1
        } else if whole > 0xffff_ffff {
            0xffff_ffff
        } else {
            whole as u32
        };
        let icon_px: u16 = if icon.asked < icon.smallest {
            icon.smallest
        } else if icon.asked > icon.largest {
            icon.largest
        } else {
            icon.asked
        };
        GridMetrics { cell_logical: cell, columns, cell_height, icon_px, label_logical: label }
    }

    /// The lengths are ones that can be scaled.
    pub open spec fn sane(self) -> bool {
        &&& 0 <= self.cell_logical <= 1_000_000_000_000
        &&& 0 <= self.label_logical <= 10_000_000_000_000
    }

    /// The icon box's height in physical pixels.
    pub open spec fn icon_tall(self, scale: int) -> int {
        times(icon_box_of(self.cell_logical as int), scale)
    }

    /// The label's line height in physical pixels.
    pub open spec fn label_tall(self, scale: int) -> int {
        times(self.label_logical as int, scale)
    }

    /// The icon box's height in physical pixels.
    pub fn icon_box(&self, scale: Micros) -> (result: Micros)
        requires
            self.sane(),
            modest(scale as int),
        ensures
            result == self.icon_tall(scale as int),
            fits(result as int),
    {
        proof {
            crate::units::times_is_bounded(self.cell_logical as int, 550_000, 1);
            lemma_product_is_modest(icon_box_of(self.cell_logical as int), scale as int);
        }
        product(product(self.cell_logical, 550_000), scale)
    }

    /// The label's line height in physical pixels.
    pub fn label_height(&self, scale: Micros) -> (result: Micros)
        requires
            self.sane(),
            modest(scale as int),
        ensures
            result == self.label_tall(scale as int),
            -10_000_000_000_000_000_000 <= result <= 10_000_000_000_000_000_000,
    {
        proof {
            assert(-10_000_000_000_000_000_000_000_000 <= self.label_logical * scale
                <= 10_000_000_000_000_000_000_000_000) by (nonlinear_arith)
                requires
                    0 <= self.label_logical <= 10_000_000_000_000,
                    -1_000_000_000_000 <= scale <= 1_000_000_000_000,
            ;
        }
        product(self.label_logical, scale)
    }
}

proof fn lemma_product_is_modest(a: int, b: int)
    requires
        modest(a),
        modest(b),
    ensures
        fits(times(a, b)),
{
    assert(-1_000_000_000_000_000_000_000_000 <= a * b <= 1_000_000_000_000_000_000_000_000)
        by (nonlinear_arith)
        requires
            -1_000_000_000_000 <= a <= 1_000_000_000_000,
            -1_000_000_000_000 <= b <= 1_000_000_000_000,
    ;
}

/// A wider cell never fits more often across the same surface, and one always fits.
pub proof fn wider_cells_are_no_more(surface_width: u32, narrow: int, wide: int, scale: int)
    requires
        narrow <= wide,
    ensures
        1 <= cells_across(surface_width, wide, scale) <= cells_across(
            surface_width,
            narrow,
            scale,
        ),
{
    let s = sound_scale(scale);
    let a = sound_cell(narrow);
    let b = sound_cell(wide);
    assert(a * s <= b * s) by (nonlinear_arith)
        requires
            a <= b,
            s > 0,
    ;
    let x = max_of(times(a, s), 1_000_000);
    let y = max_of(times(b, s), 1_000_000);
    let n = surface_width * 1_000_000;
    assert(n / y <= n / x) by (nonlinear_arith)
        requires
            0 < x <= y,
            n >= 0,
    ;
}

/// The inset rounded region that hover, press and selection all share.
#[derive(Clone, Copy, PartialEq, Eq, Debug, Structural)]
pub struct StateRegion {
    /// Left edge.
    pub x: Micros,
    /// Width.
    pub width: Micros,
    /// From a row's edge to the region's, on every side.
    pub inset: Micros,
    /// Height.
    pub height: Micros,
    /// Corner radius.
    pub radius: Micros,
}

/// The state region of the rows of a layout: one inset on all four sides.
pub open spec fn region_at(tokens: RowTokens, columns: Columns, layout: ViewportLayout) -> StateRegion {
    let inset = in_px(tokens.space_xs as int, layout.scale as int);
    StateRegion {
        x: (columns.x0 + inset) as Micros,
        width: max_of(layout.width * 1_000_000 - inset * 2, 1_000_000) as Micros,
        inset: inset as Micros,
        height: max_of(layout.row_height * 1_000_000 - inset * 2, 1_000_000) as Micros,
        radius: in_px(tokens.radius_chip as int, layout.scale as int) as Micros,
    }
}

impl StateRegion {
    /// Every length is small enough to compute with.
    pub open spec fn sane(self) -> bool {
        &&& -3_000_000_000_000_000_000 <= self.x <= 3_000_000_000_000_000_000
        &&& MICRO <= self.width <= 1_000_000_000_000_000_000
        &&& 0 <= self.inset <= 1_000_000_000_000_000_000
        &&& MICRO <= self.height <= 1_000_000_000_000_000_000
        &&& 0 <= self.radius <= 1_000_000_000_000_000_000
    }

    /// The shape of one row's state, drawn in by `squish` logical pixels while it is pressed.
    pub open spec fn pressed_in(self, row_top: int, scale: int, squish: int) -> Surface {
        let inset = times(squish, scale);
        Surface {
            x: (self.x + inset) as Micros,
            y: (row_top + self.inset + inset) as Micros,
            w: max_of(self.width - inset * 2, 1_000_000) as Micros,
            h: max_of(self.height - inset * 2, 1_000_000) as Micros,
            radius: max_of(self.radius - inset, 0) as Micros,
            scale: scale as Micros,
            shadow_x: 0,
            shadow_y: 0,
        }
    }

    /// The state region of the rows of a layout.
    pub fn new(tokens: &RowTokens, columns: &Columns, layout: &ViewportLayout) -> (result: Self)
        requires
            tokens.sane(),
            fits(columns.x0 as int),
            modest(layout.scale as int),
        ensures
            result == region_at(*tokens, *columns, *layout),
            result.sane(),
    {
        let inset: Micros = to_px(tokens.space_xs, layout.scale);
        StateRegion {
            x: columns.x0 + inset,
            width: larger(layout.width as i128 * MICRO - inset * 2, MICRO),
            inset,
            height: larger(layout.row_height as i128 * MICRO - inset * 2, MICRO),
            radius: to_px(tokens.radius_chip, layout.scale),
        }
    }

    /// The shape that a material is painted onto for one row. Hover, press and selection are all
    /// painted onto it, so that they coincide exactly, and they squish alike.
    pub fn surface(self, row_top: Micros, scale: Micros, squish: Micros) -> (result: Surface)
        requires
            self.sane(),
            -0x4000_0000_0000_0000_0000_0000_0000_0000 <= row_top
                <= 0x4000_0000_0000_0000_0000_0000_0000_0000,
            0 <= scale <= 1_000_000_000_000,
            0 <= squish <= 1_000_000_000_000,
        ensures
            result == self.pressed_in(row_top as int, scale as int, squish as int),
    {
        proof {
            lemma_product_is_modest(squish as int, scale as int);
        }
        let inset: Micros = product(squish, scale);
        Surface::new(
            self.x + inset,
            row_top + self.inset + inset,
            larger(self.width - inset * 2, MICRO),
            larger(self.height - inset * 2, MICRO),
            larger(self.radius - inset, 0),
            scale,
        )
    }
}

/// The name takes up the slack: a surface that is wider by some pixels has a name that is wider by as
/// many, and nothing else of it changes, unless the name has no more than it needs either way.
pub proof fn the_name_has_what_is_left(
    x: Micros,
    width: int,
    by: int,
    scale: int,
    tokens: RowTokens,
    metadata: bool,
)
    requires
        tokens.sane(),
        fits(width),
        fits(width + by),
        by >= 0,
        modest(scale),
    ensures
        ({
            let a = columns_of(x, width, scale, tokens, metadata);
            let b = columns_of(x, width + by, scale, tokens, metadata);
            let least = in_px(40_000_000, scale);
            &&& a.name > least ==> b.name == a.name + by
            &&& a.name <= b.name <= a.name + by
            &&& b == (Columns { name: b.name, ..a })
            &&& a.name > least && metadata ==> a.gutter * 2 + a.padding * 2 + a.rail + a.icon + a.name
                + a.size + a.modified + a.kind + a.gap * 4 == width
            &&& a.name > least && !metadata ==> a.gutter * 2 + a.padding * 2 + a.rail + a.icon
                + a.name + a.gap == width
        }),
{
    lemma_px(tokens.space_md as int, scale);
    lemma_px(tokens.space_lg as int, scale);
    lemma_px(tokens.space_xl as int, scale);
    lemma_px(tokens.space_xs as int, scale);
    lemma_px(tokens.icon_grid as int, scale);
    lemma_px(40_000_000, scale);
    lemma_px(72_000_000, scale);
    lemma_px(132_000_000, scale);
    lemma_px(96_000_000, scale);
}

/// Every column but the name is as wide as the design says, at the scale of the display, however wide
/// the surface is: the steps of the space scale, the icon grid, and what the metadata has to hold.
pub proof fn columns_are_as_designed(
    x: Micros,
    width: int,
    tokens: RowTokens,
    metadata: bool,
    whole: int,
)
    requires
        tokens.sane(),
        fits(width),
        1 <= whole <= 1000,
    ensures
        ({
            let c = columns_of(x, width, whole * 1_000_000, tokens, metadata);
            &&& c.x0 == x
            &&& c.gutter == tokens.space_md * whole
            &&& c.padding == tokens.space_lg * whole
            &&& c.gap == tokens.space_xl * whole
            &&& c.rail == tokens.space_xs * whole
            &&& c.icon == tokens.icon_grid * whole
            &&& metadata ==> c.size == 72_000_000 * whole && c.modified == 132_000_000 * whole
                && c.kind == 96_000_000 * whole
            &&& !metadata ==> c.size == 0 && c.modified == 0 && c.kind == 0
            &&& c.metadata == metadata
        }),
{
    lemma_whole_scale(tokens.space_md as int, whole);
    lemma_whole_scale(tokens.space_lg as int, whole);
    lemma_whole_scale(tokens.space_xl as int, whole);
    lemma_whole_scale(tokens.space_xs as int, whole);
    lemma_whole_scale(tokens.icon_grid as int, whole);
    lemma_whole_scale(72_000_000, whole);
    lemma_whole_scale(132_000_000, whole);
    lemma_whole_scale(96_000_000, whole);
}

proof fn lemma_whole_scale(logical: int, whole: int)
    requires
        0 <= logical <= 1_000_000_000_000,
        1 <= whole <= 1000,
    ensures
        in_px(logical, whole * 1_000_000) == logical * whole,
        0 <= logical * whole <= 1_000_000_000_000_000,
{
    assert(logical * (whole * 1_000_000) == (logical * whole) * 1_000_000) by (nonlinear_arith);
    assert(0 <= logical * whole <= 1_000_000_000_000_000) by (nonlinear_arith)
        requires
            0 <= logical <= 1_000_000_000_000,
            1 <= whole <= 1000,
    ;
}

/// A row's small letters are in its middle: as much of the row is above them as below, to the
/// rounding.
pub proof fn text_is_centred_on_its_small_letters(
    row_height: u32,
    ascent: int,
    descent: int,
    x_height: int,
)
    requires
        fits(ascent),
        fits(descent),
        fits(x_height),
    ensures
        ({
            let fit = text_fit(row_height, ascent, descent, x_height);
            let above = fit.baseline - x_height;
            let below = row_height * 1_000_000 - fit.baseline;
            &&& 0 <= below - above <= 1
            &&& fit.headroom_above == fit.baseline - ascent
        }),
{
}

/// The state of a row leaves the same margin on all four sides of the row, unless the row is too small
/// to have one.
pub proof fn a_state_is_inset_alike_on_all_sides(
    tokens: RowTokens,
    columns: Columns,
    layout: ViewportLayout,
    top: int,
)
    requires
        tokens.sane(),
        fits(columns.x0 as int),
        modest(layout.scale as int),
        -100_000_000_000_000_000_000_000_000 <= top <= 100_000_000_000_000_000_000_000_000,
    ensures
        ({
            let inset = in_px(tokens.space_xs as int, layout.scale as int);
            let state = region_at(tokens, columns, layout).pressed_in(
                top,
                sound_scale(layout.scale as int),
                0,
            );
            &&& inset >= 0
            &&& state.x - columns.x0 == inset
            &&& state.y - top == inset
            &&& layout.width * 1_000_000 - inset * 2 >= 1_000_000 ==> state.x + state.w + inset
                == columns.x0 + layout.width * 1_000_000
            &&& layout.row_height * 1_000_000 - inset * 2 >= 1_000_000 ==> state.y + state.h + inset
                == top + layout.row_height * 1_000_000
            &&& state.w >= 1_000_000
            &&& state.h >= 1_000_000
            &&& state.radius == in_px(tokens.radius_chip as int, layout.scale as int)
        }),
{
    lemma_px(tokens.space_xs as int, layout.scale as int);
    lemma_px(tokens.radius_chip as int, layout.scale as int);
    assert(0 * sound_scale(layout.scale as int) == 0);
}

/// A row that is pressed is drawn in on all four sides by as much, around the same middle, and no
/// squish at all draws it in by nothing. A row that is further down has its state as much further
/// down.
pub proof fn a_squish_draws_in_all_sides_alike(
    region: StateRegion,
    top: int,
    by: int,
    scale: int,
    squish: int,
)
    requires
        region.sane(),
        -100_000_000_000_000_000_000_000_000 <= top <= 100_000_000_000_000_000_000_000_000,
        -100_000_000_000_000_000_000_000_000 <= top + by <= 100_000_000_000_000_000_000_000_000,
        0 <= scale <= 1_000_000_000_000,
        0 <= squish <= 1_000_000_000_000,
    ensures
        ({
            let rest = region.pressed_in(top, scale, 0);
            let pressed = region.pressed_in(top, scale, squish);
            let lower = region.pressed_in(top + by, scale, squish);
            let inset = times(squish, scale);
            &&& inset >= 0
            &&& rest.x == region.x
            &&& rest.y == top + region.inset
            &&& rest.w == region.width
            &&& rest.h == region.height
            &&& rest.radius == region.radius
            &&& pressed.x - rest.x == inset
            &&& pressed.y - rest.y == inset
            &&& rest.w - inset * 2 >= 1_000_000 ==> rest.x + rest.w - (pressed.x + pressed.w) == inset
            &&& rest.h - inset * 2 >= 1_000_000 ==> rest.y + rest.h - (pressed.y + pressed.h) == inset
            &&& lower == (Surface { y: (pressed.y + by) as Micros, ..pressed })
        }),
{
    lemma_product_is_modest(squish, scale);
    assert(squish * scale >= 0) by (nonlinear_arith)
        requires
            squish >= 0,
            scale >= 0,
    ;
    assert(0 * scale == 0);
}

/// As many cells are put across a surface as fit, and no more.
pub proof fn as_many_cells_as_fit(surface_width: u32, cell_logical: int, scale: int)
    requires
        modest(cell_logical),
        modest(scale),
        times(max_of(cell_logical, 24_000_000), max_of(scale, 100_000)) <= surface_width
            * 1_000_000,
    ensures
        ({
            let cell = max_of(
                times(max_of(cell_logical, 24_000_000), max_of(scale, 100_000)),
                1_000_000,
            );
            let n = cells_across(surface_width, cell_logical, scale);
            n >= 1 && n * cell <= surface_width * 1_000_000 < (n + 1) * cell
        }),
{
    let w = surface_width * 1_000_000;
    let cell = max_of(
        times(max_of(cell_logical, 24_000_000), max_of(scale, 100_000)),
        1_000_000,
    );
    let a = max_of(cell_logical, 24_000_000);
    let b = max_of(scale, 100_000);
    assert(a * b >= 24_000_000 * 100_000) by (nonlinear_arith)
        requires
            a >= 24_000_000,
            b >= 100_000,
    ;
    assert(cell <= w);
    let q = w / cell;
    assert(q >= 1 && q * cell <= w < (q + 1) * cell) by (nonlinear_arith)
        requires
            q == w / cell,
            cell >= 1,
            w >= cell,
    ;
}

/// A cell holds its icon and its label with padding above, between and below: more padding, a wider
/// cell or a taller label never makes it shorter, and each counts in full.
pub proof fn a_cell_holds_its_icon_and_its_label(cell: int, label: int, pad: int)
    requires
        cell >= 0,
        label >= 0,
        pad >= 0,
    ensures
        cell_tall(cell, label, pad) - icon_box_of(cell) - label >= pad * 2,
        cell_tall(cell, label, pad) - icon_box_of(cell) - label <= pad * 3,
        cell_tall(cell, label + 1, pad) == cell_tall(cell, label, pad) + 1,
        0 <= icon_box_of(cell) <= cell,
        -1 < icon_box_of(cell) * 100 - cell * 55 + 100,
        icon_box_of(cell) * 100 <= cell * 55,
{
}

/// A label's line is as tall on screen as the text is, whatever the scale, and a cell is drawn as tall
/// as it is at that scale, to the nearest pixel, one at least.
pub proof fn lengths_come_back_at_their_scale(label_line_height: int, tall: int, scale: int)
    requires
        0 <= label_line_height,
        0 <= tall,
        100_000 <= scale,
    ensures
        label_of(label_line_height, scale) * scale <= label_line_height * 1_000_000,
        label_line_height * 1_000_000 < (label_of(label_line_height, scale) + 1) * scale,
        1 <= cell_height_of(tall, scale) <= u32::MAX,
        1_000_000_000_000 <= tall * scale < 0xffff_ffff * 1_000_000_000_000 ==> {
            &&& cell_height_of(tall, scale) * 1_000_000_000_000 <= tall * scale + 500_000_000_000
            &&& tall * scale < cell_height_of(tall, scale) * 1_000_000_000_000 + 500_001_000_000
        },
{
    let n = label_line_height * 1_000_000;
    let q = n / scale;
    assert(q * scale <= n < (q + 1) * scale) by (nonlinear_arith)
        requires
            q == n / scale,
            scale > 0,
            n >= 0,
    ;
}

} // verus!
