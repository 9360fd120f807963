//! One frame of a grid of cells.

use crate::material::compile::Instance;
use crate::material::{modest, Drive, Shape, Surface};
use crate::motion::{region_of, InteractionMotion};
use crate::recycler::{at_least_one, ViewportLayout};
use crate::row::frame::{look_draws, look_is_sane, Look, Looks};
use crate::row::geometry::{in_px, sound_scale, to_px, GridMetrics, RowTokens};
use crate::row::ink::{
    fade, icon_tint, icon_token, ink, kind_of, picture, Emblem, Opacity, Tint, Token,
};
use crate::row::list::shown_flags;
use crate::row::piece::{
    all_seen, as_pieces, draw_focus, focus_ring, put, put_all, Align, Face, IconPiece, Piece,
    TextPiece,
};
use crate::row::Interaction;
use crate::row_source::{
    RowBuf, RowFlags, RowView, DIR_BIT, FOCUSED_BIT, HIDDEN_BIT, SELECTED_BIT, SYMLINK_BIT,
};
use crate::selection::{rows_held, Run};
use crate::text;
use crate::text::lossy;
use crate::units::{fits, larger, max_of, times, Micros, MICRO};
use vstd::prelude::*;

verus! {

/// Everything that a frame of a grid is drawn from.
#[derive(Clone, Copy, Debug)]
pub struct GridInput<'a> {
    /// What the design system says.
    pub tokens: RowTokens,
    /// The geometry of a cell.
    pub metrics: GridMetrics,
    /// How far the label's tallest letter is above its baseline.
    pub ascent: Micros,
    /// What cells are painted with.
    pub looks: Looks<'a>,
    /// Where cells are.
    pub layout: ViewportLayout,
    /// The rows on screen.
    pub buf: &'a RowBuf,
    /// What the view knows of them.
    pub interaction: Interaction<'a>,
    /// What is on its way.
    pub motion: &'a InteractionMotion,
}

/// Where a cell is.
pub struct CellRect {
    /// Left edge.
    pub x: int,
    /// Top edge.
    pub y: int,
    /// Width.
    pub w: int,
    /// Height.
    pub h: int,
}

impl<'a> GridInput<'a> {
    /// Everything is small enough to compute with.
    pub open spec fn sane(self) -> bool {
        &&& self.tokens.sane()
        &&& self.metrics.sane()
        &&& fits(self.ascent as int)
        &&& self.looks.sane()
        &&& self.layout.sane()
        &&& modest(self.layout.scale as int)
        &&& self.buf@.len() <= u32::MAX
        &&& self.layout.visible.first + self.buf@.len() <= u64::MAX
    }

    /// Device pixel ratio, never nothing.
    pub open spec fn scale(self) -> int {
        sound_scale(self.layout.scale as int)
    }

    /// Padding in a cell.
    pub open spec fn pad(self) -> int {
        in_px(self.tokens.space_sm as int, self.layout.scale as int)
    }

    /// The index of the row at `slot`.
    pub open spec fn index_at(self, slot: int) -> u64 {
        (self.layout.visible.first + slot) as u64
    }

    /// Where the cell at `slot` is.
    pub open spec fn cell_at(self, slot: int) -> CellRect {
        CellRect {
            x: self.layout.origin_x + slot % at_least_one(self.layout.columns)
                * self.layout.cell(),
            y: self.layout.top_of(slot),
            w: self.layout.cell(),
            h: self.layout.row_height * 1_000_000,
        }
    }

    /// The state of a cell, inset so that neighbours read as two objects.
    pub open spec fn state_of(self, cell: CellRect) -> Surface {
        Surface {
            x: (cell.x + self.pad() / 2) as Micros,
            y: (cell.y + self.pad() / 2) as Micros,
            w: max_of(cell.w - self.pad(), 1_000_000) as Micros,
            h: max_of(cell.h - self.pad(), 1_000_000) as Micros,
            radius: in_px(self.tokens.radius_row as int, self.layout.scale as int) as Micros,
            scale: self.scale() as Micros,
            shadow_x: self.looks.shadow.0,
            shadow_y: self.looks.shadow.1,
        }
    }

    /// What is selected.
    pub open spec fn runs(self) -> Seq<Run> {
        match self.interaction.selection {
            Some(selection) => selection@,
            None => Seq::empty(),
        }
    }

    /// How opaque the selection of a cell is. A grid cross-fades where a list slides: of the
    /// region that moves it takes the opacity and not the displacement. Several selected cells
    /// are all there.
    pub open spec fn selection_alpha(self, slot: int) -> Micros {
        let index = self.index_at(slot);
        if rows_held(self.runs()) > 1 {
            if shown_flags(self.buf@[slot], self.interaction, index).has(SELECTED_BIT) {
                1_000_000
            } else {
                0
            }
        } else {
            match region_of(self.motion.selecting(), self.layout.visible.count) {
                Some(draw) => if draw.row == index {
                    draw.alpha
                } else {
                    0
                },
                None => 0,
            }
        }
    }

    /// How the selection is moved.
    pub open spec fn pull(self) -> Drive {
        self.motion.driving(self.looks.ripple as int)
    }

    /// The paint of a cell: the wash for hover, that for press, and the selection.
    pub open spec fn paint_part(self, slot: int) -> Seq<Piece<Seq<char>>> {
        let index = self.index_at(slot);
        let state = self.state_of(self.cell_at(slot));
        as_pieces(
            look_draws(
                self.looks.hover,
                state,
                self.motion.hovering().presence(Some(index), 0) as Micros,
                Drive::resting(),
                None,
                self.looks.effects,
            ),
        ) + as_pieces(
            look_draws(
                self.looks.hover,
                state,
                self.motion.pressing().presence(Some(index), 0) as Micros,
                Drive::resting(),
                None,
                self.looks.effects,
            ),
        ) + as_pieces(
            look_draws(
                self.looks.selected,
                state,
                self.selection_alpha(slot),
                self.pull(),
                None,
                self.looks.effects,
            ),
        )
    }

    /// The focus indicator, on the shape that the state of the cell has.
    pub open spec fn focus_part(self, slot: int) -> Seq<Piece<Seq<char>>> {
        let flags = shown_flags(self.buf@[slot], self.interaction, self.index_at(slot));
        if flags.has(FOCUSED_BIT) {
            focus_ring(
                self.state_of(self.cell_at(slot)),
                times(self.tokens.ring_width as int, self.scale()),
                times(self.tokens.outline_width as int, self.scale()),
            )
        } else {
            Seq::empty()
        }
    }

    /// The icon, badged with the extension of a file and never of a folder.
    pub open spec fn icon_part(self, slot: int) -> Seq<Piece<Seq<char>>> {
        let row = self.buf@[slot];
        let cell = self.cell_at(slot);
        let hidden = row.flags.has(HIDDEN_BIT);
        seq![
            Piece::Icon(
                IconPiece {
                    kind: picture(row),
                    x: cell.x as Micros,
                    y: (cell.y + self.pad()) as Micros,
                    w: cell.w as Micros,
                    h: self.metrics.icon_tall(self.scale()) as Micros,
                    tint: ink(icon_token(row), hidden, false),
                    emblem: if row.flags.has(SYMLINK_BIT) {
                        Some(Emblem::Symlink)
                    } else {
                        None
                    },
                    badge: if row.flags.has(DIR_BIT) {
                        None
                    } else {
                        Some(lossy(self.buf.name_of(row)))
                    },
                    hidden,
                },
            ),
        ]
    }

    /// The label, centred under the icon and cut in the middle where it is too long.
    pub open spec fn label_part(self, slot: int) -> Seq<Piece<Seq<char>>> {
        let row = self.buf@[slot];
        let cell = self.cell_at(slot);
        seq![
            Piece::Text(
                TextPiece {
                    text: lossy(self.buf.name_of(row)),
                    align: Align::Centre { x: cell.x as Micros, width: cell.w as Micros },
                    baseline: (cell.y + cell.h - self.pad() - (self.metrics.label_tall(
                        self.scale(),
                    ) - self.ascent)) as Micros,
                    max_width: max_of(cell.w - self.pad() * 2, 0) as Micros,
                    face: Face::Meta,
                    tabular: false,
                    tint: ink(Token::Primary, row.flags.has(HIDDEN_BIT), false),
                    middle_ellipsis: true,
                },
            ),
        ]
    }

    /// One cell.
    pub open spec fn cell_part(self, slot: int) -> Seq<Piece<Seq<char>>> {
        self.paint_part(slot) + self.focus_part(slot) + self.icon_part(slot) + self.label_part(slot)
    }

    /// The first `count` cells.
    pub open spec fn cells(self, count: int) -> Seq<Piece<Seq<char>>>
        decreases count,
    {
        if count <= 0 {
            Seq::empty()
        } else {
            self.cells(count - 1) + self.cell_part(count - 1)
        }
    }

    /// Paint a look.
    fn paint(
        &self,
        look: Option<Look<'a>>,
        surface: Surface,
        alpha: Micros,
        drive: Drive,
        out: &mut Vec<Piece<String>>,
    )
        requires
            look_is_sane(look),
            surface.sane(),
            drive.sane(),
        ensures
            all_seen(final(out)@) == all_seen(old(out)@) + as_pieces(
                look_draws(look, surface, alpha, drive, None, self.looks.effects),
            ),
    {
        match look {
            None => {
                assert(all_seen(out@) =~= all_seen(old(out)@) + as_pieces(Seq::empty()));
            },
            Some(look) => {
                let mut instances: Vec<Instance> = Vec::new();
                look.material.compile(surface, alpha, drive, self.looks.effects, &mut instances);
                assert(instances@ =~= look_draws(
                    Some(look),
                    surface,
                    alpha,
                    drive,
                    None,
                    self.looks.effects,
                ));
                put_all(out, &instances);
            },
        }
    }

    /// The state of the cell at `slot`.
    fn state(&self, slot: u32) -> (result: Surface)
        requires
            self.sane(),
        ensures
            result == self.state_of(self.cell_at(slot as int)),
            result.sane(),
    {
        let (x, y, w, h): (Micros, Micros, Micros, Micros) = self.layout.cell_rect(slot);
        let pad: Micros = to_px(self.tokens.space_sm, self.layout.scale);
        proof {
            self.layout.lemma_tops_are_bounded(slot as int);
        }
        Surface::new(
            x + pad / 2,
            y + pad / 2,
            larger(w - pad, MICRO),
            larger(h - pad, MICRO),
            to_px(self.tokens.radius_row, self.layout.scale),
            larger(self.layout.scale, 100_000),
        ).with_shadow(self.looks.shadow.0, self.looks.shadow.1)
    }

    /// How opaque the selection of the cell at `slot` is.
    fn alpha_of(&self, slot: u32) -> (result: Micros)
        requires
            self.sane(),
            slot < self.buf@.len(),
        ensures
            result == self.selection_alpha(slot as int),
    {
        let index: u64 = self.layout.visible.first + slot as u64;
        let several: bool = match self.interaction.selection {
            Some(selection) => selection.len() > 1,
            None => false,
        };
        proof {
            assert(rows_held(Seq::<Run>::empty()) == 0);
        }
        if several {
            let row: &RowView = &self.buf.rows()[slot as usize];
            let flags: RowFlags = row.flags.union(self.interaction.flags_for(index));
            if flags.contains(RowFlags::selected()) {
                MICRO
            } else {
                0
            }
        } else {
            match self.motion.selection_draw(self.layout.visible.count) {
                Some(draw) => if draw.row == index {
                    draw.alpha
                } else {
                    0
                },
                None => 0,
            }
        }
    }

    /// Draw the paint of the cell at `slot`.
    fn draw_paint(&self, slot: u32, out: &mut Vec<Piece<String>>)
        requires
            self.sane(),
            slot < self.buf@.len(),
        ensures
            all_seen(final(out)@) == all_seen(old(out)@) + self.paint_part(slot as int),
    {
        let index: u64 = self.layout.visible.first + slot as u64;
        let state: Surface = self.state(slot);
        let ghost start = all_seen(out@);
        self.paint(self.looks.hover, state, self.motion.hover_alpha(index), Drive::rest(), out);
        self.paint(self.looks.hover, state, self.motion.press_alpha(index), Drive::rest(), out);
        self.paint(self.looks.selected, state, self.alpha_of(slot), self.motion.drive(self.looks.ripple), out);
        assert(all_seen(out@) =~= start + self.paint_part(slot as int));
    }

    /// Draw the focus indicator of the cell at `slot`.
    fn draw_cell_focus(&self, slot: u32, out: &mut Vec<Piece<String>>)
        requires
            self.sane(),
            slot < self.buf@.len(),
        ensures
            all_seen(final(out)@) == all_seen(old(out)@) + self.focus_part(slot as int),
    {
        let index: u64 = self.layout.visible.first + slot as u64;
        let row: &RowView = &self.buf.rows()[slot as usize];
        let flags: RowFlags = row.flags.union(self.interaction.flags_for(index));
        if flags.contains(RowFlags::focused()) {
            draw_focus(
                self.state(slot),
                &self.tokens,
                larger(self.layout.scale, 100_000),
                out,
            );
        } else {
            assert(all_seen(out@) =~= all_seen(old(out)@) + Seq::empty());
        }
    }

    /// Draw the icon of the cell at `slot`.
    fn draw_cell_icon(&self, slot: u32, out: &mut Vec<Piece<String>>)
        requires
            self.sane(),
            slot < self.buf@.len(),
        ensures
            all_seen(final(out)@) == all_seen(old(out)@) + self.icon_part(slot as int),
    {
        let row: &RowView = &self.buf.rows()[slot as usize];
        let (x, y, w, _): (Micros, Micros, Micros, Micros) = self.layout.cell_rect(slot);
        let pad: Micros = to_px(self.tokens.space_sm, self.layout.scale);
        proof {
            self.layout.lemma_tops_are_bounded(slot as int);
        }
        let hidden: bool = row.flags.contains(RowFlags::hidden());
        let badge: Option<String> = if row.flags.contains(RowFlags::dir()) {
            None
        } else {
            Some(text::into_owned(self.buf.name(row)))
        };
        put(
            out,
            Piece::Icon(
                IconPiece {
                    kind: kind_of(row),
                    x,
                    y: y + pad,
                    w,
                    h: self.metrics.icon_box(larger(self.layout.scale, 100_000)),
                    tint: fade(icon_tint(row), hidden),
                    emblem: if row.flags.contains(RowFlags::symlink()) {
                        Some(Emblem::Symlink)
                    } else {
                        None
                    },
                    badge,
                    hidden,
                },
            ),
        );
        assert(all_seen(out@) =~= all_seen(old(out)@) + self.icon_part(slot as int));
    }

    /// Draw the label of the cell at `slot`.
    fn draw_cell_label(&self, slot: u32, out: &mut Vec<Piece<String>>)
        requires
            self.sane(),
            slot < self.buf@.len(),
        ensures
            all_seen(final(out)@) == all_seen(old(out)@) + self.label_part(slot as int),
    {
        let row: &RowView = &self.buf.rows()[slot as usize];
        let (x, y, w, h): (Micros, Micros, Micros, Micros) = self.layout.cell_rect(slot);
        let pad: Micros = to_px(self.tokens.space_sm, self.layout.scale);
        proof {
            self.layout.lemma_tops_are_bounded(slot as int);
        }
        let hidden: bool = row.flags.contains(RowFlags::hidden());
        let tall: Micros = self.metrics.label_height(larger(self.layout.scale, 100_000));
        put(
            out,
            Piece::Text(
                TextPiece {
                    text: text::into_owned(self.buf.name(row)),
                    align: Align::Centre { x, width: w },
                    baseline: y + h - pad - (tall - self.ascent),
                    max_width: larger(w - pad * 2, 0),
                    face: Face::Meta,
                    tabular: false,
                    tint: fade(Token::Primary, hidden),
                    middle_ellipsis: true,
                },
            ),
        );
        assert(all_seen(out@) =~= all_seen(old(out)@) + self.label_part(slot as int));
    }

    /// Draw the frame: each cell's paint, its focus ring, its icon and its label.
    pub fn render_grid(&self) -> (result: Vec<Piece<String>>)
        requires
            self.sane(),
        ensures
            all_seen(result@) == self.cells(self.buf@.len() as int),
    {
        let mut out: Vec<Piece<String>> = Vec::new();
        let n: usize = self.buf.len();
        let mut slot: usize = 0;
        assert(all_seen(out@) =~= self.cells(0));
        while slot < n
            invariant
                self.sane(),
                n == self.buf@.len(),
                slot <= n,
                all_seen(out@) == self.cells(slot as int),
            decreases n - slot,
        {
            let ghost before = all_seen(out@);
            self.draw_paint(slot as u32, &mut out);
            self.draw_cell_focus(slot as u32, &mut out);
            self.draw_cell_icon(slot as u32, &mut out);
            self.draw_cell_label(slot as u32, &mut out);
            assert(all_seen(out@) =~= before + self.cell_part(slot as int));
            slot = slot + 1;
        }
        out
    }

    /// Exactly one icon and one label come of each cell, and the icon stands before the label.
    pub proof fn a_cell_has_one_icon_and_one_label(self, slot: int)
        ensures
            self.cell_part(slot).len() >= 2,
            self.cell_part(slot)[self.cell_part(slot).len() - 2] is Icon,
            self.cell_part(slot).last() is Text,
            forall|i: int|
                0 <= i < self.cell_part(slot).len() - 2 ==> !((#[trigger] self.cell_part(slot)[i]) is Icon)
                    && !(self.cell_part(slot)[i] is Text),
    {
        let paint = self.paint_part(slot);
        let focus = self.focus_part(slot);
        let all = self.cell_part(slot);
        assert forall|i: int| 0 <= i < all.len() - 2 implies !((#[trigger] all[i]) is Icon) && !(
        all[i] is Text) by {
            if i < paint.len() {
                assert(all[i] == paint[i]);
            } else {
                assert(all[i] == focus[i - paint.len()]);
            }
        }
    }

    /// A folder is never badged.
    pub proof fn a_folder_is_never_badged(self, slot: int)
        requires
            self.buf@[slot].flags.has(DIR_BIT),
        ensures
            self.icon_part(slot)[0]->Icon_0.badge is None,
    {
    }

    /// A cell without focus has no ring, and a focused one has two strokes.
    pub proof fn only_the_focused_cell_has_a_ring(self, slot: int)
        ensures
            self.focus_part(slot).len() == if shown_flags(
                self.buf@[slot],
                self.interaction,
                self.index_at(slot),
            ).has(FOCUSED_BIT) {
                2nat
            } else {
                0
            },
    {
    }

    proof fn lemma_cells_hold_a_cell(self, count: int, slot: int)
        requires
            0 <= slot < count,
        ensures
            ({
                let at = self.cells(slot).len() as int;
                let part = self.cell_part(slot);
                &&& at + part.len() <= self.cells(count).len()
                &&& self.cells(slot + 1).len() == at + part.len()
                &&& forall|k: int|
                    0 <= k < part.len() ==> self.cells(count)[at + k] == #[trigger] part[k]
            }),
        decreases count,
    {
        let at = self.cells(slot).len() as int;
        let part = self.cell_part(slot);
        let now = self.cells(count);
        if slot < count - 1 {
            self.lemma_cells_hold_a_cell(count - 1, slot);
            let below = self.cells(count - 1);
            assert forall|k: int| 0 <= k < part.len() implies now[at + k] == #[trigger] part[k] by {
                assert(now[at + k] == below[at + k]);
            }
        }
    }

    /// Every cell of the frame is labelled with the name of its own row, under its own icon: the last
    /// thing that is drawn of it is its label, and the one before is its icon, in the middle of its
    /// own cell. The icon is the one of the row's own kind, and is badged with the row's own name
    /// unless the row is a folder.
    pub proof fn every_cell_is_labelled_with_its_own_name(self, slot: int)
        requires
            self.sane(),
            0 <= slot < self.buf@.len(),
        ensures
            ({
                let row = self.buf@[slot];
                let all = self.cells(self.buf@.len() as int);
                let end = self.cells(slot + 1).len() as int;
                let across = at_least_one(self.layout.columns);
                let x = self.layout.origin_x + slot % across * self.layout.cell();
                let top = self.layout.top_of(slot);
                let tall = self.layout.row_height * 1_000_000;
                let pad = in_px(self.tokens.space_sm as int, self.layout.scale as int);
                let hidden = row.flags.has(HIDDEN_BIT);
                &&& 2 <= end <= all.len()
                &&& slot == self.buf@.len() - 1 ==> end == all.len()
                &&& all[end - 1] matches Piece::Text(label) && {
                    &&& label.text == lossy(self.buf.name_of(row))
                    &&& label.align == Align::Centre {
                        x: x as Micros,
                        width: self.layout.cell() as Micros,
                    }
                    &&& label.max_width == max_of(self.layout.cell() - pad - pad, 0)
                    &&& label.middle_ellipsis
                    &&& label.face == Face::Meta
                    &&& label.tint.token == Token::Primary
                    &&& (label.tint.opacity != Opacity::Times(1_000_000)) == hidden
                    &&& label.baseline == top + tall - pad - self.metrics.label_tall(self.scale())
                        + self.ascent
                }
                &&& all[end - 2] matches Piece::Icon(icon) && {
                    &&& icon.kind == picture(row)
                    &&& icon.x == x
                    &&& icon.y == top + pad
                    &&& icon.w == self.layout.cell()
                    &&& icon.h == self.metrics.icon_tall(self.scale())
                    &&& icon.badge == (if row.flags.has(DIR_BIT) {
                        None
                    } else {
                        Some(lossy(self.buf.name_of(row)))
                    })
                    &&& icon.emblem is Some <==> row.flags.has(SYMLINK_BIT)
                    &&& icon.emblem is Some ==> icon.emblem == Some(Emblem::Symlink)
                    &&& icon.hidden == hidden
                    &&& (icon.tint.opacity != Opacity::Times(1_000_000)) == hidden
                    &&& icon.tint.token == (if row.flags.has(DIR_BIT) {
                        Token::Folder
                    } else {
                        Token::Tertiary
                    })
                }
            }),
    {
        let n = self.buf@.len() as int;
        self.lemma_cells_hold_a_cell(n, slot);
        self.layout.lemma_tops_are_bounded(slot);
        self.lemma_a_cell_is_placed(slot);
        let part = self.cell_part(slot);
        let at = self.cells(slot).len() as int;
        assert(self.cells(n)[at + (part.len() - 1)] == part[part.len() - 1]);
        assert(self.cells(n)[at + (part.len() - 2)] == part[part.len() - 2]);
        assert(part[part.len() - 1] == self.label_part(slot)[0]);
        assert(part[part.len() - 2] == self.icon_part(slot)[0]);
    }

    proof fn lemma_a_cell_is_placed(self, slot: int)
        requires
            self.sane(),
            0 <= slot <= u32::MAX,
        ensures
            0 <= self.layout.cell() <= 0xffff_ffff * 1_000_000,
            -100_000_000_000_000_000_000_000_000 <= slot % at_least_one(self.layout.columns)
                * self.layout.cell() <= 100_000_000_000_000_000_000_000_000,
            0 <= self.pad() <= 1_000_000_000_000_000_000,
            -10_000_000_000_000_000_000 <= self.metrics.label_tall(self.scale())
                <= 10_000_000_000_000_000_000,
            fits(self.metrics.icon_tall(self.scale())),
    {
        let w = self.layout.width * 1_000_000;
        let d = at_least_one(self.layout.columns);
        let c = self.layout.cell();
        assert(0 <= w / d <= w) by (nonlinear_arith)
            requires
                w >= 0,
                d >= 1,
        ;
        let r = slot % d;
        assert(0 <= r <= slot) by (nonlinear_arith)
            requires
                slot >= 0,
                d >= 1,
                r == slot % d,
        ;
        assert(0 <= r * c <= 0xffff_ffff * (0xffff_ffff * 1_000_000)) by (nonlinear_arith)
            requires
                0 <= r <= 0xffff_ffff,
                0 <= c <= 0xffff_ffff * 1_000_000,
        ;
        let s = self.scale();
        let sm = self.tokens.space_sm as int;
        assert(0 <= sm * s <= 1_000_000_000_000_000_000_000_000) by (nonlinear_arith)
            requires
                0 <= sm <= 1_000_000_000_000,
                0 <= s <= 1_000_000_000_000,
        ;
        let l = self.metrics.label_logical as int;
        assert(0 <= l * s <= 10_000_000_000_000_000_000_000_000) by (nonlinear_arith)
            requires
                0 <= l <= 10_000_000_000_000,
                0 <= s <= 1_000_000_000_000,
        ;
        let b = crate::row::geometry::icon_box_of(self.metrics.cell_logical as int);
        crate::units::times_is_bounded(self.metrics.cell_logical as int, 550_000, 1);
        assert(0 <= b * s <= 1_000_000_000_000_000_000_000_000) by (nonlinear_arith)
            requires
                0 <= b <= 1_000_000_000_000,
                0 <= s <= 1_000_000_000_000,
        ;
    }

    /// Two cells of rows with different names have different labels.
    pub proof fn different_names_are_different_labels(self, a: int, b: int)
        requires
            self.sane(),
            0 <= a < self.buf@.len(),
            0 <= b < self.buf@.len(),
            lossy(self.buf.name_of(self.buf@[a])) != lossy(self.buf.name_of(self.buf@[b])),
        ensures
            ({
                let all = self.cells(self.buf@.len() as int);
                all[self.cells(a + 1).len() - 1]->Text_0.text != all[self.cells(b + 1).len()
                    - 1]->Text_0.text
            }),
    {
        self.every_cell_is_labelled_with_its_own_name(a);
        self.every_cell_is_labelled_with_its_own_name(b);
    }

    /// A cell is painted as hovered and as pressed as its own row is, and as selected as its own row is,
    /// all on one rectangle that leaves the same margin on all four sides of the cell.
    pub proof fn every_cell_is_painted_by_its_own_state(self, slot: int)
        requires
            self.sane(),
            0 <= slot < self.buf@.len(),
        ensures
            ({
                let index = (self.layout.visible.first + slot) as u64;
                let across = at_least_one(self.layout.columns);
                let x = self.layout.origin_x + slot % across * self.layout.cell();
                let top = self.layout.top_of(slot);
                let pad = in_px(self.tokens.space_sm as int, self.layout.scale as int);
                let state = self.state_of(self.cell_at(slot));
                let hover = as_pieces(
                    look_draws(
                        self.looks.hover,
                        state,
                        self.motion.hovering().presence(Some(index), 0) as Micros,
                        Drive::resting(),
                        None,
                        self.looks.effects,
                    ),
                );
                let press = as_pieces(
                    look_draws(
                        self.looks.hover,
                        state,
                        self.motion.pressing().presence(Some(index), 0) as Micros,
                        Drive::resting(),
                        None,
                        self.looks.effects,
                    ),
                );
                let all = self.cells(self.buf@.len() as int);
                let at = self.cells(slot).len() as int;
                &&& state.x == x + pad / 2
                &&& state.y == top + pad / 2
                &&& self.layout.cell() - pad >= 1_000_000 ==> state.w == self.layout.cell() - pad
                &&& self.layout.row_height * 1_000_000 - pad >= 1_000_000 ==> state.h
                    == self.layout.row_height * 1_000_000 - pad
                &&& at + hover.len() + press.len() <= all.len()
                &&& all.subrange(at, at + hover.len() + press.len()) == hover + press
                &&& rows_held(self.runs()) > 1 ==> (self.selection_alpha(slot) == (if (
                self.buf@[slot].flags.has(SELECTED_BIT) || self.interaction.selects(index)) {
                    1_000_000int
                } else {
                    0
                }))
            }),
    {
        let n = self.buf@.len() as int;
        let index = (self.layout.visible.first + slot) as u64;
        self.lemma_cells_hold_a_cell(n, slot);
        self.layout.lemma_tops_are_bounded(slot);
        self.lemma_a_cell_is_placed(slot);
        crate::row::list::a_row_is_in_the_states_it_is_in(
            self.buf@[slot],
            self.interaction,
            index,
            SELECTED_BIT,
        );
        let state = self.state_of(self.cell_at(slot));
        let hover = as_pieces(
            look_draws(
                self.looks.hover,
                state,
                self.motion.hovering().presence(Some(index), 0) as Micros,
                Drive::resting(),
                None,
                self.looks.effects,
            ),
        );
        let press = as_pieces(
            look_draws(
                self.looks.hover,
                state,
                self.motion.pressing().presence(Some(index), 0) as Micros,
                Drive::resting(),
                None,
                self.looks.effects,
            ),
        );
        let all = self.cells(n);
        let at = self.cells(slot).len() as int;
        let part = self.cell_part(slot);
        assert(all.subrange(at, at + hover.len() + press.len()) =~= hover + press) by {
            assert forall|k: int| 0 <= k < hover.len() + press.len() implies all[at + k] == (hover
                + press)[k] by {
                assert(all[at + k] == part[k]);
                assert(part[k] == (hover + press)[k]);
            }
        }
    }

    /// A cell is selected as much as the selection is on it: where one row is selected, as much as the
    /// selection is drawn there, and else all or nothing. The selection is painted on the cell's state,
    /// over its washes and pulled by what the selection does.
    pub proof fn the_selection_of_a_cell_lies_on_its_state(self, slot: int, alpha: Micros, ring: int)
        requires
            self.sane(),
            0 <= slot < self.buf@.len(),
            alpha == self.selection_alpha(slot),
            ring == self.focus_part(slot).len(),
        ensures
            ({
                let index = (self.layout.visible.first + slot) as u64;
                let chosen = as_pieces(
                    look_draws(
                        self.looks.selected,
                        self.state_of(self.cell_at(slot)),
                        alpha,
                        self.motion.driving(self.looks.ripple as int),
                        None,
                        self.looks.effects,
                    ),
                );
                let all = self.cells(self.buf@.len() as int);
                let end = self.cells(slot + 1).len() - 2 - ring;
                &&& chosen.len() <= end <= all.len()
                &&& all.subrange(end - chosen.len(), end) == chosen
                &&& rows_held(self.runs()) <= 1 ==> match region_of(
                    self.motion.selecting(),
                    self.layout.visible.count,
                ) {
                    Some(draw) => alpha == (if draw.row == index {
                        draw.alpha as int
                    } else {
                        0
                    }),
                    None => alpha == 0,
                }
            }),
    {
        let n = self.buf@.len() as int;
        self.lemma_cells_hold_a_cell(n, slot);
        let chosen = as_pieces(
            look_draws(
                self.looks.selected,
                self.state_of(self.cell_at(slot)),
                alpha,
                self.motion.driving(self.looks.ripple as int),
                None,
                self.looks.effects,
            ),
        );
        let all = self.cells(n);
        let at = self.cells(slot).len() as int;
        let part = self.cell_part(slot);
        let paint = self.paint_part(slot);
        let end = self.cells(slot + 1).len() - 2 - ring;
        assert(part.len() == paint.len() + ring + 2);
        assert(end == at + paint.len());
        assert(all.subrange(end - chosen.len(), end) =~= chosen) by {
            assert forall|k: int| 0 <= k < chosen.len() implies all[end - chosen.len() + k]
                == chosen[k] by {
                let j = paint.len() - chosen.len() + k;
                assert(all[at + j] == part[j]);
                assert(part[j] == paint[j]);
                assert(paint[j] == chosen[k]);
            }
        }
    }

    /// The cell that has focus has a ring around its state, and just outside of the ring an outline, each
    /// in the colour that is kept for it. They lie under its icon and over everything else of it.
    pub proof fn the_ring_of_a_cell_is_around_its_state(self, slot: int)
        requires
            self.sane(),
            0 <= slot < self.buf@.len(),
            self.interaction.focused == Some((self.layout.visible.first + slot) as u64),
        ensures
            ({
                let all = self.cells(self.buf@.len() as int);
                let end = self.cells(slot + 1).len() - 2;
                let state = self.state_of(self.cell_at(slot));
                let outline = times(self.tokens.outline_width as int, self.scale());
                let width = times(self.tokens.ring_width as int, self.scale());
                &&& 2 <= end <= all.len()
                &&& all[end - 2] == Piece::<Seq<char>>::Ring {
                    shape: Shape {
                        x: state.x,
                        y: state.y,
                        w: state.w,
                        h: state.h,
                        radius: state.radius,
                    },
                    width: (width + outline + outline) as Micros,
                    tint: Tint {
                        token: Token::FocusOutline,
                        opacity: Opacity::Times(1_000_000),
                    },
                }
                &&& all[end - 1] matches Piece::Ring { shape, width: drawn, tint } && {
                    &&& shape.x == (state.x + outline) as Micros
                    &&& shape.y == (state.y + outline) as Micros
                    &&& shape.w == max_of(state.w - outline - outline, 1_000_000) as Micros
                    &&& shape.h == max_of(state.h - outline - outline, 1_000_000) as Micros
                    &&& shape.radius == max_of(state.radius - outline, 0) as Micros
                    &&& drawn == width as Micros
                    &&& tint.token == Token::Focus
                    &&& tint.opacity == Opacity::Times(1_000_000)
                }
                &&& state.radius == in_px(
                    self.tokens.radius_row as int,
                    self.layout.scale as int,
                ) as Micros
                &&& state.shadow_x == self.looks.shadow.0
                &&& state.shadow_y == self.looks.shadow.1
            }),
    {
        let n = self.buf@.len() as int;
        let index = (self.layout.visible.first + slot) as u64;
        crate::row::list::a_row_is_in_the_states_it_is_in(
            self.buf@[slot],
            self.interaction,
            index,
            FOCUSED_BIT,
        );
        self.lemma_cells_hold_a_cell(n, slot);
        let all = self.cells(n);
        let at = self.cells(slot).len() as int;
        let part = self.cell_part(slot);
        let paint = self.paint_part(slot);
        let rings = self.focus_part(slot);
        let over = paint.len() as int;
        assert(rings.len() == 2);
        assert(part.len() == over + 4);
        assert(all[at + over] == part[over]);
        assert(all[at + (over + 1)] == part[over + 1]);
        assert(part[over] == rings[0]);
        assert(part[over + 1] == rings[1]);
    }
}

} // verus!
