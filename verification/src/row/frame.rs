//! One frame of a list, in three layers: the surfaces of the rows, the selection, and the
//! content. The selection is hoisted out of the rows because a region that is on its way between
//! two rows would else paint over text that is already there.

use crate::material::compile::{furthest_overhang, material_draws, pass_draws, Instance};
use crate::material::{modest, roomy, turn_of, Drive, Material, Pass, Substance, Surface};
use crate::motion::{lamp_gain, lamp_of, region_of, InteractionMotion};
use crate::recycler::ViewportLayout;
use crate::row::geometry::sound_scale;
use crate::row::format::{is_stamp, size_text};
use crate::row::list::{draw_row, mark_of, row_content, shown_flags, Page};
use crate::row::piece::{all_seen, as_pieces, put, put_all, Align, Piece};
use crate::row::Interaction;
use crate::row_source::{LoadState, RowBuf, RowView, DIR_BIT, FOCUSED_BIT};
use crate::scene::{
    focus_light, slab_of, FocusLamp, FocusLightTokens, SceneBuilder, Slab, Strip,
};
use crate::selection::{rows_held, rows_in, Run};
use crate::text;
use crate::text::lossy;
use crate::units::{clamped, fits, min_of, product, times, Micros, Reading, MICRO};
use vstd::prelude::*;

verus! {

/// How much the light may change a material.
#[derive(Clone, Copy, PartialEq, Eq, Debug, Structural)]
pub struct Allowance {
    /// The least of its light that a shadow leaves it.
    pub attenuation_floor: Micros,
    /// The most light that may be added to it.
    pub addition_max: Micros,
}

/// A material, and how much the light may change it.
#[derive(Clone, Copy, Debug)]
pub struct Look<'a> {
    /// The material.
    pub material: &'a Material,
    /// How much the light may change it.
    pub allowance: Allowance,
}

/// What rows are painted with. A look that there is none of paints nothing.
#[derive(Clone, Copy, Debug)]
pub struct Looks<'a> {
    /// An even row.
    pub body: Option<Look<'a>>,
    /// An odd row.
    pub body_alt: Option<Look<'a>>,
    /// A hovered or pressed row.
    pub hover: Option<Look<'a>>,
    /// A selected row.
    pub selected: Option<Look<'a>>,
    /// Whether effects are drawn.
    pub effects: bool,
    /// Where the lamp's shimmer is at this frame's phase, from minus one to one.
    pub ripple: Micros,
    /// Which way shadows fall, for each pixel that a caster is displaced.
    pub shadow: (Micros, Micros),
    /// The focus lamp.
    pub focus_light: FocusLightTokens,
}

/// Whether a look can be painted.
pub open spec fn look_is_sane(look: Option<Look<'_>>) -> bool {
    look matches Some(l) ==> l.material.sane() && fits(l.material.elevation as int)
}

impl<'a> Looks<'a> {
    /// Everything can be painted.
    pub open spec fn sane(self) -> bool {
        &&& look_is_sane(self.body)
        &&& look_is_sane(self.body_alt)
        &&& look_is_sane(self.hover)
        &&& look_is_sane(self.selected)
        &&& modest(self.shadow.0 as int)
        &&& modest(self.shadow.1 as int)
        &&& modest(self.focus_light.height as int)
    }
}

/// What a look draws on a surface.
pub open spec fn look_draws(
    look: Option<Look<'_>>,
    surface: Surface,
    alpha: Micros,
    drive: Drive,
    substance: Option<Substance>,
    effects: bool,
) -> Seq<Instance> {
    match look {
        None => Seq::empty(),
        Some(l) => material_draws(l.material.layers@, surface, alpha, drive, substance, effects),
    }
}

/// What the lighting pass sees of a look on a surface.
pub open spec fn look_slab(look: Option<Look<'_>>, surface: Surface) -> Seq<Slab> {
    match look {
        None => Seq::empty(),
        Some(l) => match slab_of(l.material.layers@, l.material.elevation as int, surface) {
            None => Seq::empty(),
            Some(slab) => seq![
                Slab {
                    attenuation_floor: l.allowance.attenuation_floor,
                    addition_max: l.allowance.addition_max,
                    ..slab
                },
            ],
        },
    }
}

/// Everything that a frame of a list is drawn from.
#[derive(Clone, Copy, Debug)]
pub struct FrameInput<'a> {
    /// What all rows share.
    pub page: Page,
    /// What rows are painted with.
    pub looks: Looks<'a>,
    /// Where rows are.
    pub layout: ViewportLayout,
    /// The rows on screen.
    pub buf: &'a RowBuf,
    /// What each of them is made of.
    pub substances: &'a Vec<Substance>,
    /// What the view knows of them.
    pub interaction: Interaction<'a>,
    /// What is on its way.
    pub motion: &'a InteractionMotion,
}

impl<'a> FrameInput<'a> {
    /// The page is that of the layout, there is a substance for each row, and everything is small
    /// enough to compute with.
    pub open spec fn sane(self) -> bool {
        &&& self.page.sane()
        &&& self.looks.sane()
        &&& self.layout.sane()
        &&& modest(self.layout.scale as int)
        &&& self.page.scale == sound_scale(self.layout.scale as int)
        &&& self.page.row_height == self.layout.row_height
        &&& self.buf@.len() <= u32::MAX
        &&& self.layout.visible.first + self.buf@.len() <= u64::MAX
        &&& self.substances@.len() == self.buf@.len()
        &&& forall|i: int|
            0 <= i < self.substances@.len() ==> modest((#[trigger] self.substances@[i]).bevel as int)
    }

    /// The index of the row at `slot`.
    pub open spec fn index_at(self, slot: int) -> u64 {
        (self.layout.visible.first + slot) as u64
    }

    /// The whole of a row.
    pub open spec fn row_surface(self, top: int) -> Surface {
        Surface {
            x: self.layout.origin_x,
            y: top as Micros,
            w: (self.layout.width * 1_000_000) as Micros,
            h: (self.layout.row_height * 1_000_000) as Micros,
            radius: 0,
            scale: self.page.scale,
            shadow_x: self.looks.shadow.0,
            shadow_y: self.looks.shadow.1,
        }
    }

    /// The state of a row, drawn in by `squish` logical pixels.
    pub open spec fn state_surface(self, top: int, squish: int) -> Surface {
        Surface {
            shadow_x: self.looks.shadow.0,
            shadow_y: self.looks.shadow.1,
            ..self.page.region.pressed_in(top, self.page.scale as int, squish)
        }
    }

    /// The look of the row at `index`: every other row differs.
    pub open spec fn body_look(self, index: u64) -> Option<Look<'a>> {
        if index % 2 == 1 {
            self.looks.body_alt
        } else {
            self.looks.body
        }
    }

    /// How far a pressed row is drawn in, in logical pixels.
    pub open spec fn squish(self, index: u64) -> int {
        times(
            self.page.tokens.space_xs as int,
            self.motion.pressing().presence(Some(index), 0),
        )
    }

    /// The body of one row, made of what the row is made of.
    pub open spec fn body_part(self, slot: int) -> Seq<Piece<Seq<char>>> {
        as_pieces(
            look_draws(
                self.body_look(self.index_at(slot)),
                self.row_surface(self.layout.top_of(slot)),
                1_000_000,
                Drive::resting(),
                Some(self.substances@[slot]),
                self.looks.effects,
            ),
        )
    }

    /// The wash over one row: the same for hover and for press, one over the other.
    pub open spec fn wash_part(self, slot: int) -> Seq<Piece<Seq<char>>> {
        let index = self.index_at(slot);
        let state = self.state_surface(self.layout.top_of(slot), self.squish(index));
        as_pieces(
            look_draws(
                self.looks.hover,
                state,
                self.motion.hovering().presence(Some(index), 0) as Micros,
                Drive::resting(),
                None,
                self.looks.effects,
            ),
        ) + as_pieces(
            look_draws(
                self.looks.hover,
                state,
                self.motion.pressing().presence(Some(index), 0) as Micros,
                Drive::resting(),
                None,
                self.looks.effects,
            ),
        )
    }

    /// The surface of one row: its body, and the wash over it.
    pub open spec fn surface_part(self, slot: int) -> Seq<Piece<Seq<char>>> {
        self.body_part(slot) + self.wash_part(slot)
    }

    /// The surfaces of the first `count` rows.
    pub open spec fn surfaces(self, count: int) -> Seq<Piece<Seq<char>>>
        decreases count,
    {
        if count <= 0 {
            Seq::empty()
        } else {
            self.surfaces(count - 1) + self.surface_part(count - 1)
        }
    }

    /// What the lighting pass sees of the first `count` rows.
    pub open spec fn row_slabs(self, count: int) -> Seq<Slab>
        decreases count,
    {
        if count <= 0 || !self.page.lit {
            Seq::empty()
        } else {
            self.row_slabs(count - 1) + look_slab(
                self.body_look(self.index_at(count - 1)),
                self.row_surface(self.layout.top_of(count - 1)),
            )
        }
    }

    /// Top edge of a selected row, from the top of the surface and displaced by `offset_rows`.
    pub open spec fn selection_top(self, row: u64, offset_rows: int) -> int {
        (row - self.layout.visible.first) * self.layout.row_height * 1_000_000
            - self.layout.first_row_offset + offset_rows * self.layout.row_height
    }

    /// Whether a region at `top` shows, or anything that it reaches.
    pub open spec fn reaches_surface(self, top: int, drive: Drive, pass: Pass) -> bool {
        let full = Drive {
            intensity: 1_000_000,
            phase: turn_of(Reading::Finite(drive.phase)) as Micros,
            ripple: clamped(drive.ripple as int, -1_000_000, 1_000_000) as Micros,
        };
        let reach = match self.looks.selected {
            None => 0,
            Some(look) => match pass {
                Pass::Bleed => furthest_overhang(
                    look.material.layers@,
                    self.page.scale as int,
                    full,
                ),
                Pass::Body => 0,
            },
        };
        &&& top + self.page.height() + reach > 0
        &&& top - reach < self.layout.height * 1_000_000
    }

    /// One pass of one selected region at `top`, if it shows.
    pub open spec fn region_part(
        self,
        top: int,
        alpha: Micros,
        drive: Drive,
        squish: int,
        pass: Pass,
    ) -> Seq<Piece<Seq<char>>> {
        match self.looks.selected {
            None => Seq::empty(),
            Some(look) => if self.reaches_surface(top, drive, pass) {
                as_pieces(
                    pass_draws(
                        look.material.layers@,
                        pass,
                        self.state_surface(top + self.layout.origin_y, squish),
                        alpha,
                        drive,
                        None,
                        self.looks.effects,
                    ),
                )
            } else {
                Seq::empty()
            },
        }
    }

    /// What the lighting pass sees of one selected region, if it shows at all.
    pub open spec fn region_slab(self, top: int, alpha: Micros, drive: Drive, squish: int) -> Seq<
        Slab,
    > {
        if self.page.lit && alpha > 0 && self.reaches_surface(top, drive, Pass::Body) {
            look_slab(
                self.looks.selected,
                self.state_surface(top + self.layout.origin_y, squish),
            )
        } else {
            Seq::empty()
        }
    }

    /// One pass of the first `count` of several selected rows.
    pub open spec fn several(self, rows: Seq<u64>, count: int, pass: Pass) -> Seq<Piece<Seq<char>>>
        decreases count,
    {
        if count <= 0 {
            Seq::empty()
        } else {
            self.several(rows, count - 1, pass) + self.region_part(
                self.selection_top(rows[count - 1], 0),
                1_000_000,
                Drive::resting(),
                0,
                pass,
            )
        }
    }

    /// What the lighting pass sees of the first `count` of several selected rows.
    pub open spec fn several_slabs(self, rows: Seq<u64>, count: int) -> Seq<Slab>
        decreases count,
    {
        if count <= 0 {
            Seq::empty()
        } else {
            self.several_slabs(rows, count - 1) + self.region_slab(
                self.selection_top(rows[count - 1], 0),
                1_000_000,
                Drive::resting(),
                0,
            )
        }
    }

    /// What is selected.
    pub open spec fn runs(self) -> Seq<Run> {
        match self.interaction.selection {
            Some(selection) => selection@,
            None => Seq::empty(),
        }
    }

    /// The selected rows that are on screen.
    pub open spec fn selected_rows(self) -> Seq<u64> {
        rows_in(
            self.runs(),
            self.layout.visible.first as int,
            self.layout.visible.first + self.layout.visible.count,
        )
    }

    /// How the selection is moved.
    pub open spec fn pull(self) -> Drive {
        self.motion.driving(self.looks.ripple as int)
    }

    /// The selection. Several selected rows are several regions, with every halo under every
    /// fill; one is a region that slides between two rows.
    pub open spec fn selection_part(self) -> Seq<Piece<Seq<char>>> {
        if rows_held(self.runs()) > 1 {
            let rows = self.selected_rows();
            self.several(rows, rows.len() as int, Pass::Bleed) + self.several(
                rows,
                rows.len() as int,
                Pass::Body,
            )
        } else {
            match region_of(self.motion.selecting(), self.layout.visible.count) {
                None => Seq::empty(),
                Some(draw) => {
                    let top = self.selection_top(draw.row, draw.offset_rows as int);
                    let squish = self.squish(draw.row);
                    self.region_part(top, draw.alpha, self.pull(), squish, Pass::Bleed)
                        + self.region_part(top, draw.alpha, self.pull(), squish, Pass::Body)
                },
            }
        }
    }

    /// What the lighting pass sees of the selection.
    pub open spec fn selection_slabs(self) -> Seq<Slab> {
        if rows_held(self.runs()) > 1 {
            let rows = self.selected_rows();
            self.several_slabs(rows, rows.len() as int)
        } else {
            match region_of(self.motion.selecting(), self.layout.visible.count) {
                None => Seq::empty(),
                Some(draw) => self.region_slab(
                    self.selection_top(draw.row, draw.offset_rows as int),
                    draw.alpha,
                    self.pull(),
                    self.squish(draw.row),
                ),
            }
        }
    }

    /// The content of the row at `slot`.
    pub open spec fn content_part(self, slot: int) -> Seq<Piece<Seq<char>>> {
        let row = self.buf@[slot];
        let index = self.index_at(slot);
        row_content(
            self.page,
            row,
            lossy(self.buf.name_of(row)),
            shown_flags(row, self.interaction, index),
            mark_of(self.interaction, index),
            self.layout.top_of(slot),
        )
    }

    /// The content of the first `count` rows.
    pub open spec fn contents(self, count: int) -> Seq<Piece<Seq<char>>>
        decreases count,
    {
        if count <= 0 {
            Seq::empty()
        } else {
            self.contents(count - 1) + self.content_part(count - 1)
        }
    }

    /// The frame: the surfaces, the selection, and then the content.
    pub open spec fn pieces(self) -> Seq<Piece<Seq<char>>> {
        (self.surfaces(self.buf@.len() as int) + self.selection_part()).push(Piece::Seam)
            + self.contents(self.buf@.len() as int)
    }

    /// What the lighting pass sees of the frame.
    pub open spec fn slabs(self) -> Seq<Slab> {
        self.row_slabs(self.buf@.len() as int) + self.selection_slabs()
    }

    /// The lamp over the focused row, where rows are lit: on the rectangle that the focus ring is
    /// drawn around, so that the two cannot drift apart.
    pub open spec fn has_lamp(self, lamp: Option<FocusLamp>) -> bool {
        match lamp_of(self.motion.focusing()) {
            None => lamp is None,
            Some(draw) => {
                let state = self.page.region.pressed_in(
                    self.selection_top(draw.row, draw.offset_rows as int) + self.layout.origin_y,
                    self.page.scale as int,
                    0,
                );
                let tokens = self.looks.focus_light;
                let gain = lamp_gain(self.motion.focusing());
                &&& lamp matches Some(found)
                &&& found.rect == (Strip { x: state.x, y: state.y, w: state.w, h: state.h })
                &&& found.height == times(tokens.height as int, self.page.scale as int)
                &&& found.size == tokens.size_deg
                &&& found.share == times(clamped(tokens.share as int, 0, 1_000_000), gain)
                &&& found.ambient == times(clamped(tokens.ambient as int, 0, 1_000_000), gain)
            },
        }
    }
}

/// One frame of a list.
#[derive(Debug)]
pub struct Frame {
    /// What is drawn, in order.
    pub pieces: Vec<Piece<String>>,
    /// What the lighting pass sees; nothing where rows are not lit.
    pub slabs: Vec<Slab>,
    /// The lamp over the focused row; none where rows are not lit.
    pub lamp: Option<FocusLamp>,
}

proof fn lemma_no_squish(scale: int)
    ensures
        times(0, scale) == 0,
{
    assert(0 * scale == 0);
}

impl<'a> FrameInput<'a> {
    /// Paint a look.
    fn paint(
        &self,
        look: Option<Look<'a>>,
        surface: Surface,
        alpha: Micros,
        substance: Option<Substance>,
        out: &mut Vec<Piece<String>>,
    )
        requires
            look_is_sane(look),
            surface.sane(),
            substance matches Some(s) ==> modest(s.bevel as int),
        ensures
            all_seen(final(out)@) == all_seen(old(out)@) + as_pieces(
                look_draws(
                    look,
                    surface,
                    alpha,
                    Drive::resting(),
                    substance,
                    self.looks.effects,
                ),
            ),
    {
        match look {
            None => {
                assert(all_seen(out@) =~= all_seen(old(out)@) + as_pieces(Seq::empty()));
            },
            Some(look) => {
                let mut instances: Vec<Instance> = Vec::new();
                look.material.compile_with(
                    surface,
                    alpha,
                    Drive::rest(),
                    substance,
                    self.looks.effects,
                    &mut instances,
                );
                assert(instances@ =~= look_draws(
                    Some(look),
                    surface,
                    alpha,
                    Drive::resting(),
                    substance,
                    self.looks.effects,
                ));
                put_all(out, &instances);
            },
        }
    }

    /// Note what the lighting pass sees of a look.
    fn cast(&self, look: Option<Look<'a>>, surface: Surface, slabs: &mut Vec<Slab>)
        requires
            look_is_sane(look),
            surface.sane(),
        ensures
            final(slabs)@ == old(slabs)@ + look_slab(look, surface),
    {
        if let Some(look) = look {
            if let Some(slab) = look.material.slab(surface) {
                slabs.push(
                    Slab {
                        attenuation_floor: look.allowance.attenuation_floor,
                        addition_max: look.allowance.addition_max,
                        ..slab
                    },
                );
            }
        }
        assert(slabs@ =~= old(slabs)@ + look_slab(look, surface));
    }

    /// The state of a row, drawn in by `squish` logical pixels.
    fn state(&self, top: Micros, squish: Micros) -> (result: Surface)
        requires
            self.sane(),
            -1_000_000_000_000_000_000_000_000_000 <= top
                <= 1_000_000_000_000_000_000_000_000_000,
            0 <= squish <= 1_000_000_000_000,
        ensures
            result == self.state_surface(top as int, squish as int),
            result.sane(),
    {
        proof {
            let a = squish as int;
            let b = self.page.scale as int;
            assert(0 <= a * b <= 1_000_000_000_000_000_000_000_000) by (nonlinear_arith)
                requires
                    0 <= a <= 1_000_000_000_000,
                    0 <= b <= 1_000_000_000_000,
            ;
        }
        self.page.region.surface(top, self.page.scale, squish).with_shadow(
            self.looks.shadow.0,
            self.looks.shadow.1,
        )
    }

    /// How far a pressed row is drawn in.
    fn squish_of(&self, index: u64) -> (result: Micros)
        requires
            self.sane(),
        ensures
            result == self.squish(index),
            0 <= result <= 1_000_000_000_000,
    {
        let pressed: Micros = self.motion.press_alpha(index);
        proof {
            crate::units::times_is_bounded(
                self.page.tokens.space_xs as int,
                pressed as int,
                1,
            );
        }
        product(self.page.tokens.space_xs, pressed)
    }

    /// Draw the body of the row at `slot`.
    fn draw_body(&self, slot: u32, out: &mut Vec<Piece<String>>, slabs: &mut Vec<Slab>)
        requires
            self.sane(),
            slot < self.buf@.len(),
        ensures
            all_seen(final(out)@) == all_seen(old(out)@) + self.body_part(slot as int),
            final(slabs)@ == old(slabs)@ + if self.page.lit {
                look_slab(
                    self.body_look(self.index_at(slot as int)),
                    self.row_surface(self.layout.top_of(slot as int)),
                )
            } else {
                Seq::empty()
            },
    {
        let top: Micros = self.layout.row_top(slot);
        let index: u64 = self.layout.visible.first + slot as u64;
        proof {
            self.layout.lemma_tops_are_bounded(slot as int);
        }
        let body: Surface = Surface::new(
            self.layout.origin_x,
            top,
            self.layout.width as i128 * MICRO,
            self.layout.row_height as i128 * MICRO,
            0,
            self.page.scale,
        ).with_shadow(self.looks.shadow.0, self.looks.shadow.1);
        let look: Option<Look<'a>> = if index % 2 == 1 {
            self.looks.body_alt
        } else {
            self.looks.body
        };
        let substance: Substance = self.substances[slot as usize];
        assert(modest(self.substances@[slot as int].bevel as int));
        self.paint(look, body, MICRO, Some(substance), out);
        // Beside the paint, so that a row's slab is never of another material than its pixels.
        if self.page.lit {
            self.cast(look, body, slabs);
        } else {
            assert(slabs@ =~= old(slabs)@ + Seq::empty());
        }
    }

    /// Draw the wash over the row at `slot`. A press deepens what is beneath it, which reads as
    /// the same object being pushed.
    fn draw_wash(&self, slot: u32, out: &mut Vec<Piece<String>>)
        requires
            self.sane(),
            slot < self.buf@.len(),
        ensures
            all_seen(final(out)@) == all_seen(old(out)@) + self.wash_part(slot as int),
    {
        let top: Micros = self.layout.row_top(slot);
        let index: u64 = self.layout.visible.first + slot as u64;
        proof {
            self.layout.lemma_tops_are_bounded(slot as int);
        }
        let state: Surface = self.state(top, self.squish_of(index));
        let ghost start = all_seen(out@);
        self.paint(self.looks.hover, state, self.motion.hover_alpha(index), None, out);
        self.paint(self.looks.hover, state, self.motion.press_alpha(index), None, out);
        assert(all_seen(out@) =~= start + self.wash_part(slot as int));
    }

    /// Draw the surface of the row at `slot`.
    fn draw_surface(&self, slot: u32, out: &mut Vec<Piece<String>>, slabs: &mut Vec<Slab>)
        requires
            self.sane(),
            slot < self.buf@.len(),
        ensures
            all_seen(final(out)@) == all_seen(old(out)@) + self.surface_part(slot as int),
            final(slabs)@ == old(slabs)@ + if self.page.lit {
                look_slab(
                    self.body_look(self.index_at(slot as int)),
                    self.row_surface(self.layout.top_of(slot as int)),
                )
            } else {
                Seq::empty()
            },
    {
        self.draw_body(slot, out, slabs);
        self.draw_wash(slot, out);
        assert(all_seen(out@) =~= all_seen(old(out)@) + self.surface_part(slot as int));
    }

    /// Top edge of a selected row, from the top of the surface.
    fn top_of_selection(&self, row: u64, offset_rows: Micros) -> (result: Micros)
        requires
            self.sane(),
            crate::motion::is_travel(offset_rows as int),
        ensures
            result == self.selection_top(row, offset_rows as int),
            -200_000_000_000_000_000_000_000_000_000_000_000 <= result
                <= 200_000_000_000_000_000_000_000_000_000_000_000,
    {
        let away: i128 = row as i128 - self.layout.visible.first as i128;
        let tall: i128 = self.layout.row_height as i128;
        proof {
            let a = away as int;
            let h = tall as int;
            let o = offset_rows as int;
            assert(-80_000_000_000_000_000_000_000_000_000 <= a * h
                <= 80_000_000_000_000_000_000_000_000_000) by (nonlinear_arith)
                requires
                    -0x1_0000_0000_0000_0000 <= a <= 0x1_0000_0000_0000_0000,
                    0 <= h <= 0xffff_ffff,
            ;
            assert(-80_000_000_000_000_000_000_000_000_000_000_000 <= o * h
                <= 80_000_000_000_000_000_000_000_000_000_000_000) by (nonlinear_arith)
                requires
                    -18_446_744_073_709_551_616_000_000 <= o <= 18_446_744_073_709_551_616_000_000,
                    0 <= h <= 0xffff_ffff,
            ;
        }
        away * tall * MICRO - self.layout.first_row_offset + offset_rows * tall
    }

    /// Draw one pass of one selected region. A halo is drawn for as long as it reaches the
    /// surface, even where its own row does not: it scrolls in rather than popping in.
    fn push_selection(
        &self,
        top: Micros,
        alpha: Micros,
        drive: Drive,
        squish: Micros,
        pass: Pass,
        out: &mut Vec<Piece<String>>,
        slabs: &mut Vec<Slab>,
    )
        requires
            self.sane(),
            drive.sane(),
            0 <= squish <= 1_000_000_000_000,
            -200_000_000_000_000_000_000_000_000_000_000_000 <= top
                <= 200_000_000_000_000_000_000_000_000_000_000_000,
        ensures
            all_seen(final(out)@) == all_seen(old(out)@) + self.region_part(
                top as int,
                alpha,
                drive,
                squish as int,
                pass,
            ),
            final(slabs)@ == old(slabs)@ + if pass == Pass::Body {
                self.region_slab(top as int, alpha, drive, squish as int)
            } else {
                Seq::empty()
            },
    {
        let look: Look<'a> = match self.looks.selected {
            None => {
                assert(all_seen(out@) =~= all_seen(old(out)@) + Seq::empty());
                assert(slabs@ =~= old(slabs)@ + Seq::empty());
                return;
            },
            Some(look) => look,
        };
        let height: Micros = self.page.row_height as i128 * MICRO;
        // At full drive rather than at this frame's, so that a region whose halo is about to
        // swell is not dropped a frame before it does.
        let reach: Micros = match pass {
            Pass::Bleed => look.material.bleed(
                self.page.scale,
                Drive::new(MICRO, Reading::Finite(drive.phase), drive.ripple),
            ),
            Pass::Body => 0,
        };
        if top + height + reach <= 0 || top - reach >= self.layout.height as i128 * MICRO {
            assert(!self.reaches_surface(top as int, drive, pass));
            assert(all_seen(out@) =~= all_seen(old(out)@) + Seq::empty());
            assert(slabs@ =~= old(slabs)@ + Seq::empty());
            return;
        }
        assert(self.reaches_surface(top as int, drive, pass));
        let state: Surface = self.state(top + self.layout.origin_y, squish);
        let mut instances: Vec<Instance> = Vec::new();
        look.material.compile_pass(pass, state, alpha, drive, self.looks.effects, &mut instances);
        assert(instances@ =~= pass_draws(
            look.material.layers@,
            pass,
            state,
            alpha,
            drive,
            None,
            self.looks.effects,
        ));
        put_all(out, &instances);
        // Once for each region, beside its body, and only while anything of it shows.
        if pass == Pass::Body && self.page.lit && alpha > 0 {
            self.cast(self.looks.selected, state, slabs);
        } else {
            assert(slabs@ =~= old(slabs)@ + Seq::empty());
        }
    }

    /// Draw one pass of several selected rows.
    fn push_several(
        &self,
        rows: &Vec<u64>,
        pass: Pass,
        out: &mut Vec<Piece<String>>,
        slabs: &mut Vec<Slab>,
    )
        requires
            self.sane(),
        ensures
            all_seen(final(out)@) == all_seen(old(out)@) + self.several(
                rows@,
                rows@.len() as int,
                pass,
            ),
            final(slabs)@ == old(slabs)@ + if pass == Pass::Body {
                self.several_slabs(rows@, rows@.len() as int)
            } else {
                Seq::empty()
            },
    {
        let mut i: usize = 0;
        assert(all_seen(out@) =~= all_seen(old(out)@) + self.several(rows@, 0, pass));
        assert(slabs@ =~= old(slabs)@ + Seq::empty());
        while i < rows.len()
            invariant
                self.sane(),
                i <= rows@.len(),
                all_seen(out@) == all_seen(old(out)@) + self.several(rows@, i as int, pass),
                slabs@ == old(slabs)@ + if pass == Pass::Body {
                    self.several_slabs(rows@, i as int)
                } else {
                    Seq::empty()
                },
            decreases rows@.len() - i,
        {
            let top: Micros = self.top_of_selection(rows[i], 0);
            let ghost drawn = all_seen(out@);
            let ghost cast = slabs@;
            self.push_selection(top, MICRO, Drive::rest(), 0, pass, out, slabs);
            i = i + 1;
            proof {
                assert(self.selection_top(rows@[i - 1], 0) == top);
                assert(all_seen(out@) =~= all_seen(old(out)@) + self.several(
                    rows@,
                    i as int,
                    pass,
                ));
                if pass == Pass::Body {
                    assert(slabs@ =~= old(slabs)@ + self.several_slabs(rows@, i as int));
                } else {
                    assert(slabs@ =~= old(slabs)@ + Seq::empty());
                }
            }
        }
    }

    /// Draw the selection.
    fn draw_selection(&self, out: &mut Vec<Piece<String>>, slabs: &mut Vec<Slab>)
        requires
            self.sane(),
        ensures
            all_seen(final(out)@) == all_seen(old(out)@) + self.selection_part(),
            final(slabs)@ == old(slabs)@ + self.selection_slabs(),
    {
        let ghost drawn = all_seen(out@);
        let ghost cast = slabs@;
        let several: Option<Vec<u64>> = match self.interaction.selection {
            Some(selection) => if selection.len() > 1 {
                let first: u64 = self.layout.visible.first;
                Some(selection.iter_in(first..first + self.layout.visible.count as u64))
            } else {
                None
            },
            None => None,
        };
        proof {
            assert(rows_held(Seq::<Run>::empty()) == 0);
        }
        match several {
            Some(rows) => {
                assert(rows@ == self.selected_rows());
                self.push_several(&rows, Pass::Bleed, out, slabs);
                self.push_several(&rows, Pass::Body, out, slabs);
                assert(all_seen(out@) =~= drawn + self.selection_part());
                assert(slabs@ =~= cast + self.selection_slabs());
            },
            None => match self.motion.selection_draw(self.layout.visible.count) {
                None => {
                    assert(all_seen(out@) =~= drawn + self.selection_part());
                    assert(slabs@ =~= cast + self.selection_slabs());
                },
                Some(draw) => {
                    let top: Micros = self.top_of_selection(draw.row, draw.offset_rows);
                    let squish: Micros = self.squish_of(draw.row);
                    let drive: Drive = self.motion.drive(self.looks.ripple);
                    self.push_selection(top, draw.alpha, drive, squish, Pass::Bleed, out, slabs);
                    self.push_selection(top, draw.alpha, drive, squish, Pass::Body, out, slabs);
                    assert(all_seen(out@) =~= drawn + self.selection_part());
                    assert(slabs@ =~= cast + self.selection_slabs());
                },
            },
        }
    }

    /// The lamp over the focused row, or none where nothing has focus.
    fn focus_lamp(&self) -> (result: Option<FocusLamp>)
        requires
            self.sane(),
        ensures
            self.has_lamp(result),
    {
        match self.motion.focus_light_draw() {
            None => None,
            Some(draw) => {
                let top: Micros = self.top_of_selection(draw.row, draw.offset_rows)
                    + self.layout.origin_y;
                proof {
                    lemma_no_squish(self.page.scale as int);
                }
                let state: Surface = self.page.region.surface(top, self.page.scale, 0);
                Some(
                    focus_light(
                        Strip { x: state.x, y: state.y, w: state.w, h: state.h },
                        0,
                        self.looks.focus_light,
                        self.page.scale,
                        self.motion.focus_light_gain(),
                    ),
                )
            },
        }
    }

    /// Draw the content of every row.
    fn draw_contents(&self, out: &mut Vec<Piece<String>>)
        requires
            self.sane(),
        ensures
            all_seen(final(out)@) == all_seen(old(out)@) + self.contents(self.buf@.len() as int),
    {
        let rows: &[RowView] = self.buf.rows();
        let mut slot: usize = 0;
        assert(all_seen(out@) =~= all_seen(old(out)@) + self.contents(0));
        while slot < rows.len()
            invariant
                self.sane(),
                rows@ == self.buf@,
                slot <= rows@.len(),
                all_seen(out@) == all_seen(old(out)@) + self.contents(slot as int),
            decreases rows@.len() - slot,
        {
            let row: &RowView = &rows[slot];
            let top: Micros = self.layout.row_top(slot as u32);
            let index: u64 = self.layout.visible.first + slot as u64;
            proof {
                self.layout.lemma_tops_are_bounded(slot as int);
            }
            let name: String = text::into_owned(self.buf.name(row));
            draw_row(&self.page, row, name, index, top, self.interaction, out);
            slot = slot + 1;
            assert(all_seen(out@) =~= all_seen(old(out)@) + self.contents(slot as int));
        }
    }

    /// Draw the frame.
    pub fn render_rows(&self) -> (result: Frame)
        requires
            self.sane(),
        ensures
            all_seen(result.pieces@) == self.pieces(),
            result.slabs@ == if self.page.lit {
                self.slabs()
            } else {
                Seq::empty()
            },
            if self.page.lit {
                self.has_lamp(result.lamp)
            } else {
                result.lamp is None
            },
    {
        let mut out: Vec<Piece<String>> = Vec::new();
        let mut slabs: Vec<Slab> = Vec::new();
        let n: usize = self.buf.len();
        let mut slot: usize = 0;
        assert(all_seen(out@) =~= self.surfaces(0));
        assert(slabs@ =~= self.row_slabs(0));
        while slot < n
            invariant
                self.sane(),
                n == self.buf@.len(),
                slot <= n,
                all_seen(out@) == self.surfaces(slot as int),
                slabs@ == self.row_slabs(slot as int),
            decreases n - slot,
        {
            self.draw_surface(slot as u32, &mut out, &mut slabs);
            slot = slot + 1;
            proof {
                if !self.page.lit {
                    assert(slabs@ =~= Seq::empty());
                }
            }
        }
        let lamp: Option<FocusLamp> = if self.page.lit {
            self.focus_lamp()
        } else {
            None
        };
        self.draw_selection(&mut out, &mut slabs);
        put(&mut out, Piece::Seam);
        self.draw_contents(&mut out);
        proof {
            if !self.page.lit {
                self.lemma_unlit_casts_nothing();
            }
        }
        Frame { pieces: out, slabs, lamp }
    }

    proof fn lemma_unlit_casts_nothing(self)
        requires
            !self.page.lit,
        ensures
            self.slabs() == Seq::<Slab>::empty(),
    {
        let rows = self.selected_rows();
        self.lemma_unlit_rows_cast_nothing(rows, rows.len() as int);
        assert(self.slabs() =~= Seq::<Slab>::empty());
    }

    proof fn lemma_unlit_rows_cast_nothing(self, rows: Seq<u64>, count: int)
        requires
            !self.page.lit,
        ensures
            self.several_slabs(rows, count) == Seq::<Slab>::empty(),
        decreases count,
    {
        if count > 0 {
            self.lemma_unlit_rows_cast_nothing(rows, count - 1);
            assert(self.several_slabs(rows, count) =~= Seq::<Slab>::empty());
        }
    }
}

/// Whether a piece is a primitive of a material.
pub open spec fn is_painted(piece: Piece<Seq<char>>) -> bool {
    piece is Painted
}

/// Whether a piece is a halo.
pub open spec fn is_halo(piece: Piece<Seq<char>>) -> bool {
    piece matches Piece::Painted(instance) && instance is Glow
}

impl<'a> FrameInput<'a> {
    proof fn lemma_region_pass(
        self,
        top: int,
        alpha: Micros,
        drive: Drive,
        squish: int,
        pass: Pass,
    )
        ensures
            forall|i: int|
                0 <= i < self.region_part(top, alpha, drive, squish, pass).len() ==> is_painted(
                    #[trigger] self.region_part(top, alpha, drive, squish, pass)[i],
                ) && (is_halo(self.region_part(top, alpha, drive, squish, pass)[i]) <==> pass
                    == Pass::Bleed),
    {
        match self.looks.selected {
            None => {},
            Some(look) => {
                crate::material::compile::halos_lie_under_bodies(
                    look.material.layers@,
                    self.state_surface(top + self.layout.origin_y, squish),
                    alpha,
                    drive,
                    None,
                    self.looks.effects,
                );
                let draws = pass_draws(
                    look.material.layers@,
                    pass,
                    self.state_surface(top + self.layout.origin_y, squish),
                    alpha,
                    drive,
                    None,
                    self.looks.effects,
                );
                assert forall|i: int|
                    0 <= i < self.region_part(
                        top,
                        alpha,
                        drive,
                        squish,
                        pass,
                    ).len() implies is_painted(
                    #[trigger] self.region_part(top, alpha, drive, squish, pass)[i],
                ) && (is_halo(self.region_part(top, alpha, drive, squish, pass)[i]) <==> pass
                    == Pass::Bleed) by {
                    let instance = draws[i];
                    assert(self.region_part(top, alpha, drive, squish, pass)[i] == Piece::<
                        Seq<char>,
                    >::Painted(instance));
                }
            },
        }
    }

    proof fn lemma_several_pass(self, rows: Seq<u64>, count: int, pass: Pass)
        ensures
            forall|i: int|
                0 <= i < self.several(rows, count, pass).len() ==> is_painted(
                    #[trigger] self.several(rows, count, pass)[i],
                ) && (is_halo(self.several(rows, count, pass)[i]) <==> pass == Pass::Bleed),
        decreases count,
    {
        if count > 0 {
            self.lemma_several_pass(rows, count - 1, pass);
            let below = self.several(rows, count - 1, pass);
            let top = self.selection_top(rows[count - 1], 0);
            self.lemma_region_pass(top, 1_000_000, Drive::resting(), 0, pass);
            let now = self.several(rows, count, pass);
            let part = self.region_part(top, 1_000_000, Drive::resting(), 0, pass);
            assert forall|i: int| 0 <= i < now.len() implies is_painted(#[trigger] now[i]) && (
            is_halo(now[i]) <==> pass == Pass::Bleed) by {
                if i < below.len() {
                    assert(now[i] == below[i]);
                } else {
                    assert(now[i] == part[i - below.len()]);
                }
            }
        }
    }

    /// Every halo of the selection is drawn before every fill, and not row by row: a halo over
    /// the fill of the row above would be a bright band across it.
    pub proof fn halos_before_fills(self, a: int, b: int)
        requires
            0 <= a < self.selection_part().len(),
            0 <= b < self.selection_part().len(),
            is_halo(self.selection_part()[a]),
            !is_halo(self.selection_part()[b]),
        ensures
            a < b,
    {
        if rows_held(self.runs()) > 1 {
            let rows = self.selected_rows();
            let n = rows.len() as int;
            self.lemma_several_pass(rows, n, Pass::Bleed);
            self.lemma_several_pass(rows, n, Pass::Body);
            let halos = self.several(rows, n, Pass::Bleed);
            let bodies = self.several(rows, n, Pass::Body);
            assert(a < halos.len()) by {
                if a >= halos.len() {
                    assert(self.selection_part()[a] == bodies[a - halos.len()]);
                }
            }
            assert(b >= halos.len()) by {
                if b < halos.len() {
                    assert(self.selection_part()[b] == halos[b]);
                }
            }
        } else {
            match region_of(self.motion.selecting(), self.layout.visible.count) {
                None => {},
                Some(draw) => {
                    let top = self.selection_top(draw.row, draw.offset_rows as int);
                    let squish = self.squish(draw.row);
                    self.lemma_region_pass(top, draw.alpha, self.pull(), squish, Pass::Bleed);
                    self.lemma_region_pass(top, draw.alpha, self.pull(), squish, Pass::Body);
                    let halos = self.region_part(
                        top,
                        draw.alpha,
                        self.pull(),
                        squish,
                        Pass::Bleed,
                    );
                    let bodies = self.region_part(
                        top,
                        draw.alpha,
                        self.pull(),
                        squish,
                        Pass::Body,
                    );
                    assert(a < halos.len()) by {
                        if a >= halos.len() {
                            assert(self.selection_part()[a] == bodies[a - halos.len()]);
                        }
                    }
                    assert(b >= halos.len()) by {
                        if b < halos.len() {
                            assert(self.selection_part()[b] == halos[b]);
                        }
                    }
                },
            }
        }
    }

    proof fn lemma_selection_is_painted(self)
        ensures
            forall|i: int|
                0 <= i < self.selection_part().len() ==> is_painted(
                    #[trigger] self.selection_part()[i],
                ),
    {
        let all = self.selection_part();
        if rows_held(self.runs()) > 1 {
            let rows = self.selected_rows();
            let n = rows.len() as int;
            self.lemma_several_pass(rows, n, Pass::Bleed);
            self.lemma_several_pass(rows, n, Pass::Body);
            let halos = self.several(rows, n, Pass::Bleed);
            let bodies = self.several(rows, n, Pass::Body);
            assert forall|i: int| 0 <= i < all.len() implies is_painted(#[trigger] all[i]) by {
                if i < halos.len() {
                    assert(all[i] == halos[i]);
                } else {
                    assert(all[i] == bodies[i - halos.len()]);
                }
            }
        } else {
            match region_of(self.motion.selecting(), self.layout.visible.count) {
                None => {},
                Some(draw) => {
                    let top = self.selection_top(draw.row, draw.offset_rows as int);
                    let squish = self.squish(draw.row);
                    self.lemma_region_pass(top, draw.alpha, self.pull(), squish, Pass::Bleed);
                    self.lemma_region_pass(top, draw.alpha, self.pull(), squish, Pass::Body);
                    let halos = self.region_part(
                        top,
                        draw.alpha,
                        self.pull(),
                        squish,
                        Pass::Bleed,
                    );
                    let bodies = self.region_part(
                        top,
                        draw.alpha,
                        self.pull(),
                        squish,
                        Pass::Body,
                    );
                    assert forall|i: int| 0 <= i < all.len() implies is_painted(
                        #[trigger] all[i],
                    ) by {
                        if i < halos.len() {
                            assert(all[i] == halos[i]);
                        } else {
                            assert(all[i] == bodies[i - halos.len()]);
                        }
                    }
                },
            }
        }
    }

    proof fn lemma_surfaces_are_painted(self, count: int)
        ensures
            forall|i: int|
                0 <= i < self.surfaces(count).len() ==> is_painted(#[trigger] self.surfaces(count)[i]),
        decreases count,
    {
        if count > 0 {
            self.lemma_surfaces_are_painted(count - 1);
            let below = self.surfaces(count - 1);
            let part = self.surface_part(count - 1);
            let now = self.surfaces(count);
            assert forall|i: int| 0 <= i < now.len() implies is_painted(#[trigger] now[i]) by {
                if i < below.len() {
                    assert(now[i] == below[i]);
                } else {
                    assert(now[i] == part[i - below.len()]);
                }
            }
        }
    }

    proof fn lemma_contents_are_not_painted(self, count: int)
        ensures
            forall|i: int|
                0 <= i < self.contents(count).len() ==> !is_painted(#[trigger] self.contents(count)[i]),
        decreases count,
    {
        if count > 0 {
            self.lemma_contents_are_not_painted(count - 1);
            let below = self.contents(count - 1);
            let part = self.content_part(count - 1);
            let now = self.contents(count);
            assert forall|i: int| 0 <= i < now.len() implies !is_painted(#[trigger] now[i]) by {
                if i < below.len() {
                    assert(now[i] == below[i]);
                } else {
                    assert(now[i] == part[i - below.len()]);
                }
            }
        }
    }

    /// Surfaces and the selection lie beneath the content of every row: before the seam there is
    /// only paint, and after it there is none.
    pub proof fn content_lies_on_top(self, i: int)
        requires
            0 <= i < self.pieces().len(),
        ensures
            ({
                let seam = self.surfaces(self.buf@.len() as int).len()
                    + self.selection_part().len();
                &&& i < seam ==> is_painted(self.pieces()[i])
                &&& i == seam ==> self.pieces()[i] is Seam
                &&& i > seam ==> !is_painted(self.pieces()[i])
            }),
    {
        let n = self.buf@.len() as int;
        let surfaces = self.surfaces(n);
        let selection = self.selection_part();
        let contents = self.contents(n);
        let seam = surfaces.len() + selection.len();
        self.lemma_surfaces_are_painted(n);
        self.lemma_selection_is_painted();
        self.lemma_contents_are_not_painted(n);
        if i < surfaces.len() {
            assert(self.pieces()[i] == surfaces[i]);
        } else if i < seam {
            assert(self.pieces()[i] == selection[i - surfaces.len()]);
        } else if i > seam {
            assert(self.pieces()[i] == contents[i - seam - 1]);
        }
    }

    /// A row's surface costs at most a primitive for each layer of its body, and one for each
    /// layer of the wash over it, which there are two of.
    pub proof fn surfaces_cost_their_layers(self, count: int, body: nat)
        requires
            0 <= count,
            layers_in(self.looks.body) <= body,
            layers_in(self.looks.body_alt) <= body,
        ensures
            self.surfaces(count).len() <= count * (body + 2 * layers_in(self.looks.hover)),
        decreases count,
    {
        let each = body + 2 * layers_in(self.looks.hover);
        if count > 0 {
            self.surfaces_cost_their_layers(count - 1, body);
            let slot = count - 1;
            let index = self.index_at(slot);
            let state = self.state_surface(self.layout.top_of(slot), self.squish(index));
            lemma_a_look_costs_its_layers(
                self.body_look(index),
                self.row_surface(self.layout.top_of(slot)),
                1_000_000,
                Drive::resting(),
                Some(self.substances@[slot]),
                self.looks.effects,
            );
            lemma_a_look_costs_its_layers(
                self.looks.hover,
                state,
                self.motion.hovering().presence(Some(index), 0) as Micros,
                Drive::resting(),
                None,
                self.looks.effects,
            );
            lemma_a_look_costs_its_layers(
                self.looks.hover,
                state,
                self.motion.pressing().presence(Some(index), 0) as Micros,
                Drive::resting(),
                None,
                self.looks.effects,
            );
            assert(count * each == (count - 1) * each + each) by (nonlinear_arith);
        } else {
            assert(count * each == 0) by (nonlinear_arith)
                requires
                    count == 0,
            ;
        }
    }

    /// The selection costs at most a primitive for each layer of a selected row: once for each
    /// of several rows on screen, and else once.
    pub proof fn the_selection_costs_its_layers(self)
        ensures
            self.selection_part().len() <= layers_in(self.looks.selected) * if rows_held(
                self.runs(),
            ) > 1 {
                self.selected_rows().len()
            } else {
                1
            },
    {
        if rows_held(self.runs()) > 1 {
            let rows = self.selected_rows();
            self.lemma_several_cost(rows, rows.len() as int);
        } else {
            match region_of(self.motion.selecting(), self.layout.visible.count) {
                None => {},
                Some(draw) => {
                    self.lemma_a_region_costs(
                        self.selection_top(draw.row, draw.offset_rows as int),
                        draw.alpha,
                        self.pull(),
                        self.squish(draw.row),
                    );
                },
            }
            assert(layers_in(self.looks.selected) * 1 == layers_in(self.looks.selected))
                by (nonlinear_arith);
        }
    }

    proof fn lemma_a_region_costs(self, top: int, alpha: Micros, drive: Drive, squish: int)
        ensures
            self.region_part(top, alpha, drive, squish, Pass::Bleed).len() + self.region_part(
                top,
                alpha,
                drive,
                squish,
                Pass::Body,
            ).len() <= layers_in(self.looks.selected),
    {
        lemma_a_look_costs_its_layers(
            self.looks.selected,
            self.state_surface(top + self.layout.origin_y, squish),
            alpha,
            drive,
            None,
            self.looks.effects,
        );
    }

    proof fn lemma_several_cost(self, rows: Seq<u64>, count: int)
        requires
            0 <= count,
        ensures
            self.several(rows, count, Pass::Bleed).len() + self.several(
                rows,
                count,
                Pass::Body,
            ).len() <= layers_in(self.looks.selected) * count,
        decreases count,
    {
        let each = layers_in(self.looks.selected);
        if count > 0 {
            self.lemma_several_cost(rows, count - 1);
            self.lemma_a_region_costs(
                self.selection_top(rows[count - 1], 0),
                1_000_000,
                Drive::resting(),
                0,
            );
            assert(each * count == each * (count - 1) + each) by (nonlinear_arith);
        } else {
            assert(each * count == 0) by (nonlinear_arith)
                requires
                    count == 0,
            ;
        }
    }

    /// A selected row that is not on screen draws no fill.
    pub proof fn off_screen_regions_draw_no_fill(
        self,
        top: int,
        alpha: Micros,
        drive: Drive,
        squish: int,
    )
        requires
            top + self.page.height() <= 0 || top >= self.layout.height * 1_000_000,
        ensures
            self.region_part(top, alpha, drive, squish, Pass::Body).len() == 0,
            self.region_slab(top, alpha, drive, squish).len() == 0,
    {
    }

    /// With effects off the selection has no halo.
    pub proof fn no_halo_without_effects(
        self,
        top: int,
        alpha: Micros,
        drive: Drive,
        squish: int,
    )
        requires
            !self.looks.effects,
        ensures
            self.region_part(top, alpha, drive, squish, Pass::Bleed).len() == 0,
    {
        match self.looks.selected {
            None => {},
            Some(look) => {
                let layers = look.material.layers@;
                let surface = self.state_surface(top + self.layout.origin_y, squish);
                crate::material::compile::flat_mode_draws_flat(
                    layers,
                    Pass::Bleed,
                    surface,
                    alpha,
                    drive,
                    None,
                );
                crate::material::compile::halos_lie_under_bodies(
                    layers,
                    surface,
                    alpha,
                    drive,
                    None,
                    false,
                );
                let draws = pass_draws(layers, Pass::Bleed, surface, alpha, drive, None, false);
                if draws.len() > 0 {
                    assert(draws[0] is Glow);
                    assert(draws[0] is Rect || draws[0] is Stroke);
                }
            },
        }
    }
}

/// How many layers a look has.
pub open spec fn layers_in(look: Option<Look<'_>>) -> nat {
    match look {
        None => 0,
        Some(l) => l.material.layers@.len(),
    }
}

proof fn lemma_a_look_costs_its_layers(
    look: Option<Look<'_>>,
    surface: Surface,
    alpha: Micros,
    drive: Drive,
    substance: Option<Substance>,
    effects: bool,
)
    ensures
        look_draws(look, surface, alpha, drive, substance, effects).len() <= layers_in(look),
{
    if let Some(l) = look {
        crate::material::compile::a_material_draws_no_more_than_its_layers(
            l.material.layers@,
            surface,
            alpha,
            drive,
            substance,
            effects,
        );
    }
}

impl Frame {
    /// State the frame to a scene: every slab in the order it was painted, and the focus lamp.
    pub fn light<E, L>(&self, scene: &mut SceneBuilder<E, L>)
        requires
            forall|i: int|
                0 <= i < self.slabs@.len() ==> roomy((#[trigger] self.slabs@[i]).shape.x as int)
                    && roomy(self.slabs@[i].shape.y as int) && roomy(self.slabs@[i].shape.w as int)
                    && roomy(self.slabs@[i].shape.h as int),
        ensures
            final(scene).so_far().focus_light == self.lamp,
            final(scene).so_far().generation == old(scene).so_far().generation,
            final(scene).so_far().environment == old(scene).so_far().environment,
            final(scene).so_far().key_light == old(scene).so_far().key_light,
            final(scene).window() == old(scene).window(),
            final(scene).reach() == old(scene).reach(),
            final(scene).room() == old(scene).room(),
            final(scene).so_far().slabs@ == taken(
                old(scene).so_far().slabs@,
                self.slabs@,
                self.slabs@.len() as int,
                old(scene).window(),
                old(scene).reach(),
                old(scene).room() as int,
            ),
            final(scene).so_far().dropped == min_of(
                old(scene).so_far().dropped + turned_away(
                    old(scene).so_far().slabs@,
                    self.slabs@,
                    self.slabs@.len() as int,
                    old(scene).window(),
                    old(scene).reach(),
                    old(scene).room() as int,
                ),
                u64::MAX as int,
            ),
    {
        let mut i: usize = 0;
        while i < self.slabs.len()
            invariant
                i <= self.slabs@.len(),
                forall|j: int|
                    0 <= j < self.slabs@.len() ==> roomy((#[trigger] self.slabs@[j]).shape.x as int)
                        && roomy(self.slabs@[j].shape.y as int) && roomy(
                        self.slabs@[j].shape.w as int,
                    ) && roomy(self.slabs@[j].shape.h as int),
                scene.so_far().generation == old(scene).so_far().generation,
                scene.so_far().environment == old(scene).so_far().environment,
                scene.so_far().key_light == old(scene).so_far().key_light,
                scene.window() == old(scene).window(),
                scene.reach() == old(scene).reach(),
                scene.room() == old(scene).room(),
                scene.so_far().slabs@ == taken(
                    old(scene).so_far().slabs@,
                    self.slabs@,
                    i as int,
                    old(scene).window(),
                    old(scene).reach(),
                    old(scene).room() as int,
                ),
                scene.so_far().dropped == min_of(
                    old(scene).so_far().dropped + turned_away(
                        old(scene).so_far().slabs@,
                        self.slabs@,
                        i as int,
                        old(scene).window(),
                        old(scene).reach(),
                        old(scene).room() as int,
                    ),
                    u64::MAX as int,
                ),
            decreases self.slabs@.len() - i,
        {
            let slab: Slab = self.slabs[i];
            assert(roomy(self.slabs@[i as int].shape.x as int));
            scene.accept(slab);
            i = i + 1;
        }
        scene.set_focus_light(self.lamp);
    }
}

/// What a scene holds after the first `count` of `more` were offered to it.
pub open spec fn taken(
    slabs: Seq<Slab>,
    more: Seq<Slab>,
    count: int,
    viewport: (Micros, Micros),
    margin: int,
    room: int,
) -> Seq<Slab>
    decreases count,
{
    if count <= 0 {
        slabs
    } else {
        let before = taken(slabs, more, count - 1, viewport, margin, room);
        if crate::scene::reaches(more[count - 1].shape, viewport, margin) && before.len() < room {
            before.push(more[count - 1])
        } else {
            before
        }
    }
}

/// How many of the first `count` of `more` reach the widened viewport of a scene and find no room
/// in it.
pub open spec fn turned_away(
    slabs: Seq<Slab>,
    more: Seq<Slab>,
    count: int,
    viewport: (Micros, Micros),
    margin: int,
    room: int,
) -> nat
    decreases count,
{
    if count <= 0 {
        0
    } else {
        let before = taken(slabs, more, count - 1, viewport, margin, room);
        turned_away(slabs, more, count - 1, viewport, margin, room) + if crate::scene::reaches(
            more[count - 1].shape,
            viewport,
            margin,
        ) && before.len() >= room {
            1nat
        } else {
            0
        }
    }
}

impl<'a> FrameInput<'a> {
    proof fn lemma_contents_hold_a_row(self, count: int, slot: int)
        requires
            0 <= slot < count,
        ensures
            ({
                let at = self.contents(slot).len() as int;
                let part = self.content_part(slot);
                &&& at + part.len() <= self.contents(count).len()
                &&& forall|k: int|
                    0 <= k < part.len() ==> self.contents(count)[at + k] == #[trigger] part[k]
            }),
        decreases count,
    {
        let below = self.contents(count - 1);
        let now = self.contents(count);
        let part = self.content_part(slot);
        let at = self.contents(slot).len() as int;
        if slot < count - 1 {
            self.lemma_contents_hold_a_row(count - 1, slot);
            assert forall|k: int| 0 <= k < part.len() implies now[at + k] == #[trigger] part[k] by {
                assert(now[at + k] == below[at + k]);
            }
        }
    }

    /// Where the content of the row at `slot` starts: after every surface, the selection, the seam
    /// and the content of the rows before it.
    pub open spec fn content_start(self, slot: int) -> int {
        (self.surfaces(self.buf@.len() as int).len() + self.selection_part().len() + 1
            + self.contents(slot).len()) as int
    }

    /// Every row on screen is drawn from its own data, under its own name, in the states that its own
    /// index is in, and in its own place; and behind the seam there is nothing but the rows, one
    /// after the other.
    pub proof fn every_row_is_drawn_as_itself(self, slot: int)
        requires
            0 <= slot < self.buf@.len(),
        ensures
            ({
                let row = self.buf@[slot];
                let index = (self.layout.visible.first + slot) as u64;
                let drawn = row_content(
                    self.page,
                    row,
                    lossy(self.buf.name_of(row)),
                    shown_flags(row, self.interaction, index),
                    mark_of(self.interaction, index),
                    self.layout.top_of(slot),
                );
                let at = self.content_start(slot);
                &&& 0 < at
                &&& self.pieces()[self.content_start(0) - 1] is Seam
                &&& self.content_start(slot + 1) == at + drawn.len()
                &&& at + drawn.len() <= self.pieces().len()
                &&& slot == self.buf@.len() - 1 ==> at + drawn.len() == self.pieces().len()
                &&& forall|k: int|
                    0 <= k < drawn.len() ==> self.pieces()[at + k] == #[trigger] drawn[k]
            }),
    {
        let n = self.buf@.len() as int;
        self.lemma_contents_hold_a_row(n, slot);
        let before = (self.surfaces(n) + self.selection_part()).push(Piece::Seam);
        let drawn = self.content_part(slot);
        let at = self.content_start(slot);
        assert(self.contents(0).len() == 0);
        assert forall|k: int| 0 <= k < drawn.len() implies self.pieces()[at + k]
            == #[trigger] drawn[k] by {
            assert(self.pieces()[at + k] == self.contents(n)[at + k - before.len()]);
        }
    }

    /// A row on screen says its own name, in its own place, and if it is loaded when it was changed.
    pub proof fn every_row_says_its_own_name(self, slot: int)
        requires
            self.sane(),
            0 <= slot < self.buf@.len(),
        ensures
            ({
                let row = self.buf@[slot];
                let c = self.page.columns;
                let baseline = self.layout.top_of(slot) + self.page.baseline;
                &&& exists|i: int|
                    {
                        &&& self.content_start(slot) <= i < self.content_start(slot + 1)
                            <= self.pieces().len()
                        &&& (#[trigger] self.pieces()[i]) matches Piece::Text(line) && line.text
                            == lossy(self.buf.name_of(row)) && line.align == Align::Left(
                            c.name_at() as Micros,
                        ) && line.baseline == baseline
                    }
                &&& c.metadata && row.state != LoadState::Stub ==> exists|i: int|
                    {
                        &&& self.content_start(slot) <= i < self.content_start(slot + 1)
                            <= self.pieces().len()
                        &&& (#[trigger] self.pieces()[i]) matches Piece::Text(line) && is_stamp(
                            row.mtime as int,
                            line.text,
                        ) && line.align == Align::Left(c.modified_at() as Micros) && line.baseline
                            == baseline
                    }
                &&& c.metadata && row.state != LoadState::Stub && !row.flags.has(DIR_BIT)
                    ==> exists|i: int|
                    {
                        &&& self.content_start(slot) <= i < self.content_start(slot + 1)
                            <= self.pieces().len()
                        &&& (#[trigger] self.pieces()[i]) matches Piece::Text(line) && line.text
                            == size_text(row.size) && line.align == Align::Right(
                            (c.size_at() + c.size) as Micros,
                        ) && line.baseline == baseline
                    }
            }),
    {
        let row = self.buf@[slot];
        let index = (self.layout.visible.first + slot) as u64;
        let name = lossy(self.buf.name_of(row));
        let flags = shown_flags(row, self.interaction, index);
        let mark = mark_of(self.interaction, index);
        let top = self.layout.top_of(slot);
        self.layout.lemma_tops_are_bounded(slot);
        self.every_row_is_drawn_as_itself(slot);
        crate::row::list::a_row_shows_its_icon_and_its_name(
            self.page,
            row,
            name,
            flags,
            mark,
            top,
        );
        let drawn = row_content(self.page, row, name, flags, mark, top);
        let start = self.content_start(slot);
        let at = if flags.has(FOCUSED_BIT) {
            2int
        } else {
            0
        };
        assert(self.pieces()[start + (at + 1)] == drawn[at + 1]);
        if self.page.columns.metadata && row.state != LoadState::Stub {
            crate::row::list::a_loaded_row_says_what_is_its_own(
                self.page,
                row,
                name,
                flags,
                mark,
                top,
            );
            assert(self.pieces()[start + (drawn.len() - 2)] == drawn[drawn.len() - 2]);
            if !row.flags.has(DIR_BIT) {
                assert(self.pieces()[start + (at + 2)] == drawn[at + 2]);
            }
        }
    }

    proof fn lemma_surfaces_hold_a_row(self, count: int, slot: int)
        requires
            0 <= slot < count,
        ensures
            ({
                let at = self.surfaces(slot).len() as int;
                let part = self.surface_part(slot);
                &&& at + part.len() <= self.surfaces(count).len()
                &&& forall|k: int|
                    0 <= k < part.len() ==> self.surfaces(count)[at + k] == #[trigger] part[k]
            }),
        decreases count,
    {
        let below = self.surfaces(count - 1);
        let now = self.surfaces(count);
        let part = self.surface_part(slot);
        let at = self.surfaces(slot).len() as int;
        if slot < count - 1 {
            self.lemma_surfaces_hold_a_row(count - 1, slot);
            assert forall|k: int| 0 <= k < part.len() implies now[at + k] == #[trigger] part[k] by {
                assert(now[at + k] == below[at + k]);
            }
        }
    }

    /// Under every row lies its own body: the look of even rows or of odd ones by its own index, made of
    /// what the row is made of, over the whole width of the list and exactly as tall as the row. A
    /// row that is neither hovered nor pressed has nothing else under it.
    pub proof fn every_row_lies_on_its_own_body(self, slot: int, look: Option<Look<'a>>)
        requires
            0 <= slot < self.buf@.len(),
            (self.layout.visible.first + slot) as u64 % 2 == 0 ==> look == self.looks.body,
            (self.layout.visible.first + slot) as u64 % 2 == 1 ==> look == self.looks.body_alt,
        ensures
            ({
                let index = (self.layout.visible.first + slot) as u64;
                let body = look_draws(
                    look,
                    (Surface {
                        x: self.layout.origin_x,
                        y: self.layout.top_of(slot) as Micros,
                        w: (self.layout.width * 1_000_000) as Micros,
                        h: (self.layout.row_height * 1_000_000) as Micros,
                        radius: 0,
                        scale: self.page.scale,
                        shadow_x: self.looks.shadow.0,
                        shadow_y: self.looks.shadow.1,
                    }),
                    1_000_000,
                    Drive::resting(),
                    Some(self.substances@[slot]),
                    self.looks.effects,
                );
                let at = self.surfaces(slot).len() as int;
                let next = self.surfaces(slot + 1).len() as int;
                &&& at + body.len() <= next <= self.pieces().len()
                &&& self.pieces().subrange(at, at + body.len()) == as_pieces(body)
                &&& self.motion.hovering().presence(Some(index), 0) <= 0
                    && self.motion.pressing().presence(Some(index), 0) <= 0 ==> next == at
                    + body.len()
            }),
    {
        let n = self.buf@.len() as int;
        let index = (self.layout.visible.first + slot) as u64;
        self.lemma_surfaces_hold_a_row(n, slot);
        let part = self.surface_part(slot);
        let body = self.body_part(slot);
        let at = self.surfaces(slot).len() as int;
        let wash = self.wash_part(slot);
        assert(part == body + wash);
        assert(self.pieces().subrange(at, at + body.len()) =~= body) by {
            assert forall|k: int| 0 <= k < body.len() implies self.pieces()[at + k] == body[k] by {
                assert(part[k] == body[k]);
                assert(self.pieces()[at + k] == self.surfaces(n)[at + k]);
            }
        }
        assert(self.surfaces(slot + 1).len() == at + part.len());
        if self.motion.hovering().presence(Some(index), 0) <= 0
            && self.motion.pressing().presence(Some(index), 0) <= 0 {
            assert(wash.len() == 0);
        }
    }

    /// Over a row's body lies the wash, once as strong as the pointer is over that very row and once as
    /// strong as that very row is pressed, both on the state of the row.
    pub proof fn every_row_is_washed_by_its_own_state(self, slot: int, look: Look<'a>)
        requires
            0 <= slot < self.buf@.len(),
            self.looks.hover == Some(look),
        ensures
            ({
                let index = (self.layout.visible.first + slot) as u64;
                let state = self.state_surface(self.layout.top_of(slot), self.squish(index));
                let under = material_draws(
                    look.material.layers@,
                    state,
                    self.motion.hovering().presence(Some(index), 0) as Micros,
                    Drive::resting(),
                    None,
                    self.looks.effects,
                );
                let over = material_draws(
                    look.material.layers@,
                    state,
                    self.motion.pressing().presence(Some(index), 0) as Micros,
                    Drive::resting(),
                    None,
                    self.looks.effects,
                );
                let next = self.surfaces(slot + 1).len() as int;
                &&& self.surfaces(slot).len() + under.len() + over.len() <= next
                    <= self.pieces().len()
                &&& self.pieces().subrange(next - over.len(), next) == as_pieces(over)
                &&& self.pieces().subrange(next - over.len() - under.len(), next - over.len())
                    == as_pieces(under)
            }),
    {
        let n = self.buf@.len() as int;
        let index = (self.layout.visible.first + slot) as u64;
        self.lemma_surfaces_hold_a_row(n, slot);
        let part = self.surface_part(slot);
        let body = self.body_part(slot);
        let at = self.surfaces(slot).len() as int;
        let state = self.state_surface(self.layout.top_of(slot), self.squish(index));
        let under = as_pieces(
            look_draws(
                self.looks.hover,
                state,
                self.motion.hovering().presence(Some(index), 0) as Micros,
                Drive::resting(),
                None,
                self.looks.effects,
            ),
        );
        let over = as_pieces(
            look_draws(
                self.looks.hover,
                state,
                self.motion.pressing().presence(Some(index), 0) as Micros,
                Drive::resting(),
                None,
                self.looks.effects,
            ),
        );
        let next = self.surfaces(slot + 1).len() as int;
        assert(part == body + (under + over));
        assert(next == at + part.len());
        assert forall|k: int| 0 <= k < part.len() implies self.pieces()[at + k] == #[trigger] part[k] by {
            assert(self.pieces()[at + k] == self.surfaces(n)[at + k]);
        }
        assert(self.pieces().subrange(next - over.len(), next) =~= over) by {
            assert forall|k: int| 0 <= k < over.len() implies self.pieces()[next - over.len() + k]
                == over[k] by {
                assert(part[body.len() + under.len() + k] == over[k]);
            }
        }
        assert(self.pieces().subrange(next - over.len() - under.len(), next - over.len())
            =~= under) by {
            assert forall|k: int| 0 <= k < under.len() implies self.pieces()[next - over.len()
                - under.len() + k] == under[k] by {
                assert(part[body.len() + k] == under[k]);
            }
        }
    }

    /// A selected row's region is where the row is, and one that is displaced by a number of rows is
    /// exactly that many rows off.
    pub proof fn a_selection_lies_on_its_row(self, row: u64, offset_rows: int)
        requires
            self.layout.columns <= 1,
            self.layout.visible.first <= row,
        ensures
            self.selection_top(row, offset_rows * 1_000_000) + self.layout.origin_y
                == self.layout.top_of(row - self.layout.visible.first + offset_rows),
    {
        let slot = row - self.layout.visible.first;
        let h = self.layout.row_height as int;
        assert((slot + offset_rows) / 1 == slot + offset_rows);
        assert((slot + offset_rows) * h * 1_000_000 == slot * h * 1_000_000 + offset_rows * 1_000_000
            * h) by (nonlinear_arith);
    }

    proof fn lemma_several_holds_a_row(self, rows: Seq<u64>, count: int, k: int, pass: Pass)
        requires
            0 <= k < count <= rows.len(),
        ensures
            ({
                let at = self.several(rows, k, pass).len() as int;
                let part = self.region_part(
                    self.selection_top(rows[k], 0),
                    1_000_000,
                    Drive::resting(),
                    0,
                    pass,
                );
                &&& at + part.len() <= self.several(rows, count, pass).len()
                &&& forall|i: int|
                    0 <= i < part.len() ==> self.several(rows, count, pass)[at + i]
                        == #[trigger] part[i]
            }),
        decreases count,
    {
        if k < count - 1 {
            self.lemma_several_holds_a_row(rows, count - 1, k, pass);
            let below = self.several(rows, count - 1, pass);
            let now = self.several(rows, count, pass);
            let at = self.several(rows, k, pass).len() as int;
            let part = self.region_part(
                self.selection_top(rows[k], 0),
                1_000_000,
                Drive::resting(),
                0,
                pass,
            );
            assert forall|i: int| 0 <= i < part.len() implies now[at + i] == #[trigger] part[i] by {
                assert(now[at + i] == below[at + i]);
            }
        }
    }

    /// Of several selected rows each that is on screen is painted with the look of a selection, wholly
    /// opaque and at rest, on the state of that very row.
    pub proof fn every_selected_row_is_painted(self, row: u64, pass: Pass)
        requires
            self.layout.columns <= 1,
            rows_held(self.runs()) > 1,
            self.looks.selected is Some,
            self.selected_rows().contains(row),
            self.layout.visible.first <= row,
            self.page.row_height >= 1,
            0 <= self.layout.top_of(row - self.layout.visible.first) - self.layout.origin_y
                < self.layout.height * 1_000_000,
            0 <= furthest_overhang(
                self.looks.selected->0.material.layers@,
                self.page.scale as int,
                (Drive {
                    intensity: 1_000_000,
                    phase: turn_of(Reading::Finite(Drive::resting().phase)) as Micros,
                    ripple: clamped(Drive::resting().ripple as int, -1_000_000, 1_000_000) as Micros,
                }),
            ),
        ensures
            ({
                let painted = pass_draws(
                    self.looks.selected->0.material.layers@,
                    pass,
                    self.state_surface(self.layout.top_of(row - self.layout.visible.first), 0),
                    1_000_000,
                    Drive::resting(),
                    None,
                    self.looks.effects,
                );
                exists|at: int|
                    #![trigger self.selection_part().subrange(at, at + painted.len())]
                    0 <= at <= at + painted.len() <= self.selection_part().len() && forall|i: int|
                        0 <= i < painted.len() ==> self.selection_part()[at + i] == Piece::<
                            Seq<char>,
                        >::Painted(#[trigger] painted[i])
            }),
    {
        let rows = self.selected_rows();
        let n = rows.len() as int;
        let k = choose|k: int| 0 <= k < rows.len() && rows[k] == row;
        self.a_selection_lies_on_its_row(row, 0);
        self.lemma_several_holds_a_row(rows, n, k, pass);
        let halos = self.several(rows, n, Pass::Bleed);
        let top = self.selection_top(row, 0);
        let part = self.region_part(top, 1_000_000, Drive::resting(), 0, pass);
        let painted = pass_draws(
            self.looks.selected->0.material.layers@,
            pass,
            self.state_surface(self.layout.top_of(row - self.layout.visible.first), 0),
            1_000_000,
            Drive::resting(),
            None,
            self.looks.effects,
        );
        assert(self.reaches_surface(top, Drive::resting(), pass));
        assert(part == as_pieces(painted));
        let within = self.several(rows, k, pass).len() as int;
        let at = match pass {
            Pass::Bleed => within,
            Pass::Body => halos.len() + within,
        };
        assert forall|i: int| 0 <= i < painted.len() implies self.selection_part()[at + i] == Piece::<
            Seq<char>,
        >::Painted(#[trigger] painted[i]) by {
            assert(part[i] == Piece::<Seq<char>>::Painted(painted[i]));
            assert(self.several(rows, n, pass)[within + i] == part[i]);
        }
        let whole = self.selection_part().subrange(at, at + painted.len());
    }

    /// Where rows are not lit the lighting pass sees nothing of them. Where they are it sees of every
    /// row what it sees of the row's own look on the whole of the row, and how much the light may
    /// change it.
    pub proof fn the_light_sees_every_row(self, slot: int, look: Look<'a>)
        requires
            0 <= slot < self.buf@.len(),
            (self.layout.visible.first + slot) as u64 % 2 == 0 ==> Some(look) == self.looks.body,
            (self.layout.visible.first + slot) as u64 % 2 == 1 ==> Some(look)
                == self.looks.body_alt,
        ensures
            !self.page.lit ==> self.row_slabs(self.buf@.len() as int).len() == 0,
            self.page.lit ==> {
                let seen = slab_of(
                    look.material.layers@,
                    look.material.elevation as int,
                    self.row_surface(self.layout.top_of(slot)),
                );
                let at = self.row_slabs(slot).len() as int;
                &&& seen is None ==> self.row_slabs(slot + 1).len() == at
                &&& seen is Some ==> {
                    let found = self.slabs()[at];
                    &&& self.row_slabs(slot + 1).len() == at + 1
                    &&& at < self.slabs().len()
                    &&& found.shape == seen->0.shape
                    &&& found.elevation == seen->0.elevation
                    &&& found.thickness == seen->0.thickness
                    &&& found.albedo == seen->0.albedo
                    &&& found.roughness == seen->0.roughness
                    &&& found.metalness == seen->0.metalness
                    &&& found.emission == seen->0.emission
                    &&& found.emission_strength == seen->0.emission_strength
                    &&& found.attenuation_floor == look.allowance.attenuation_floor
                    &&& found.addition_max == look.allowance.addition_max
                }
            },
    {
        if self.page.lit {
            let n = self.buf@.len() as int;
            self.lemma_row_slabs_grow(n, slot);
            let at = self.row_slabs(slot).len() as int;
            let next = self.row_slabs(slot + 1);
            assert(next == self.row_slabs(slot) + look_slab(
                Some(look),
                self.row_surface(self.layout.top_of(slot)),
            ));
            if next.len() > at {
                assert(self.slabs()[at] == self.row_slabs(n)[at]);
                assert(self.row_slabs(n)[at] == next[at]);
            }
        }
    }

    proof fn lemma_row_slabs_grow(self, count: int, slot: int)
        requires
            0 <= slot < count,
            self.page.lit,
        ensures
            ({
                let at = self.row_slabs(slot).len() as int;
                let next = self.row_slabs(slot + 1);
                &&& next.len() <= self.row_slabs(count).len()
                &&& forall|i: int|
                    0 <= i < next.len() ==> self.row_slabs(count)[i] == #[trigger] next[i]
            }),
        decreases count,
    {
        if slot < count - 1 {
            self.lemma_row_slabs_grow(count - 1, slot);
            let next = self.row_slabs(slot + 1);
            assert forall|i: int| 0 <= i < next.len() implies self.row_slabs(count)[i]
                == #[trigger] next[i] by {
                assert(self.row_slabs(count)[i] == self.row_slabs(count - 1)[i]);
            }
        }
    }

    /// The lamp over a row that has focus and does not move is on the rectangle that its focus ring is
    /// drawn around, at full gain.
    pub proof fn the_lamp_is_where_the_ring_is(self, lamp: Option<FocusLamp>, row: u64)
        requires
            self.has_lamp(lamp),
            self.layout.columns <= 1,
            self.layout.visible.first <= row,
            self.motion.focusing().origin() == Some(row),
            self.motion.focusing().target() == Some(row),
        ensures
            lamp matches Some(found) && {
                let state = self.page.state_at(
                    self.layout.top_of(row - self.layout.visible.first),
                );
                &&& found.rect.x == state.x
                &&& found.rect.y == state.y
                &&& found.rect.w == state.w
                &&& found.rect.h == state.h
                &&& found.share == clamped(self.looks.focus_light.share as int, 0, 1_000_000)
                &&& found.ambient == clamped(self.looks.focus_light.ambient as int, 0, 1_000_000)
                &&& found.size == self.looks.focus_light.size_deg
                &&& found.height == times(
                    self.looks.focus_light.height as int,
                    self.page.scale as int,
                )
            },
    {
        self.a_selection_lies_on_its_row(row, 0);
        crate::units::times_one(clamped(self.looks.focus_light.share as int, 0, 1_000_000));
        crate::units::times_one(clamped(self.looks.focus_light.ambient as int, 0, 1_000_000));
        assert((1_000_000 - crate::motion::eased_along(self.motion.focusing())) * (row - row) == 0)
            by (nonlinear_arith);
    }

    /// A row gives way as far as it is pressed, up to the smallest step of space there is, and one that
    /// nothing presses does not.
    pub proof fn a_row_gives_way_to_its_own_press(self, index: u64)
        requires
            self.page.tokens.sane(),
        ensures
            self.motion.pressing().origin() != Some(index) && self.motion.pressing().target() != Some(
                index,
            ) ==> self.squish(index) == 0,
            self.motion.pressing().ticket() is None && self.motion.pressing().target() == Some(index)
                ==> self.squish(index) == self.page.tokens.space_xs,
            0 <= self.squish(index) <= self.page.tokens.space_xs,
    {
        let most = self.page.tokens.space_xs as int;
        let pressed = self.motion.pressing().presence(Some(index), 0);
        crate::units::times_is_bounded(most, pressed, 1);
        crate::units::times_one(most);
        assert(times(most, 0) == 0);
    }

    /// A selection that cannot be seen throws no light back: where nothing is lit, and where it has
    /// faded out. One that is seen does so from where it is drawn.
    pub proof fn only_a_selection_that_is_seen_is_lit(
        self,
        top: int,
        alpha: Micros,
        drive: Drive,
        squish: int,
    )
        ensures
            !self.page.lit || alpha <= 0 ==> self.region_slab(top, alpha, drive, squish).len() == 0,
            self.page.lit && alpha > 0 && top + self.page.height() > 0 && top < self.layout.height
                * 1_000_000 ==> self.region_slab(top, alpha, drive, squish) == look_slab(
                self.looks.selected,
                self.state_surface(top + self.layout.origin_y, squish),
            ),
    {
    }

    /// Where several rows are selected, the light sees each of those on screen where it is, in their
    /// order.
    pub proof fn the_light_sees_every_selected_row(self, rows: Seq<u64>, count: int, i: int)
        requires
            0 <= i < count <= rows.len(),
        ensures
            ({
                let all = self.several_slabs(rows, count);
                let own = self.region_slab(
                    self.selection_top(rows[i], 0),
                    1_000_000,
                    Drive::resting(),
                    0,
                );
                let start = self.several_slabs(rows, i).len();
                &&& start + own.len() <= all.len()
                &&& all.subrange(start as int, (start + own.len()) as int) == own
            }),
        decreases count,
    {
        let all = self.several_slabs(rows, count);
        let before = self.several_slabs(rows, count - 1);
        let last = self.region_slab(
            self.selection_top(rows[count - 1], 0),
            1_000_000,
            Drive::resting(),
            0,
        );
        assert(all == before + last);
        let own = self.region_slab(self.selection_top(rows[i], 0), 1_000_000, Drive::resting(), 0);
        let start = self.several_slabs(rows, i).len() as int;
        let end = start + own.len();
        if i < count - 1 {
            self.the_light_sees_every_selected_row(rows, count - 1, i);
            assert(all.subrange(start, end) =~= before.subrange(start, end));
        } else {
            assert(all.subrange(start, end) =~= own);
        }
    }

    /// One selected row is drawn where the selection has got to, as opaque as it is there, pulled by
    /// what the selection does and given way to a press on that row, halos first; the light sees it in
    /// the same place.
    pub proof fn a_lone_selection_is_drawn_where_it_is(self, row: u64, offset_rows: Micros, alpha: Micros)
        requires
            rows_held(self.runs()) <= 1,
            region_of(self.motion.selecting(), self.layout.visible.count) == Some(
                crate::motion::SelectionDraw { row, offset_rows, alpha },
            ),
        ensures
            ({
                let top = self.selection_top(row, offset_rows as int);
                let halos = self.region_part(
                    top,
                    alpha,
                    self.motion.driving(self.looks.ripple as int),
                    self.squish(row),
                    Pass::Bleed,
                );
                let fills = self.region_part(
                    top,
                    alpha,
                    self.motion.driving(self.looks.ripple as int),
                    self.squish(row),
                    Pass::Body,
                );
                &&& self.selection_part() == halos + fills
                &&& self.selection_slabs() == self.region_slab(
                    top,
                    alpha,
                    self.motion.driving(self.looks.ripple as int),
                    self.squish(row),
                )
            }),
    {
    }

    /// Where more than one row is selected, each of those on screen is in the list that is drawn, the
    /// list holds no other, and the drawing is of the halos of all of them and then of all the fills.
    pub proof fn all_selected_rows_on_screen_are_drawn(self, row: u64)
        requires
            rows_held(self.runs()) > 1,
            self.layout.visible.first + self.layout.visible.count <= u64::MAX + 1,
        ensures
            self.selected_rows().contains(row) <==> self.layout.visible.first <= row
                < self.layout.visible.first + self.layout.visible.count && (
            self.interaction.selection matches Some(selection) && crate::selection::holds(
                selection@,
                row,
            )),
            self.selection_part() == self.several(
                self.selected_rows(),
                self.selected_rows().len() as int,
                Pass::Bleed,
            ) + self.several(
                self.selected_rows(),
                self.selected_rows().len() as int,
                Pass::Body,
            ),
            self.selection_slabs() == self.several_slabs(
                self.selected_rows(),
                self.selected_rows().len() as int,
            ),
    {
        crate::selection::a_listing_is_of_the_selected_rows(
            self.runs(),
            self.layout.visible.first as int,
            self.layout.visible.first + self.layout.visible.count,
        );
        assert(crate::selection::holds(self.runs(), row) == (exists|i: int|
            0 <= i < self.runs().len() && #[trigger] self.runs()[i].first <= row
                <= self.runs()[i].last));
    }
}

/// Surfaces are taken in the order they are offered in for as long as there is room, those in reach and
/// no others; what was there stays in front of them. Every one in reach that is not taken is counted,
/// and none is where there was room for all.
pub proof fn what_is_in_reach_is_taken_or_counted(
    slabs: Seq<Slab>,
    more: Seq<Slab>,
    count: int,
    viewport: (Micros, Micros),
    margin: int,
    room: int,
)
    requires
        0 <= count <= more.len(),
        slabs.len() <= room,
    ensures
        ({
            let holds = taken(slabs, more, count, viewport, margin, room);
            let turned = turned_away(slabs, more, count, viewport, margin, room);
            let wanted = more.take(count).filter(
                |slab: Slab| crate::scene::reaches(slab.shape, viewport, margin),
            );
            &&& holds.len() + turned == slabs.len() + wanted.len()
            &&& holds.len() <= room
            &&& turned > 0 ==> holds.len() == room
            &&& holds == slabs + wanted.take(holds.len() - slabs.len())
        }),
    decreases count,
{
    let near = |slab: Slab| crate::scene::reaches(slab.shape, viewport, margin);
    reveal(Seq::filter);
    if count > 0 {
        what_is_in_reach_is_taken_or_counted(slabs, more, count - 1, viewport, margin, room);
        let before = taken(slabs, more, count - 1, viewport, margin, room);
        let holds = taken(slabs, more, count, viewport, margin, room);
        let was = more.take(count - 1).filter(near);
        let wanted = more.take(count).filter(near);
        let last = more[count - 1];
        assert(more.take(count).drop_last() =~= more.take(count - 1));
        assert(more.take(count).last() == last);
        assert(wanted == if near(last) {
            was.push(last)
        } else {
            was
        });
        assert(holds =~= slabs + wanted.take(holds.len() - slabs.len()));
    } else {
        assert(more.take(0).filter(near).len() == 0);
        assert(slabs =~= slabs + more.take(0).filter(near).take(0));
    }
}

} // verus!
