//! What draws rows keeps from one frame to the next, and from one line of text to the next.

use crate::material::{modest, Substance};
use crate::motion::InteractionMotion;
use crate::recycler::ViewportLayout;
use crate::row::atlas::{
    draw_glyph, glyph_quad, is_pen, known, quad_at, round_px, snapped_px,
    the_nearest_pixel_is_taken, AtlasEntry, IconCache, IconKey, IconPx, IconShape, Quad,
};
use crate::row::frame::{Frame, FrameInput, Looks};
use crate::row::geometry::{
    columns_of, region_at, row_text_fit, sound_scale, text_fit, Columns, GridMetrics, RowTextFit,
    RowTokens, StateRegion,
};
use crate::row::grid::GridInput;
use crate::row::ink::{Emblem, IconKind, Tint};
use crate::row::list::Page;
use crate::row::piece::{all_seen, Align, Face, Piece, TextPiece};
use crate::row::Interaction;
use crate::row_source::RowBuf;
use crate::units::{fits, larger, max_of, product, times, Micros, MICRO};
use vstd::prelude::*;

verus! {

/// A face of the font database.
#[derive(Clone, Copy, PartialEq, Eq, Debug, Structural)]
pub struct FontId(pub u32);

/// What a face says about lines of text at a size.
#[derive(Clone, Copy, PartialEq, Eq, Debug, Structural)]
pub struct FontMetrics {
    /// From the top of a line down to its baseline.
    pub ascent: Micros,
    /// From its baseline down to its bottom.
    pub descent: Micros,
    /// How tall its small letters are.
    pub x_height: Micros,
    /// From one baseline to the next.
    pub line_height: Micros,
}

/// A type role at one frame's scale: the face that has its weight, its size, and where a line of
/// it goes.
#[derive(Clone, Copy, PartialEq, Eq, Debug, Structural)]
pub struct ResolvedRole {
    /// Its size in physical pixels.
    pub size: Micros,
    /// Its face.
    pub font: FontId,
    /// From the top of a line down to its baseline.
    pub ascent: Micros,
    /// From one baseline to the next.
    pub line_height: Micros,
}

/// A glyph that waits for the atlas. `K` is what the atlas knows glyphs by.
#[derive(Clone, Copy, Debug)]
pub struct DeferredGlyph<K> {
    /// The glyph.
    pub key: K,
    /// Its pen, on a whole pixel.
    pub integer_x: Micros,
    /// Its baseline, on a whole pixel.
    pub baseline: Micros,
    /// Its colour.
    pub tint: Tint,
}

/// The face that was last given for a weight.
pub open spec fn face_at(faces: Seq<(u16, FontId)>, weight: u16, otherwise: FontId) -> FontId
    decreases faces.len(),
{
    if faces.len() == 0 {
        otherwise
    } else if faces.last().0 == weight {
        faces.last().1
    } else {
        face_at(faces.drop_last(), weight, otherwise)
    }
}

/// The face that the weight of face number `i` resolves to.
pub open spec fn face_of(faces: Seq<(u16, FontId)>, i: int) -> FontId {
    face_at(faces, faces[i].0, faces[i].1)
}

/// Whether a weight before number `i` resolves to the same face.
pub open spec fn is_repeated(faces: Seq<(u16, FontId)>, i: int) -> bool {
    exists|j: int| 0 <= j < i && #[trigger] face_of(faces, j) == face_of(faces, i)
}

/// Of the weights of the first `count` faces those that resolve to distinct faces, in the order they
/// were given: two weights that fall back to one face are one step of the type scale, not two.
pub open spec fn weights_of(faces: Seq<(u16, FontId)>, count: int) -> Seq<u16>
    decreases count,
{
    if count <= 0 {
        Seq::empty()
    } else {
        let before = weights_of(faces, count - 1);
        if is_repeated(faces, count - 1) {
            before
        } else {
            before.push(faces[count - 1].0)
        }
    }
}

/// Whether the weights resolve to one face and no more, so that the type scale is carried by size
/// alone.
pub open spec fn is_single_face(faces: Seq<(u16, FontId)>) -> bool {
    forall|i: int, j: int|
        0 <= i < faces.len() && 0 <= j < faces.len() ==> #[trigger] face_of(faces, i)
            == #[trigger] face_of(faces, j)
}

/// The weights that a type scale covers are one or none exactly where they resolve to a single face.
pub proof fn one_face_is_one_weight(faces: Seq<(u16, FontId)>)
    ensures
        weights_of(faces, faces.len() as int).len() <= 1 <==> is_single_face(faces),
        faces.len() > 0 ==> weights_of(faces, faces.len() as int).len() > 0,
{
    lemma_coverage(faces, faces.len() as int);
    let n = faces.len() as int;
    if weights_of(faces, n).len() <= 1 {
        assert forall|i: int, j: int| 0 <= i < n && 0 <= j < n implies #[trigger] face_of(faces, i)
            == #[trigger] face_of(faces, j) by {
            assert(face_of(faces, i) == face_of(faces, 0));
            assert(face_of(faces, j) == face_of(faces, 0));
        }
    } else if is_single_face(faces) {
        assert(forall|i: int| 0 <= i < n ==> #[trigger] face_of(faces, i) == face_of(faces, 0));
    }
}

proof fn lemma_coverage(faces: Seq<(u16, FontId)>, count: int)
    requires
        0 <= count <= faces.len(),
    ensures
        count > 0 ==> weights_of(faces, count).len() > 0,
        weights_of(faces, count).len() <= 1 ==> forall|i: int|
            0 <= i < count ==> #[trigger] face_of(faces, i) == face_of(faces, 0),
        (forall|i: int| 0 <= i < count ==> #[trigger] face_of(faces, i) == face_of(faces, 0))
            ==> weights_of(faces, count).len() <= 1,
    decreases count,
{
    if count > 0 {
        lemma_coverage(faces, count - 1);
        if count > 1 {
            if face_of(faces, count - 1) == face_of(faces, 0) {
                assert(is_repeated(faces, count - 1));
            }
        }
    }
}

/// The face that was last given for a weight.
fn look_up(faces: &Vec<(u16, FontId)>, weight: u16, otherwise: FontId) -> (result: FontId)
    ensures
        result == face_at(faces@, weight, otherwise),
{
    let mut i: usize = faces.len();
    assert(faces@.take(i as int) =~= faces@);
    while i > 0
        invariant
            i <= faces@.len(),
            face_at(faces@, weight, otherwise) == face_at(
                faces@.take(i as int),
                weight,
                otherwise,
            ),
        decreases i,
    {
        assert(faces@.take(i as int).drop_last() =~= faces@.take(i - 1));
        assert(faces@.take(i as int).last() == faces@[i - 1]);
        i = i - 1;
        if faces[i].0 == weight {
            return faces[i].1;
        }
    }
    otherwise
}

/// Whether a weight before number `i` resolves to the same face.
fn repeats(faces: &Vec<(u16, FontId)>, i: usize) -> (result: bool)
    requires
        i < faces@.len(),
    ensures
        result == is_repeated(faces@, i as int),
{
    let own: FontId = look_up(faces, faces[i].0, faces[i].1);
    let mut j: usize = 0;
    while j < i
        invariant
            j <= i < faces@.len(),
            own == face_of(faces@, i as int),
            forall|k: int| 0 <= k < j ==> #[trigger] face_of(faces@, k) != own,
        decreases i - j,
    {
        let other: FontId = look_up(faces, faces[j].0, faces[j].1);
        assert(other == face_of(faces@, j as int));
        if other == own {
            return true;
        }
        j = j + 1;
    }
    false
}

/// Draws rows. `K` is what the atlas knows glyphs by.
#[derive(Debug)]
pub struct ListRenderer<K> {
    tokens: RowTokens,
    ui_font: FontId,
    faces: Vec<(u16, FontId)>,
    weight_coverage: Vec<u16>,
    /// Glyphs that the atlas could not supply this frame.
    glyphs_dropped: u32,
    /// Icons that the atlas could not supply this frame.
    icons_dropped: u32,
    /// Where the last frame's rows had their text, or none where their face has no metrics.
    last_text_fit: Option<RowTextFit>,
    icons: IconCache,
    deferred: Vec<DeferredGlyph<K>>,
}

/// One more, up to the largest number there is.
pub open spec fn counted(n: u32) -> u32 {
    if n < u32::MAX {
        (n + 1) as u32
    } else {
        n
    }
}

/// One more, up to the largest number there is.
fn one_more(n: u32) -> (result: u32)
    ensures
        result == counted(n),
{
    if n < u32::MAX {
        n + 1
    } else {
        n
    }
}

/// What waiting glyphs come to, once the atlas has spent its bound: those it has by then.
pub open spec fn flushed<K>(
    parked: Seq<DeferredGlyph<K>>,
    entries: Seq<Option<AtlasEntry>>,
    count: int,
) -> Seq<Quad>
    decreases count,
{
    if count <= 0 {
        Seq::empty()
    } else {
        let before = flushed(parked, entries, count - 1);
        let glyph = parked[count - 1];
        match entries[count - 1] {
            None => before,
            Some(entry) => match glyph_quad(
                entry,
                glyph.integer_x as int,
                glyph.baseline as int,
                glyph.tint,
            ) {
                None => before,
                Some(quad) => before.push(quad),
            },
        }
    }
}

/// The count of glyphs dropped, after those among the first `count` that the atlas does not have.
pub open spec fn dropped_after(entries: Seq<Option<AtlasEntry>>, count: int, dropped: u32) -> u32
    decreases count,
{
    if count <= 0 {
        dropped
    } else if entries[count - 1] is None {
        counted(dropped_after(entries, count - 1, dropped))
    } else {
        dropped_after(entries, count - 1, dropped)
    }
}

/// The page of a list: its columns and its state region, and its baseline, which is seven tenths
/// down a row whose face has no metrics.
pub open spec fn page_of(
    tokens: RowTokens,
    layout: ViewportLayout,
    metrics: Option<FontMetrics>,
    metadata: bool,
    lit: bool,
) -> Page {
    let columns = columns_of(
        layout.origin_x,
        layout.width * 1_000_000,
        layout.scale as int,
        tokens,
        metadata,
    );
    Page {
        tokens,
        columns,
        region: region_at(tokens, columns, layout),
        scale: sound_scale(layout.scale as int) as Micros,
        row_height: layout.row_height,
        baseline: match metrics {
            Some(m) => text_fit(
                layout.row_height,
                m.ascent as int,
                m.descent as int,
                m.x_height as int,
            ).baseline,
            None => times(layout.row_height * 1_000_000, 700_000) as Micros,
        },
        lit,
    }
}

impl<K> ListRenderer<K> {
    /// What the design system says about rows.
    pub closed spec fn row_tokens(self) -> RowTokens {
        self.tokens
    }

    /// The face that is used where no other is.
    pub closed spec fn fallback(self) -> FontId {
        self.ui_font
    }

    /// The faces that were resolved, by weight.
    pub closed spec fn resolved(self) -> Seq<(u16, FontId)> {
        self.faces@
    }

    /// This frame's icons.
    pub closed spec fn sheet(self) -> IconCache {
        self.icons
    }

    /// How many glyphs the atlas could not supply this frame.
    pub closed spec fn glyph_drops(self) -> u32 {
        self.glyphs_dropped
    }

    /// How many icons the atlas could not supply this frame.
    pub closed spec fn icon_drops(self) -> u32 {
        self.icons_dropped
    }

    /// Where the last frame's rows had their text.
    pub closed spec fn fit(self) -> Option<RowTextFit> {
        self.last_text_fit
    }

    /// The glyphs that wait for the atlas.
    pub closed spec fn parked(self) -> Seq<DeferredGlyph<K>> {
        self.deferred@
    }

    #[verifier::type_invariant]
    spec fn well_formed(self) -> bool {
        &&& self.tokens.sane()
        &&& self.weight_coverage@ == weights_of(self.faces@, self.faces@.len() as int)
        &&& forall|i: int|
            0 <= i < self.deferred@.len() ==> is_pen((#[trigger] self.deferred@[i]).integer_x as int)
                && is_pen(self.deferred@[i].baseline as int)
    }

    /// A renderer. `faces` is what the font database has for the weight of each type role.
    pub fn new(tokens: RowTokens, ui_font: FontId, faces: Vec<(u16, FontId)>) -> (result: Self)
        requires
            tokens.sane(),
        ensures
            result.row_tokens() == tokens,
            result.fallback() == ui_font,
            result.resolved() == faces@,
            result.parked().len() == 0,
            result.glyph_drops() == 0,
            result.icon_drops() == 0,
            result.fit() is None,
            result.sheet().is_fresh((IconPx { icon: 0, emblem: None })),
    {
        let mut weights: Vec<u16> = Vec::new();
        let mut i: usize = 0;
        while i < faces.len()
            invariant
                i <= faces@.len(),
                weights@ == weights_of(faces@, i as int),
            decreases faces@.len() - i,
        {
            if !repeats(&faces, i) {
                weights.push(faces[i].0);
            }
            i = i + 1;
        }
        ListRenderer {
            tokens,
            ui_font,
            faces,
            weight_coverage: weights,
            glyphs_dropped: 0,
            icons_dropped: 0,
            last_text_fit: None,
            icons: IconCache::for_px(0, None),
            deferred: Vec::new(),
        }
    }

    /// How many glyphs the atlas could not supply this frame.
    pub fn glyphs_dropped(&self) -> (result: u32)
        ensures
            result == self.glyph_drops(),
    {
        self.glyphs_dropped
    }

    /// How many icons the atlas could not supply this frame.
    pub fn icons_dropped(&self) -> (result: u32)
        ensures
            result == self.icon_drops(),
    {
        self.icons_dropped
    }

    /// Where the last frame's rows had their text, or none where their face has no metrics.
    pub fn last_text_fit(&self) -> (result: Option<RowTextFit>)
        ensures
            result == self.fit(),
    {
        self.last_text_fit
    }

    /// Whether the weights resolve to one face, so that the type scale is carried by size alone.
    pub fn has_single_face(&self) -> (result: bool)
        ensures
            result == is_single_face(self.resolved()),
    {
        proof {
            use_type_invariant(self);
            one_face_is_one_weight(self.faces@);
        }
        self.weight_coverage.len() <= 1
    }

    /// The face for a weight, or the fallback.
    pub fn face_for(&self, weight: u16) -> (result: FontId)
        ensures
            result == face_at(self.resolved(), weight, self.fallback()),
    {
        look_up(&self.faces, weight, self.ui_font)
    }

    /// The weights that the type scale resolved to distinct faces: a single one where they all fall
    /// back to one face.
    pub fn weight_coverage(&self) -> (result: &Vec<u16>)
        ensures
            result@ == weights_of(self.resolved(), self.resolved().len() as int),
    {
        proof {
            use_type_invariant(self);
        }
        &self.weight_coverage
    }

    /// A type role of `weight` at `size`. A face without metrics still lays out somewhere, with
    /// the proportions of a common face.
    pub fn resolve_role(&self, weight: u16, size: Micros, metrics: Option<FontMetrics>) -> (result:
        ResolvedRole)
        requires
            fits(size as int),
        ensures
            result == resolved_at(
                face_at(self.resolved(), weight, self.fallback()),
                size,
                metrics,
            ),
    {
        resolve(self.face_for(weight), size, metrics)
    }

    /// A fixed-width face at an explicit size, which is at least one pixel.
    pub fn resolve_mono(&self, font: FontId, px: Micros, metrics: Option<FontMetrics>) -> (result:
        ResolvedRole)
        requires
            fits(px as int),
        ensures
            result == resolved_at(font, max_of(px as int, 1_000_000) as Micros, metrics),
    {
        resolve(font, larger(px, MICRO), metrics)
    }

    /// Start a frame: nothing dropped, and no icon asked for yet. Drawing a list or a grid starts
    /// one.
    pub fn begin_frame(&mut self, icons: IconPx)
        ensures
            starts_frame(*old(self), *final(self), icons),
            final(self).fit() == old(self).fit(),
    {
        proof {
            use_type_invariant(&*self);
        }
        let icons: IconCache = IconCache::for_px(icons.icon, icons.emblem);
        self.glyphs_dropped = 0;
        self.icons_dropped = 0;
        self.icons = icons;
    }

    /// The page of a list.
    fn page(
        &self,
        layout: &ViewportLayout,
        metrics: Option<FontMetrics>,
        metadata: bool,
        lit: bool,
    ) -> (result: (Page, Option<RowTextFit>))
        requires
            layout.sane(),
            modest(layout.scale as int),
            metrics_are_sane(metrics),
        ensures
            result.0 == page_of(self.row_tokens(), *layout, metrics, metadata, lit),
            result.0.sane(),
            result.1 == fit_of(*layout, metrics),
    {
        proof {
            use_type_invariant(self);
        }
        let columns: Columns = Columns::for_rect_with(
            layout.origin_x,
            layout.width as i128 * MICRO,
            layout.scale,
            &self.tokens,
            metadata,
        );
        let fit: Option<RowTextFit> = match metrics {
            Some(m) => Some(row_text_fit(layout.row_height, m.ascent, m.descent, m.x_height)),
            None => None,
        };
        let baseline: Micros = match fit {
            Some(fit) => fit.baseline,
            None => {
                proof {
                    crate::units::times_is_bounded(layout.row_height * 1_000_000, 700_000, 1);
                }
                product(layout.row_height as i128 * MICRO, 700_000)
            },
        };
        let page: Page = Page {
            tokens: self.tokens,
            columns,
            region: StateRegion::new(&self.tokens, &columns, layout),
            scale: larger(layout.scale, 100_000),
            row_height: layout.row_height,
            baseline,
            lit,
        };
        (page, fit)
    }

    /// Draw a list.
    pub fn render<'a>(
        &mut self,
        buf: &'a RowBuf,
        substances: &'a Vec<Substance>,
        layout: &ViewportLayout,
        icons: IconPx,
        looks: Looks<'a>,
        metrics: Option<FontMetrics>,
        interaction: Interaction<'a>,
        motion: &'a InteractionMotion,
    ) -> (result: Frame)
        requires
            list_is_sane(*buf, *substances, *layout, looks, metrics),
        ensures
            ({
                let input = FrameInput {
                    page: page_of(old(self).row_tokens(), *layout, metrics, true, false),
                    looks,
                    layout: *layout,
                    buf,
                    substances,
                    interaction,
                    motion,
                };
                &&& all_seen(result.pieces@) == input.pieces()
                &&& result.slabs@.len() == 0
                &&& result.lamp is None
                &&& final(self).fit() == fit_of(*layout, metrics)
                &&& starts_frame(*old(self), *final(self), icons)
            }),
    {
        self.begin_frame(icons);
        proof {
            use_type_invariant(&*self);
        }
        let (page, fit): (Page, Option<RowTextFit>) = self.page(layout, metrics, true, false);
        self.last_text_fit = fit;
        FrameInput { page, looks, layout: *layout, buf, substances, interaction, motion }.render_rows()
    }

    /// Draw a lit list: what is drawn, and every painted surface as the lighting pass sees it.
    pub fn render_lit<'a>(
        &mut self,
        buf: &'a RowBuf,
        substances: &'a Vec<Substance>,
        layout: &ViewportLayout,
        icons: IconPx,
        looks: Looks<'a>,
        metrics: Option<FontMetrics>,
        interaction: Interaction<'a>,
        motion: &'a InteractionMotion,
    ) -> (result: Frame)
        requires
            list_is_sane(*buf, *substances, *layout, looks, metrics),
        ensures
            ({
                let input = FrameInput {
                    page: page_of(old(self).row_tokens(), *layout, metrics, true, true),
                    looks,
                    layout: *layout,
                    buf,
                    substances,
                    interaction,
                    motion,
                };
                &&& all_seen(result.pieces@) == input.pieces()
                &&& result.slabs@ == input.slabs()
                &&& input.has_lamp(result.lamp)
                &&& final(self).fit() == fit_of(*layout, metrics)
                &&& starts_frame(*old(self), *final(self), icons)
            }),
    {
        self.begin_frame(icons);
        proof {
            use_type_invariant(&*self);
        }
        let (page, fit): (Page, Option<RowTextFit>) = self.page(layout, metrics, true, true);
        self.last_text_fit = fit;
        FrameInput { page, looks, layout: *layout, buf, substances, interaction, motion }.render_rows()
    }

    /// Draw a column among several: the same rows, and their names alone.
    pub fn render_column<'a>(
        &mut self,
        buf: &'a RowBuf,
        substances: &'a Vec<Substance>,
        layout: &ViewportLayout,
        icons: IconPx,
        looks: Looks<'a>,
        metrics: Option<FontMetrics>,
        interaction: Interaction<'a>,
        motion: &'a InteractionMotion,
    ) -> (result: Frame)
        requires
            list_is_sane(*buf, *substances, *layout, looks, metrics),
        ensures
            ({
                let input = FrameInput {
                    page: page_of(old(self).row_tokens(), *layout, metrics, false, false),
                    looks,
                    layout: *layout,
                    buf,
                    substances,
                    interaction,
                    motion,
                };
                &&& all_seen(result.pieces@) == input.pieces()
                &&& result.slabs@.len() == 0
                &&& result.lamp is None
                &&& final(self).fit() == fit_of(*layout, metrics)
                &&& starts_frame(*old(self), *final(self), icons)
            }),
    {
        self.begin_frame(icons);
        proof {
            use_type_invariant(&*self);
        }
        let (page, fit): (Page, Option<RowTextFit>) = self.page(layout, metrics, false, false);
        self.last_text_fit = fit;
        FrameInput { page, looks, layout: *layout, buf, substances, interaction, motion }.render_rows()
    }

    /// Draw a grid. `ascent` is how far the label's tallest letter is above its baseline, and
    /// `emblem` how large an emblem is on icons of the grid's size.
    pub fn render_grid<'a>(
        &mut self,
        buf: &'a RowBuf,
        layout: &ViewportLayout,
        grid: GridMetrics,
        emblem: Option<u16>,
        ascent: Micros,
        looks: Looks<'a>,
        interaction: Interaction<'a>,
        motion: &'a InteractionMotion,
    ) -> (result: Vec<Piece<String>>)
        requires
            grid.sane(),
            fits(ascent as int),
            looks.sane(),
            layout.sane(),
            modest(layout.scale as int),
            buf@.len() <= u32::MAX,
            layout.visible.first + buf@.len() <= u64::MAX,
        ensures
            all_seen(result@) == (GridInput {
                tokens: old(self).row_tokens(),
                metrics: grid,
                ascent,
                looks,
                layout: *layout,
                buf,
                interaction,
                motion,
            }).cells(buf@.len() as int),
            starts_frame(*old(self), *final(self), (IconPx { icon: grid.icon_px, emblem })),
            final(self).fit() == old(self).fit(),
    {
        self.begin_frame(IconPx { icon: grid.icon_px, emblem });
        proof {
            use_type_invariant(&*self);
        }
        GridInput {
            tokens: self.tokens,
            metrics: grid,
            ascent,
            looks,
            layout: *layout,
            buf,
            interaction,
            motion,
        }.render_grid()
    }

    /// One line of text of no row, set in a role and cut at its end where it is too long.
    pub fn draw_label(
        &self,
        text: String,
        x: Micros,
        baseline: Micros,
        max_width: Micros,
        role: ResolvedRole,
        tabular: bool,
        tint: Tint,
    ) -> (result: TextPiece<String>)
        ensures
            result == (TextPiece {
                text,
                align: Align::Left(x),
                baseline,
                max_width,
                face: Face::Role(role),
                tabular,
                tint,
                middle_ellipsis: false,
            }),
    {
        TextPiece {
            text,
            align: Align::Left(x),
            baseline,
            max_width,
            face: Face::Role(role),
            tabular,
            tint,
            middle_ellipsis: false,
        }
    }

    /// This frame's icon of a kind. `fetch` asks the atlas, once for each kind and frame; a refusal
    /// is counted once too.
    pub fn icon_entry<F: FnOnce(IconKey) -> Option<AtlasEntry>>(
        &mut self,
        kind: IconKind,
        fetch: F,
    ) -> (result: Option<AtlasEntry>)
        requires
            forall|key: IconKey| #[trigger] call_requires(fetch, (key,)),
        ensures
            ({
                let key = IconKey { shape: IconShape::Kind(kind), px: old(self).sheet().size() };
                match known(old(self).sheet().kinds()[kind.place()]) {
                    Some(entry) => result == entry && *final(self) == *old(self),
                    None => {
                        &&& call_ensures(fetch, (key,), result)
                        &&& final(self).sheet().kinds() == old(self).sheet().kinds().update(
                            kind.place(),
                            crate::row::atlas::answered(result),
                        )
                        &&& final(self).sheet().emblems() == old(self).sheet().emblems()
                        &&& asked_once(*old(self), *final(self), result)
                    },
                }
            }),
    {
        proof {
            use_type_invariant(&*self);
        }
        match self.icons.wanted(kind) {
            Ok(entry) => entry,
            Err(key) => {
                let entry: Option<AtlasEntry> = fetch(key);
                if entry.is_none() {
                    self.icons_dropped = one_more(self.icons_dropped);
                }
                let mut icons: IconCache = IconCache::for_px(0, None);
                std::mem::swap(&mut icons, &mut self.icons);
                icons.told(kind, entry);
                self.icons = icons;
                entry
            },
        }
    }

    /// This frame's emblem. An icon that is too small to carry one has none, and the atlas is not
    /// asked.
    pub fn emblem_entry<F: FnOnce(IconKey) -> Option<AtlasEntry>>(
        &mut self,
        emblem: Emblem,
        fetch: F,
    ) -> (result: Option<AtlasEntry>)
        requires
            forall|key: IconKey| #[trigger] call_requires(fetch, (key,)),
        ensures
            match old(self).sheet().emblem_size() {
                None => result is None && *final(self) == *old(self),
                Some(px) => {
                    let key = IconKey { shape: IconShape::Emblem(emblem), px };
                    match known(old(self).sheet().emblems()[emblem.place()]) {
                        Some(entry) => result == entry && *final(self) == *old(self),
                        None => {
                            &&& call_ensures(fetch, (key,), result)
                            &&& final(self).sheet().emblems()
                                == old(self).sheet().emblems().update(
                                emblem.place(),
                                crate::row::atlas::answered(result),
                            )
                            &&& final(self).sheet().kinds() == old(self).sheet().kinds()
                            &&& asked_once(*old(self), *final(self), result)
                        },
                    }
                },
            },
    {
        proof {
            use_type_invariant(&*self);
        }
        match self.icons.wanted_emblem(emblem) {
            Ok(entry) => entry,
            Err(key) => {
                let entry: Option<AtlasEntry> = fetch(key);
                if entry.is_none() {
                    self.icons_dropped = one_more(self.icons_dropped);
                }
                let mut icons: IconCache = IconCache::for_px(0, None);
                std::mem::swap(&mut icons, &mut self.icons);
                icons.told_emblem(emblem, entry);
                self.icons = icons;
                entry
            },
        }
    }

    /// One icon of no row, with its top left corner at `(x, y)`: a state. `fetch` asks the atlas,
    /// and a refusal is counted.
    pub fn draw_state_icon<S, F: FnOnce(S, u16) -> Option<AtlasEntry>>(
        &mut self,
        state: S,
        x: Micros,
        y: Micros,
        px: u16,
        tint: Tint,
        fetch: F,
    ) -> (result: Option<Quad>)
        requires
            call_requires(fetch, (state, px)),
            is_pen(x as int),
            is_pen(y as int),
        ensures
            exists|entry: Option<AtlasEntry>| #[trigger]
                call_ensures(fetch, (state, px), entry) && result == chrome_quad(
                    entry,
                    x as int,
                    y as int,
                    tint,
                ) && final(self).icon_drops() == match entry {
                    None => counted(old(self).icon_drops()),
                    Some(_) => old(self).icon_drops(),
                },
            same_but_drops(*old(self), *final(self)),
    {
        let entry: Option<AtlasEntry> = fetch(state, px);
        assert(call_ensures(fetch, (state, px), entry));
        self.draw_chrome_icon(entry, x, y, tint)
    }

    /// One chevron of no row, with its top left corner at `(x, y)`. `fetch` asks the atlas, and a
    /// refusal is counted.
    pub fn draw_chevron<S, F: FnOnce(S, u16) -> Option<AtlasEntry>>(
        &mut self,
        chevron: S,
        x: Micros,
        y: Micros,
        px: u16,
        tint: Tint,
        fetch: F,
    ) -> (result: Option<Quad>)
        requires
            call_requires(fetch, (chevron, px)),
            is_pen(x as int),
            is_pen(y as int),
        ensures
            exists|entry: Option<AtlasEntry>| #[trigger]
                call_ensures(fetch, (chevron, px), entry) && result == chrome_quad(
                    entry,
                    x as int,
                    y as int,
                    tint,
                ) && final(self).icon_drops() == match entry {
                    None => counted(old(self).icon_drops()),
                    Some(_) => old(self).icon_drops(),
                },
            same_but_drops(*old(self), *final(self)),
    {
        let entry: Option<AtlasEntry> = fetch(chevron, px);
        assert(call_ensures(fetch, (chevron, px), entry));
        self.draw_chrome_icon(entry, x, y, tint)
    }

    /// One icon of no row, on whole pixels; a refusal of the atlas is counted.
    fn draw_chrome_icon(
        &mut self,
        entry: Option<AtlasEntry>,
        x: Micros,
        y: Micros,
        tint: Tint,
    ) -> (result: Option<Quad>)
        requires
            is_pen(x as int),
            is_pen(y as int),
        ensures
            result == chrome_quad(entry, x as int, y as int, tint),
            final(self).icon_drops() == match entry {
                None => counted(old(self).icon_drops()),
                Some(_) => old(self).icon_drops(),
            },
            same_but_drops(*old(self), *final(self)),
    {
        proof {
            use_type_invariant(&*self);
        }
        match entry {
            None => {
                self.icons_dropped = one_more(self.icons_dropped);
                None
            },
            Some(entry) => Some(
                Quad {
                    x: round_px(x),
                    y: round_px(y),
                    w: entry.width as i128 * MICRO,
                    h: entry.height as i128 * MICRO,
                    uv: entry.uv,
                    tint,
                },
            ),
        }
    }

    /// Draw one glyph of a line. `entry` is what the atlas has of it: a glyph that it does not have
    /// yet is not dropped but waits until every draw of the pass has been counted.
    pub fn emit_glyph(
        &mut self,
        key: K,
        integer_x: Micros,
        baseline: Micros,
        entry: Option<AtlasEntry>,
        tint: Tint,
    ) -> (result: Option<Quad>)
        requires
            is_pen(integer_x as int),
            -1_000_000_000_000_000_000_000_000_000 <= baseline
                <= 1_000_000_000_000_000_000_000_000_000,
        ensures
            ({
                let line = snapped_px(baseline as int);
                match entry {
                    Some(entry) => {
                        &&& result == glyph_quad(entry, integer_x as int, line, tint)
                        &&& final(self).parked() == old(self).parked()
                    },
                    None => {
                        &&& result is None
                        &&& final(self).parked() == old(self).parked().push(
                            DeferredGlyph { key, integer_x, baseline: line as Micros, tint },
                        )
                    },
                }
            }),
            same_but_parked(*old(self), *final(self)),
            final(self).glyph_drops() == old(self).glyph_drops(),
    {
        proof {
            use_type_invariant(&*self);
        }
        let line: Micros = round_px(baseline);
        match entry {
            Some(entry) => draw_glyph(entry, integer_x, line, tint),
            None => {
                let mut deferred: Vec<DeferredGlyph<K>> = Vec::new();
                std::mem::swap(&mut deferred, &mut self.deferred);
                deferred.push(DeferredGlyph { key, integer_x, baseline: line, tint });
                self.deferred = deferred;
                None
            },
        }
    }

    /// The glyphs that wait for the atlas, in the order they were drawn.
    pub fn waiting(&self) -> (result: &Vec<DeferredGlyph<K>>)
        ensures
            result@ == self.parked(),
    {
        &self.deferred
    }

    /// Draw the glyphs that waited, once the atlas has spent its bound on them. `entries` is what
    /// it has of each by then; one that it does not have is dropped, and counted.
    pub fn flush_text(&mut self, entries: &Vec<Option<AtlasEntry>>) -> (result: Vec<Quad>)
        requires
            entries@.len() == old(self).parked().len(),
        ensures
            result@ == flushed(old(self).parked(), entries@, entries@.len() as int),
            final(self).parked().len() == 0,
            final(self).glyph_drops() == dropped_after(
                entries@,
                entries@.len() as int,
                old(self).glyph_drops(),
            ),
            same_but_parked(*old(self), *final(self)),
    {
        proof {
            use_type_invariant(&*self);
        }
        let mut deferred: Vec<DeferredGlyph<K>> = Vec::new();
        std::mem::swap(&mut deferred, &mut self.deferred);
        let ghost parked = deferred@;
        let mut out: Vec<Quad> = Vec::new();
        let mut dropped: u32 = self.glyphs_dropped;
        let mut i: usize = 0;
        while i < deferred.len()
            invariant
                deferred@ == parked,
                deferred@ == old(self).parked(),
                entries@.len() == deferred@.len(),
                i <= deferred@.len(),
                forall|j: int|
                    0 <= j < deferred@.len() ==> is_pen((#[trigger] deferred@[j]).integer_x as int)
                        && is_pen(deferred@[j].baseline as int),
                out@ == flushed(parked, entries@, i as int),
                dropped == dropped_after(entries@, i as int, old(self).glyph_drops()),
            decreases deferred@.len() - i,
        {
            assert(is_pen(deferred@[i as int].integer_x as int));
            let glyph: &DeferredGlyph<K> = &deferred[i];
            match entries[i] {
                None => {
                    dropped = one_more(dropped);
                },
                Some(entry) => {
                    if let Some(quad) = draw_glyph(
                        entry,
                        glyph.integer_x,
                        glyph.baseline,
                        glyph.tint,
                    ) {
                        out.push(quad);
                    }
                },
            }
            i = i + 1;
        }
        self.glyphs_dropped = dropped;
        out
    }

    /// End a frame: how many glyphs a pass left waiting, which is text that was lost. None wait
    /// afterwards.
    pub fn take_uploads(&mut self) -> (result: usize)
        ensures
            result == old(self).parked().len(),
            final(self).parked().len() == 0,
            same_but_parked(*old(self), *final(self)),
            final(self).glyph_drops() == old(self).glyph_drops(),
    {
        proof {
            use_type_invariant(&*self);
        }
        let mut deferred: Vec<DeferredGlyph<K>> = Vec::new();
        std::mem::swap(&mut deferred, &mut self.deferred);
        deferred.len()
    }
}

/// Whether `b` is `a` at the start of a frame, but for the last text fit: nothing is dropped yet,
/// and no icon asked for.
pub open spec fn starts_frame<K>(a: ListRenderer<K>, b: ListRenderer<K>, icons: IconPx) -> bool {
    &&& b.row_tokens() == a.row_tokens()
    &&& b.fallback() == a.fallback()
    &&& b.resolved() == a.resolved()
    &&& b.parked() == a.parked()
    &&& b.glyph_drops() == 0
    &&& b.icon_drops() == 0
    &&& b.sheet().is_fresh(icons)
}

/// Whether two renderers differ in the waiting glyphs and the count of dropped ones alone.
pub open spec fn same_but_parked<K>(a: ListRenderer<K>, b: ListRenderer<K>) -> bool {
    &&& b.row_tokens() == a.row_tokens()
    &&& b.fallback() == a.fallback()
    &&& b.resolved() == a.resolved()
    &&& b.sheet() == a.sheet()
    &&& b.icon_drops() == a.icon_drops()
    &&& b.fit() == a.fit()
}

/// Whether two renderers differ in the count of dropped icons alone.
pub open spec fn same_but_drops<K>(a: ListRenderer<K>, b: ListRenderer<K>) -> bool {
    &&& b.row_tokens() == a.row_tokens()
    &&& b.fallback() == a.fallback()
    &&& b.resolved() == a.resolved()
    &&& b.sheet() == a.sheet()
    &&& b.parked() == a.parked()
    &&& b.glyph_drops() == a.glyph_drops()
    &&& b.fit() == a.fit()
}

/// Whether two renderers differ in what the atlas answered alone, and a refusal is counted.
pub open spec fn asked_once<K>(
    a: ListRenderer<K>,
    b: ListRenderer<K>,
    entry: Option<AtlasEntry>,
) -> bool {
    &&& b.row_tokens() == a.row_tokens()
    &&& b.fallback() == a.fallback()
    &&& b.resolved() == a.resolved()
    &&& b.sheet().size() == a.sheet().size()
    &&& b.sheet().emblem_size() == a.sheet().emblem_size()
    &&& b.parked() == a.parked()
    &&& b.glyph_drops() == a.glyph_drops()
    &&& b.fit() == a.fit()
    &&& b.icon_drops() == match entry {
        None => counted(a.icon_drops()),
        Some(_) => a.icon_drops(),
    }
}

/// An icon of no row, on whole pixels.
pub open spec fn chrome_quad(entry: Option<AtlasEntry>, x: int, y: int, tint: Tint) -> Option<Quad> {
    match entry {
        None => None,
        Some(entry) => Some(quad_at(entry, snapped_px(x), snapped_px(y), tint)),
    }
}

/// Whether a face's metrics are small enough to compute with.
pub open spec fn metrics_are_sane(metrics: Option<FontMetrics>) -> bool {
    metrics matches Some(m) ==> fits(m.ascent as int) && fits(m.descent as int) && fits(
        m.x_height as int,
    )
}

/// Whether a list can be drawn.
pub open spec fn list_is_sane(
    buf: RowBuf,
    substances: Vec<Substance>,
    layout: ViewportLayout,
    looks: Looks<'_>,
    metrics: Option<FontMetrics>,
) -> bool {
    &&& looks.sane()
    &&& layout.sane()
    &&& modest(layout.scale as int)
    &&& metrics_are_sane(metrics)
    &&& buf@.len() <= u32::MAX
    &&& layout.visible.first + buf@.len() <= u64::MAX
    &&& substances@.len() == buf@.len()
    &&& forall|i: int|
        0 <= i < substances@.len() ==> modest((#[trigger] substances@[i]).bevel as int)
}

/// Where a list's text sits, if its face has metrics.
pub open spec fn fit_of(layout: ViewportLayout, metrics: Option<FontMetrics>) -> Option<RowTextFit> {
    match metrics {
        Some(m) => Some(
            text_fit(layout.row_height, m.ascent as int, m.descent as int, m.x_height as int),
        ),
        None => None,
    }
}

/// A face at a size: four fifths and five quarters of it, where the face has no metrics.
pub open spec fn resolved_at(font: FontId, size: Micros, metrics: Option<FontMetrics>) -> ResolvedRole {
    ResolvedRole {
        size,
        font,
        ascent: match metrics {
            Some(m) => m.ascent,
            None => times(size as int, 800_000) as Micros,
        },
        line_height: match metrics {
            Some(m) => m.line_height,
            None => times(size as int, 1_250_000) as Micros,
        },
    }
}

/// A face at a size.
fn resolve(font: FontId, size: Micros, metrics: Option<FontMetrics>) -> (result: ResolvedRole)
    requires
        fits(size as int),
    ensures
        result == resolved_at(font, size, metrics),
{
    let (ascent, line_height): (Micros, Micros) = match metrics {
        Some(m) => (m.ascent, m.line_height),
        None => (product(size, 800_000), product(size, 1_250_000)),
    };
    ResolvedRole { size, font, ascent, line_height }
}

/// How far one cell of a fixed-width face advances, and whether the face really is one: its widest
/// and its narrowest letter, `wide` and `narrow`, are then as wide as each other to a tenth of a
/// pixel. A cell is at least one pixel.
pub fn cell_advance(wide: Micros, narrow: Micros) -> (result: (Micros, bool))
    requires
        fits(wide as int),
        fits(narrow as int),
    ensures
        result.0 == max_of(wide as int, 1_000_000),
        result.1 == (-100_000 < wide - narrow < 100_000),
{
    let apart: Micros = wide - narrow;
    (larger(wide, MICRO), -100_000 < apart && apart < 100_000)
}

/// A glyph that waits is drawn or counted as dropped, and never both: nothing is lost in silence.
pub proof fn waiting_glyphs_are_drawn_or_counted<K>(
    parked: Seq<DeferredGlyph<K>>,
    entries: Seq<Option<AtlasEntry>>,
    count: int,
    dropped: u32,
)
    requires
        0 <= count <= entries.len(),
        count <= parked.len(),
        dropped + count <= u32::MAX,
        forall|i: int|
            0 <= i < count ==> ((#[trigger] entries[i]) matches Some(entry) ==> entry.width > 0
                && entry.height > 0),
    ensures
        flushed(parked, entries, count).len() + (dropped_after(entries, count, dropped) - dropped)
            == count,
    decreases count,
{
    if count > 0 {
        waiting_glyphs_are_drawn_or_counted(parked, entries, count - 1, dropped);
        assert(entries[count - 1] matches Some(entry) ==> entry.width > 0);
    }
}

/// The face of a weight is the last that was given for it, a face for one weight says nothing of
/// another, and a weight that was given none has the face of last resort.
pub proof fn a_weight_has_the_face_last_given(
    faces: Seq<(u16, FontId)>,
    weight: u16,
    other: u16,
    face: FontId,
    otherwise: FontId,
)
    ensures
        face_at(faces.push((weight, face)), weight, otherwise) == face,
        other != weight ==> face_at(faces.push((weight, face)), other, otherwise) == face_at(
            faces,
            other,
            otherwise,
        ),
        (forall|i: int| 0 <= i < faces.len() ==> (#[trigger] faces[i]).0 != weight) ==> face_at(
            faces,
            weight,
            otherwise,
        ) == otherwise,
    decreases faces.len(),
{
    let pushed = faces.push((weight, face));
    assert(pushed.drop_last() =~= faces);
    if faces.len() > 0 {
        let front = faces.drop_last();
        a_weight_has_the_face_last_given(front, weight, other, face, otherwise);
        if forall|i: int| 0 <= i < faces.len() ==> (#[trigger] faces[i]).0 != weight {
            assert forall|i: int| 0 <= i < front.len() implies (#[trigger] front[i]).0 != weight by {
                assert(faces[i].0 != weight);
            }
            assert(faces[faces.len() - 1].0 != weight);
        }
    }
}

/// Of the weights that share a face the first one is listed, and no other weight is.
pub proof fn every_face_is_listed_once(faces: Seq<(u16, FontId)>, count: int)
    requires
        0 <= count <= faces.len(),
    ensures
        forall|weight: u16|
            weights_of(faces, count).contains(weight) <==> exists|i: int|
                {
                    &&& 0 <= i < count
                    &&& (#[trigger] faces[i]).0 == weight
                    &&& forall|j: int|
                        0 <= j < i ==> #[trigger] face_of(faces, j) != face_of(faces, i)
                },
    decreases count,
{
    if count > 0 {
        let before = weights_of(faces, count - 1);
        let all = weights_of(faces, count);
        every_face_is_listed_once(faces, count - 1);
        let last = faces[count - 1].0;
        assert forall|weight: u16|
            all.contains(weight) <==> exists|i: int|
                {
                    &&& 0 <= i < count
                    &&& (#[trigger] faces[i]).0 == weight
                    &&& forall|j: int|
                        0 <= j < i ==> #[trigger] face_of(faces, j) != face_of(faces, i)
                } by {
            if !is_repeated(faces, count - 1) {
                assert(all == before.push(last));
                assert(all[before.len() as int] == last);
                if before.contains(weight) {
                    let at = choose|at: int| 0 <= at < before.len() && before[at] == weight;
                    assert(all[at] == weight);
                }
                if all.contains(weight) && weight != last {
                    let at = choose|at: int| 0 <= at < all.len() && all[at] == weight;
                    assert(before[at] == weight);
                }
            }
        }
    } else {
        assert(weights_of(faces, count).len() == 0);
    }
}

/// A glyph that waited is drawn from its own pen, in its own colour and with the picture that the
/// atlas has for it, after those that waited before it; one that the atlas has no picture for, and a
/// blank, add nothing.
pub proof fn a_waiting_glyph_is_drawn_from_its_own_pen<K>(
    parked: Seq<DeferredGlyph<K>>,
    entries: Seq<Option<AtlasEntry>>,
    count: int,
    i: int,
)
    requires
        0 <= i < count,
        count <= parked.len(),
        count <= entries.len(),
        is_pen(parked[i].integer_x as int),
        is_pen(parked[i].baseline as int),
    ensures
        flushed(parked, entries, i).is_prefix_of(flushed(parked, entries, count)),
        match entries[i] {
            Some(entry) if entry.width > 0 && entry.height > 0 => {
                let at = flushed(parked, entries, i).len() as int;
                let drawn = flushed(parked, entries, count);
                &&& at < drawn.len()
                &&& drawn[at].x == parked[i].integer_x + entry.left * 1_000_000
                &&& drawn[at].y == parked[i].baseline - entry.top * 1_000_000
                &&& drawn[at].w == entry.width * 1_000_000
                &&& drawn[at].h == entry.height * 1_000_000
                &&& drawn[at].uv == entry.uv
                &&& drawn[at].tint == parked[i].tint
            },
            _ => flushed(parked, entries, i + 1) == flushed(parked, entries, i),
        },
    decreases count,
{
    let drawn = flushed(parked, entries, count);
    let before = flushed(parked, entries, count - 1);
    assert(before.is_prefix_of(drawn));
    if i + 1 < count {
        a_waiting_glyph_is_drawn_from_its_own_pen(parked, entries, count - 1, i);
        let at = flushed(parked, entries, i).len() as int;
        assert forall|k: int| 0 <= k < at implies flushed(parked, entries, i)[k] == drawn[k] by {
            assert(before[k] == drawn[k]);
        }
        assert(flushed(parked, entries, i).is_prefix_of(drawn));
        if at < before.len() {
            assert(before[at] == drawn[at]);
        }
    }
}

/// Chrome is drawn where it belongs, to the nearest whole pixel.
pub proof fn chrome_lies_on_whole_pixels(entry: AtlasEntry, x: int, y: int, tint: Tint)
    requires
        is_pen(x),
        is_pen(y),
    ensures
        chrome_quad(Some(entry), x, y, tint) matches Some(quad) && {
            &&& quad.x % 1_000_000 == 0
            &&& quad.y % 1_000_000 == 0
            &&& x - 500_000 <= quad.x <= x + 500_000
            &&& y - 500_000 <= quad.y <= y + 500_000
            &&& quad.w == entry.width * 1_000_000
            &&& quad.h == entry.height * 1_000_000
            &&& quad.uv == entry.uv
            &&& quad.tint == tint
        },
        chrome_quad(None, x, y, tint) is None,
{
    the_nearest_pixel_is_taken(x);
    the_nearest_pixel_is_taken(y);
}

/// A role has the measures of its face where they are known. Where they are not, a line is a quarter
/// taller than the text is large, and the baseline is a fifth of its size above its lower end.
pub proof fn a_role_has_the_measures_of_its_face(
    font: FontId,
    size: Micros,
    metrics: Option<FontMetrics>,
)
    requires
        fits(size as int),
    ensures
        ({
            let role = resolved_at(font, size, metrics);
            &&& role.font == font
            &&& role.size == size
            &&& match metrics {
                Some(m) => role.ascent == m.ascent && role.line_height == m.line_height,
                None => {
                    &&& 4 * size - 5 < 5 * role.ascent <= 4 * size
                    &&& 5 * size - 4 < 4 * role.line_height <= 5 * size
                },
            }
        }),
{
}

/// A page is that of its layout: its rows are as tall, what is on it is as large, and text without
/// measures stands seven tenths down its row.
pub proof fn a_page_is_that_of_its_layout(
    tokens: RowTokens,
    layout: ViewportLayout,
    metrics: Option<FontMetrics>,
    metadata: bool,
    lit: bool,
)
    requires
        layout.scale >= 100_000,
    ensures
        ({
            let page = page_of(tokens, layout, metrics, metadata, lit);
            &&& page.tokens == tokens
            &&& page.row_height == layout.row_height
            &&& page.scale == layout.scale
            &&& page.lit == lit
            &&& metrics is None ==> page.baseline * 10 == layout.row_height * 7_000_000
        }),
{
}

} // verus!
