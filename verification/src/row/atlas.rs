//! Where icons, emblems, badges and glyphs land once the atlas has them.

use crate::material::Shape;
use crate::row::format::{extends_at, extension, extension_text};
use crate::row::geometry::RowTokens;
use crate::row::ink::{fade, ink, Emblem, IconKind, Opacity, Tint, Token, EMBLEMS, ICON_KINDS};
use crate::row::piece::{Align, IconPiece, TextPiece};
use crate::units::{fits, floor_div, max_of, min_of, product, smaller, times, Micros, MICRO};
use vstd::prelude::*;
use vstd::utf8::encode_utf8;

verus! {

/// Where a mask is in the atlas.
#[derive(Clone, Copy, PartialEq, Eq, Debug, Structural)]
pub struct Uv {
    /// Left edge.
    pub u0: Micros,
    /// Top edge.
    pub v0: Micros,
    /// Right edge.
    pub u1: Micros,
    /// Bottom edge.
    pub v1: Micros,
}

/// A mask that the atlas has.
#[derive(Clone, Copy, PartialEq, Eq, Debug, Structural)]
pub struct AtlasEntry {
    /// Width in device pixels.
    pub width: u32,
    /// Height in device pixels.
    pub height: u32,
    /// From the pen to its left edge.
    pub left: i32,
    /// From the baseline up to its top edge.
    pub top: i32,
    /// Where it is in the atlas.
    pub uv: Uv,
}

/// A mask to draw.
#[derive(Clone, Copy, PartialEq, Eq, Debug)]
pub struct Quad {
    /// Left edge.
    pub x: Micros,
    /// Top edge.
    pub y: Micros,
    /// Width.
    pub w: Micros,
    /// Height.
    pub h: Micros,
    /// Where it is in the atlas.
    pub uv: Uv,
    /// Its colour.
    pub tint: Tint,
}

/// The whole pixel nearest to `x`, a half going away from zero.
pub open spec fn snapped_px(x: int) -> int {
    if x >= 0 {
        (x + 500_000) / 1_000_000 * 1_000_000
    } else {
        -((-x + 500_000) / 1_000_000 * 1_000_000)
    }
}

/// The whole pixel nearest to `x`, a half going away from zero.
pub fn round_px(x: Micros) -> (result: Micros)
    requires
        -0x4000_0000_0000_0000_0000_0000_0000_0000 <= x
            <= 0x4000_0000_0000_0000_0000_0000_0000_0000,
    ensures
        result == snapped_px(x as int),
        x - 500_000 <= result <= x + 500_000,
{
    if x >= 0 {
        (x + 500_000) / MICRO * MICRO
    } else {
        -((-x + 500_000) / MICRO * MICRO)
    }
}

/// Where the top left corner of an icon of `size` goes: centred in its slot, on whole pixels.
pub open spec fn icon_corner<T>(piece: IconPiece<T>, size: int) -> (int, int) {
    (
        snapped_px(piece.x + (piece.w - size) / 2),
        snapped_px(piece.y + (piece.h - size) / 2),
    )
}

/// An entry drawn with its top left corner at `(x, y)`.
pub open spec fn quad_at(entry: AtlasEntry, x: int, y: int, tint: Tint) -> Quad {
    Quad {
        x: x as Micros,
        y: y as Micros,
        w: (entry.width * 1_000_000) as Micros,
        h: (entry.height * 1_000_000) as Micros,
        uv: entry.uv,
        tint,
    }
}

/// An emblem's part, in the bottom left corner of an icon.
pub open spec fn emblem_quad(
    entry: Option<AtlasEntry>,
    corner: (int, int),
    size: int,
    tint: Tint,
) -> Seq<Quad> {
    match entry {
        None => Seq::empty(),
        Some(entry) => seq![
            quad_at(
                entry,
                snapped_px(corner.0),
                snapped_px(corner.1 + size - entry.width * 1_000_000),
                tint,
            ),
        ],
    }
}

/// An icon, and over it its emblem: a plate in the colour of the ground, and the mark on it.
pub open spec fn icon_quads<T>(
    piece: IconPiece<T>,
    entry: AtlasEntry,
    plate: Option<AtlasEntry>,
    mark: Option<AtlasEntry>,
) -> Seq<Quad> {
    let size = entry.width * 1_000_000;
    let corner = icon_corner(piece, size);
    let icon = seq![quad_at(entry, corner.0, corner.1, piece.tint)];
    if piece.emblem is Some {
        icon + emblem_quad(plate, corner, size, ink(Token::Ground, piece.hidden, false))
            + emblem_quad(mark, corner, size, ink(Token::Secondary, piece.hidden, false))
    } else {
        icon
    }
}

impl<T> IconPiece<T> {
    /// The slot is somewhere that can be computed with.
    pub open spec fn is_near(self) -> bool {
        &&& -1_000_000_000_000_000_000_000_000_000 <= self.x <= 1_000_000_000_000_000_000_000_000_000
        &&& -1_000_000_000_000_000_000_000_000_000 <= self.y <= 1_000_000_000_000_000_000_000_000_000
        &&& -2_000_000_000_000_000_000 <= self.w <= 2_000_000_000_000_000_000
        &&& -2_000_000_000_000_000_000 <= self.h <= 2_000_000_000_000_000_000
    }

    /// Where the top left corner of an icon of `size` goes.
    pub fn corner(&self, size: Micros) -> (result: (Micros, Micros))
        requires
            self.is_near(),
            0 <= size <= 0xffff_ffff * 1_000_000,
        ensures
            (result.0 as int, result.1 as int) == icon_corner(*self, size as int),
            -2_000_000_000_000_000_000_000_000_000 <= result.0
                <= 2_000_000_000_000_000_000_000_000_000,
            -2_000_000_000_000_000_000_000_000_000 <= result.1
                <= 2_000_000_000_000_000_000_000_000_000,
    {
        (
            round_px(self.x + floor_div(self.w - size, 2)),
            round_px(self.y + floor_div(self.h - size, 2)),
        )
    }

    /// What an icon comes to, once the atlas has it. `plate` and `mark` are its emblem's parts, of
    /// which the atlas may not have either.
    pub fn quads(&self, entry: AtlasEntry, plate: Option<AtlasEntry>, mark: Option<AtlasEntry>) -> (result:
        Vec<Quad>)
        requires
            self.is_near(),
        ensures
            result@ == icon_quads(*self, entry, plate, mark),
    {
        let size: Micros = entry.width as i128 * MICRO;
        let (x, y): (Micros, Micros) = self.corner(size);
        let mut out: Vec<Quad> = Vec::new();
        out.push(
            Quad { x, y, w: size, h: entry.height as i128 * MICRO, uv: entry.uv, tint: self.tint },
        );
        assert(out@ =~= seq![quad_at(entry, x as int, y as int, self.tint)]);
        if self.emblem.is_some() {
            draw_emblem(plate, x, y, size, fade(Token::Ground, self.hidden), &mut out);
            draw_emblem(mark, x, y, size, fade(Token::Secondary, self.hidden), &mut out);
        }
        out
    }
}

/// Lay one part of an emblem over an icon, if the atlas has it.
fn draw_emblem(
    entry: Option<AtlasEntry>,
    icon_x: Micros,
    icon_y: Micros,
    icon_size: Micros,
    tint: Tint,
    out: &mut Vec<Quad>,
)
    requires
        -2_000_000_000_000_000_000_000_000_000 <= icon_x
            <= 2_000_000_000_000_000_000_000_000_000,
        -2_000_000_000_000_000_000_000_000_000 <= icon_y
            <= 2_000_000_000_000_000_000_000_000_000,
        0 <= icon_size <= 0xffff_ffff * 1_000_000,
    ensures
        final(out)@ == old(out)@ + emblem_quad(
            entry,
            (icon_x as int, icon_y as int),
            icon_size as int,
            tint,
        ),
{
    if let Some(entry) = entry {
        let size: Micros = entry.width as i128 * MICRO;
        out.push(
            Quad {
                x: round_px(icon_x),
                y: round_px(icon_y + icon_size - size),
                w: size,
                h: entry.height as i128 * MICRO,
                uv: entry.uv,
                tint,
            },
        );
    }
    assert(out@ =~= old(out)@ + emblem_quad(
        entry,
        (icon_x as int, icon_y as int),
        icon_size as int,
        tint,
    ));
}

/// A plain icon draws one quad, and one with an emblem that the atlas has draws three.
pub proof fn an_emblem_is_two_quads<T>(
    piece: IconPiece<T>,
    entry: AtlasEntry,
    plate: AtlasEntry,
    mark: AtlasEntry,
)
    ensures
        piece.emblem is None ==> icon_quads(piece, entry, Some(plate), Some(mark)).len() == 1,
        piece.emblem is Some ==> icon_quads(piece, entry, Some(plate), Some(mark)).len() == 3,
        piece.emblem is Some ==> icon_quads(piece, entry, None, None).len() == 1,
{
}

/// A badge: a ribbon, and the text on it.
#[derive(Clone, Copy, PartialEq, Eq, Debug)]
pub struct Badge {
    /// The ribbon.
    pub ribbon: Shape,
    /// The ribbon's colour.
    pub tint: Tint,
    /// Where the text starts.
    pub text_x: Micros,
    /// The text's baseline.
    pub baseline: Micros,
    /// How wide the text may be.
    pub max_width: Micros,
    /// The text's colour.
    pub text_tint: Tint,
}

/// How much of an icon is free for a badge: what the emblem's corner and a gap leave. The corner
/// is kept free even where there is no emblem, so that neighbouring cells agree.
pub open spec fn badge_room(icon_size: int, emblem_fraction: int) -> int {
    icon_size - times(icon_size, emblem_fraction + 60_000)
}

/// Whether an icon is large enough to carry a badge at all: two and a half times as tall as the
/// badge, and with some room beside the emblem's corner.
pub open spec fn carries_badge(icon_size: int, line: int, pad: int, emblem_fraction: int) -> bool {
    &&& icon_size >= times(line, 2_500_000)
    &&& badge_room(icon_size, emblem_fraction) > pad * 2
}

/// What an icon is badged with, if it is large enough: its file's extension, as it is written.
pub fn badge_text<'a>(
    name: &'a str,
    icon_size: Micros,
    line: Micros,
    tokens: &RowTokens,
    scale: Micros,
) -> (result: Option<&'a str>)
    requires
        tokens.sane(),
        0 <= icon_size <= 0xffff_ffff * 1_000_000,
        0 <= line <= 1_000_000_000_000,
        0 <= scale <= 1_000_000_000_000,
    ensures
        match result {
            Some(ext) => {
                &&& extension_text(name@, ext@)
                &&& carries_badge(
                    icon_size as int,
                    line as int,
                    times(tokens.space_xs as int, scale as int),
                    tokens.emblem_fraction as int,
                )
            },
            None => {
                ||| forall|at: int| !(#[trigger] extends_at(encode_utf8(name@), at))
                ||| !carries_badge(
                    icon_size as int,
                    line as int,
                    times(tokens.space_xs as int, scale as int),
                    tokens.emblem_fraction as int,
                )
            },
        },
{
    let ext: &str = match extension(name) {
        None => return None,
        Some(ext) => ext,
    };
    let pad: Micros = padding(tokens, scale);
    if icon_size < product(line, 2_500_000) {
        return None;
    }
    if room_of(icon_size, tokens) <= pad * 2 {
        return None;
    }
    Some(ext)
}

/// Padding at either end of a ribbon.
fn padding(tokens: &RowTokens, scale: Micros) -> (result: Micros)
    requires
        tokens.sane(),
        0 <= scale <= 1_000_000_000_000,
    ensures
        result == times(tokens.space_xs as int, scale as int),
        0 <= result <= 1_000_000_000_000_000_000,
{
    proof {
        let a = tokens.space_xs as int;
        let b = scale as int;
        assert(0 <= a * b <= 1_000_000_000_000_000_000_000_000) by (nonlinear_arith)
            requires
                0 <= a <= 1_000_000_000_000,
                0 <= b <= 1_000_000_000_000,
        ;
    }
    product(tokens.space_xs, scale)
}

/// How much of an icon is free for a badge.
fn room_of(icon_size: Micros, tokens: &RowTokens) -> (result: Micros)
    requires
        tokens.sane(),
        0 <= icon_size <= 0xffff_ffff * 1_000_000,
    ensures
        result == badge_room(icon_size as int, tokens.emblem_fraction as int),
        -0xffff_ffff * 1_000_000 <= result <= 0xffff_ffff * 1_000_000,
{
    proof {
        crate::units::times_is_bounded(icon_size as int, tokens.emblem_fraction + 60_000, 2);
    }
    icon_size - product(icon_size, tokens.emblem_fraction + 60_000)
}

/// The badge of an icon that carries one, for a text `text_width` wide. None where the text is too
/// wide: a badge is whole or it is not there.
pub open spec fn badge_of(
    icon_x: int,
    icon_y: int,
    icon_size: int,
    text_width: int,
    ascent: int,
    line: int,
    tokens: RowTokens,
    scale: int,
    hidden: bool,
) -> Option<Badge> {
    let pad = times(tokens.space_xs as int, scale);
    let width = text_width + pad * 2;
    if !carries_badge(icon_size, line, pad, tokens.emblem_fraction as int) || width > badge_room(
        icon_size,
        tokens.emblem_fraction as int,
    ) {
        None
    } else {
        let x = snapped_px(icon_x + icon_size - width);
        let y = snapped_px(icon_y + icon_size - line);
        Some(
            Badge {
                ribbon: Shape {
                    x: x as Micros,
                    y: y as Micros,
                    w: width as Micros,
                    h: line as Micros,
                    radius: times(tokens.radius_chip as int, max_of(scale, 100_000)) as Micros,
                },
                tint: ink(Token::Badge, hidden, false),
                text_x: (x + pad) as Micros,
                baseline: (y + ascent) as Micros,
                max_width: text_width as Micros,
                text_tint: ink(Token::BadgeText, hidden, false),
            },
        )
    }
}

/// Badge an icon at `(icon_x, icon_y)` with its file's extension, on a ribbon in its bottom right
/// corner, once the extension is measured.
pub fn draw_extension_badge(
    icon_x: Micros,
    icon_y: Micros,
    icon_size: Micros,
    text_width: Micros,
    ascent: Micros,
    line: Micros,
    tokens: &RowTokens,
    scale: Micros,
    hidden: bool,
) -> (result: Option<Badge>)
    requires
        tokens.sane(),
        -2_000_000_000_000_000_000_000_000_000 <= icon_x
            <= 2_000_000_000_000_000_000_000_000_000,
        -2_000_000_000_000_000_000_000_000_000 <= icon_y
            <= 2_000_000_000_000_000_000_000_000_000,
        0 <= icon_size <= 0xffff_ffff * 1_000_000,
        fits(text_width as int),
        fits(ascent as int),
        0 <= line <= 1_000_000_000_000,
        0 <= scale <= 1_000_000_000_000,
    ensures
        result == badge_of(
            icon_x as int,
            icon_y as int,
            icon_size as int,
            text_width as int,
            ascent as int,
            line as int,
            *tokens,
            scale as int,
            hidden,
        ),
{
    let pad: Micros = padding(tokens, scale);
    let room: Micros = room_of(icon_size, tokens);
    if icon_size < product(line, 2_500_000) || room <= pad * 2 {
        return None;
    }
    let width: Micros = text_width + pad * 2;
    if width > room {
        return None;
    }
    let x: Micros = round_px(icon_x + icon_size - width);
    let y: Micros = round_px(icon_y + icon_size - line);
    Some(
        Badge {
            ribbon: Shape {
                x,
                y,
                w: width,
                h: line,
                radius: product(
                    tokens.radius_chip,
                    if scale >= 100_000 {
                        scale
                    } else {
                        100_000
                    },
                ),
            },
            tint: fade(Token::Badge, hidden),
            text_x: x + pad,
            baseline: y + ascent,
            max_width: text_width,
            text_tint: fade(Token::BadgeText, hidden),
        },
    )
}

/// A badge never enters the corner that an emblem owns, on any icon of nine pixels or more.
pub proof fn a_badge_stays_out_of_the_emblems_corner(
    icon_x: int,
    icon_y: int,
    icon_size: int,
    text_width: int,
    ascent: int,
    line: int,
    tokens: RowTokens,
    scale: int,
    hidden: bool,
)
    requires
        badge_of(
            icon_x,
            icon_y,
            icon_size,
            text_width,
            ascent,
            line,
            tokens,
            scale,
            hidden,
        ) is Some,
        tokens.sane(),
        9_000_000 <= icon_size <= 0xffff_ffff * 1_000_000,
        -2_000_000_000_000_000_000_000_000_000 <= icon_x
            <= 2_000_000_000_000_000_000_000_000_000,
        fits(text_width),
        0 <= scale <= 1_000_000_000_000,
    ensures
        badge_of(
            icon_x,
            icon_y,
            icon_size,
            text_width,
            ascent,
            line,
            tokens,
            scale,
            hidden,
        )->0.ribbon.x >= icon_x + times(icon_size, tokens.emblem_fraction as int),
{
    let f = tokens.emblem_fraction as int;
    let pad = times(tokens.space_xs as int, scale);
    let width = text_width + pad * 2;
    assert(icon_size * (f + 60_000) == icon_size * f + icon_size * 60_000) by (nonlinear_arith);
    assert(times(icon_size, f + 60_000) >= times(icon_size, f) + 540_000);
    let at = icon_x + icon_size - width;
    assert(snapped_px(at) >= at - 500_000);
    let a = tokens.space_xs as int;
    assert(0 <= a * scale <= 1_000_000_000_000_000_000_000_000) by (nonlinear_arith)
        requires
            0 <= a <= 1_000_000_000_000,
            0 <= scale <= 1_000_000_000_000,
    ;
}

/// Where a line of text starts, once it is measured.
pub open spec fn line_start(align: Align, run_width: int, max_width: int) -> int {
    match align {
        Align::Left(x) => x as int,
        Align::Right(right) => max_of(right - run_width, right - max_width),
        Align::Centre { x, width } => x + (width - min_of(run_width, max_width)) / 2,
    }
}

/// Whether a line is put somewhere that can be computed with.
pub open spec fn is_placed(align: Align) -> bool {
    match align {
        Align::Left(x) => -1_000_000_000_000_000_000_000_000_000 <= x
            <= 1_000_000_000_000_000_000_000_000_000,
        Align::Right(right) => -1_000_000_000_000_000_000_000_000_000 <= right
            <= 1_000_000_000_000_000_000_000_000_000,
        Align::Centre { x, width } => -1_000_000_000_000_000_000_000_000_000 <= x
            <= 1_000_000_000_000_000_000_000_000_000 && 0 <= width <= 2_000_000_000_000_000_000,
    }
}

impl<T> TextPiece<T> {
    /// Where this line of text starts, once it is measured.
    pub fn start(&self, run_width: Micros) -> (result: Micros)
        requires
            fits(run_width as int),
            -2_000_000_000_000_000_000 <= self.max_width <= 2_000_000_000_000_000_000,
            is_placed(self.align),
        ensures
            result == line_start(self.align, run_width as int, self.max_width as int),
    {
        match self.align {
            Align::Left(x) => x,
            Align::Right(right) => crate::units::larger(
                right - run_width,
                right - self.max_width,
            ),
            Align::Centre { x, width } => x + floor_div(
                width - smaller(run_width, self.max_width),
                2,
            ),
        }
    }
}

/// A glyph that the atlas has, drawn from its pen; nothing for a blank.
pub open spec fn glyph_quad(
    entry: AtlasEntry,
    integer_x: int,
    baseline: int,
    tint: Tint,
) -> Option<Quad> {
    if entry.width == 0 || entry.height == 0 {
        None
    } else {
        Some(
            quad_at(
                entry,
                integer_x + entry.left * 1_000_000,
                baseline - entry.top * 1_000_000,
                tint,
            ),
        )
    }
}

/// Whether a pen or a baseline is somewhere that can be computed with.
pub open spec fn is_pen(x: int) -> bool {
    -1_000_000_000_000_000_000_000_000_000_000 <= x <= 1_000_000_000_000_000_000_000_000_000_000
}

/// Draw a glyph that the atlas has; nothing for a blank.
pub fn draw_glyph(entry: AtlasEntry, integer_x: Micros, baseline: Micros, tint: Tint) -> (result:
    Option<Quad>)
    requires
        is_pen(integer_x as int),
        is_pen(baseline as int),
    ensures
        result == glyph_quad(entry, integer_x as int, baseline as int, tint),
{
    if entry.width == 0 || entry.height == 0 {
        return None;
    }
    Some(
        Quad {
            x: integer_x + entry.left as i128 * MICRO,
            y: baseline - entry.top as i128 * MICRO,
            w: entry.width as i128 * MICRO,
            h: entry.height as i128 * MICRO,
            uv: entry.uv,
            tint,
        },
    )
}

/// What has been asked of the atlas this frame.
#[derive(Clone, Copy, PartialEq, Eq, Debug, Structural)]
pub enum IconSlot {
    /// Nothing yet.
    Unasked,
    /// It does not have it.
    Missing,
    /// It has it.
    Ready(AtlasEntry),
}

/// What is asked of the atlas.
#[derive(Clone, Copy, PartialEq, Eq, Debug, Structural)]
pub enum IconShape {
    /// A kind of icon.
    Kind(IconKind),
    /// An emblem.
    Emblem(Emblem),
}

/// What is asked of the atlas, and how large.
#[derive(Clone, Copy, PartialEq, Eq, Debug, Structural)]
pub struct IconKey {
    /// What.
    pub shape: IconShape,
    /// How large, in device pixels.
    pub px: u16,
}

/// One frame's icons: each kind is asked for at most once, however many rows show it.
#[derive(Debug)]
pub struct IconCache {
    px: u16,
    emblem_px: Option<u16>,
    slots: Vec<IconSlot>,
    emblem_slots: Vec<IconSlot>,
}

/// No slot asked for.
fn unasked(count: usize) -> (result: Vec<IconSlot>)
    ensures
        result@.len() == count,
        forall|i: int| 0 <= i < count ==> result@[i] == IconSlot::Unasked,
{
    let mut out: Vec<IconSlot> = Vec::new();
    let mut i: usize = 0;
    while i < count
        invariant
            i <= count,
            out@.len() == i,
            forall|j: int| 0 <= j < i ==> out@[j] == IconSlot::Unasked,
        decreases count - i,
    {
        out.push(IconSlot::Unasked);
        i = i + 1;
    }
    out
}

/// What is known of a slot, if it has been asked for.
pub open spec fn known(slot: IconSlot) -> Option<Option<AtlasEntry>> {
    match slot {
        IconSlot::Unasked => None,
        IconSlot::Missing => Some(None),
        IconSlot::Ready(entry) => Some(Some(entry)),
    }
}

/// What a slot holds once the atlas has answered.
pub open spec fn answered(entry: Option<AtlasEntry>) -> IconSlot {
    match entry {
        None => IconSlot::Missing,
        Some(entry) => IconSlot::Ready(entry),
    }
}

/// How large a frame's icons are, in device pixels. Icons that are too small to carry an emblem have
/// none.
#[derive(Clone, Copy, PartialEq, Eq, Debug, Structural)]
pub struct IconPx {
    /// An icon.
    pub icon: u16,
    /// An emblem.
    pub emblem: Option<u16>,
}

impl IconCache {
    #[verifier::type_invariant]
    spec fn well_formed(self) -> bool {
        &&& self.slots@.len() == ICON_KINDS
        &&& self.emblem_slots@.len() == EMBLEMS
    }

    /// The size of icons.
    pub closed spec fn size(self) -> u16 {
        self.px
    }

    /// The size of emblems, where icons are large enough to carry them.
    pub closed spec fn emblem_size(self) -> Option<u16> {
        self.emblem_px
    }

    /// What is known of the kinds.
    pub closed spec fn kinds(self) -> Seq<IconSlot> {
        self.slots@
    }

    /// What is known of the emblems.
    pub closed spec fn emblems(self) -> Seq<IconSlot> {
        self.emblem_slots@
    }

    /// Whether nothing has been asked for at these sizes.
    pub open spec fn is_fresh(self, icons: IconPx) -> bool {
        &&& self.size() == icons.icon
        &&& self.emblem_size() == icons.emblem
        &&& forall|i: int| 0 <= i < ICON_KINDS ==> self.kinds()[i] == IconSlot::Unasked
        &&& forall|i: int| 0 <= i < EMBLEMS ==> self.emblems()[i] == IconSlot::Unasked
    }

    /// A frame's icons at a size, with nothing asked for yet. `emblem_px` is none where an icon is
    /// too small to carry an emblem, and then none is ever asked for.
    pub fn for_px(px: u16, emblem_px: Option<u16>) -> (result: Self)
        ensures
            result.size() == px,
            result.emblem_size() == emblem_px,
            result.kinds().len() == ICON_KINDS,
            result.emblems().len() == EMBLEMS,
            forall|i: int| 0 <= i < ICON_KINDS ==> result.kinds()[i] == IconSlot::Unasked,
            forall|i: int| 0 <= i < EMBLEMS ==> result.emblems()[i] == IconSlot::Unasked,
    {
        IconCache {
            px,
            emblem_px,
            slots: unasked(ICON_KINDS),
            emblem_slots: unasked(EMBLEMS),
        }
    }

    /// What there is to ask the atlas for, if anything.
    pub fn wanted(&self, kind: IconKind) -> (result: Result<Option<AtlasEntry>, IconKey>)
        ensures
            match known(self.kinds()[kind.place()]) {
                Some(entry) => result == Ok::<Option<AtlasEntry>, IconKey>(entry),
                None => result == Err::<Option<AtlasEntry>, IconKey>(
                    IconKey { shape: IconShape::Kind(kind), px: self.size() },
                ),
            },
    {
        proof {
            use_type_invariant(self);
        }
        match self.slots[kind.index()] {
            IconSlot::Ready(entry) => Ok(Some(entry)),
            IconSlot::Missing => Ok(None),
            IconSlot::Unasked => Err(IconKey { shape: IconShape::Kind(kind), px: self.px }),
        }
    }

    /// Note what the atlas answered.
    pub fn told(&mut self, kind: IconKind, entry: Option<AtlasEntry>)
        ensures
            final(self).kinds() == old(self).kinds().update(kind.place(), answered(entry)),
            final(self).emblems() == old(self).emblems(),
            final(self).size() == old(self).size(),
            final(self).emblem_size() == old(self).emblem_size(),
    {
        proof {
            use_type_invariant(&*self);
        }
        let mut slots: Vec<IconSlot> = unasked(ICON_KINDS);
        std::mem::swap(&mut slots, &mut self.slots);
        slots.set(
            kind.index(),
            match entry {
                Some(entry) => IconSlot::Ready(entry),
                None => IconSlot::Missing,
            },
        );
        self.slots = slots;
    }

    /// What there is to ask the atlas for, if anything. An emblem that icons are too small for is
    /// not asked for: that is a decision, and no failure of the atlas.
    pub fn wanted_emblem(&self, emblem: Emblem) -> (result: Result<Option<AtlasEntry>, IconKey>)
        ensures
            match self.emblem_size() {
                None => result == Ok::<Option<AtlasEntry>, IconKey>(None),
                Some(px) => match known(self.emblems()[emblem.place()]) {
                    Some(entry) => result == Ok::<Option<AtlasEntry>, IconKey>(entry),
                    None => result == Err::<Option<AtlasEntry>, IconKey>(
                        IconKey { shape: IconShape::Emblem(emblem), px },
                    ),
                },
            },
    {
        proof {
            use_type_invariant(self);
        }
        let px: u16 = match self.emblem_px {
            None => return Ok(None),
            Some(px) => px,
        };
        match self.emblem_slots[emblem.index()] {
            IconSlot::Ready(entry) => Ok(Some(entry)),
            IconSlot::Missing => Ok(None),
            IconSlot::Unasked => Err(IconKey { shape: IconShape::Emblem(emblem), px }),
        }
    }

    /// Note what the atlas answered.
    pub fn told_emblem(&mut self, emblem: Emblem, entry: Option<AtlasEntry>)
        ensures
            final(self).emblems() == old(self).emblems().update(emblem.place(), answered(entry)),
            final(self).kinds() == old(self).kinds(),
            final(self).size() == old(self).size(),
            final(self).emblem_size() == old(self).emblem_size(),
    {
        proof {
            use_type_invariant(&*self);
        }
        let mut slots: Vec<IconSlot> = unasked(EMBLEMS);
        std::mem::swap(&mut slots, &mut self.emblem_slots);
        slots.set(
            emblem.index(),
            match entry {
                Some(entry) => IconSlot::Ready(entry),
                None => IconSlot::Missing,
            },
        );
        self.emblem_slots = slots;
    }
}

/// Once the atlas has answered for a kind, that answer is known and is not asked for again.
pub proof fn an_icon_is_asked_for_once(slots: Seq<IconSlot>, place: int, entry: Option<AtlasEntry>)
    requires
        0 <= place < slots.len(),
    ensures
        known(slots.update(place, answered(entry))[place]) == Some(entry),
        forall|i: int|
            0 <= i < slots.len() && i != place ==> #[trigger] slots.update(place, answered(entry))[i]
                == slots[i],
{
}

/// What is snapped lies on a whole pixel, no whole pixel is nearer, and of two that are as near it
/// is the one that is further from zero.
pub proof fn the_nearest_pixel_is_taken(x: int)
    ensures
        snapped_px(x) % 1_000_000 == 0,
        x - 500_000 <= snapped_px(x) <= x + 500_000,
        snapped_px(-x) == -snapped_px(x),
        x >= 0 ==> snapped_px(x) > x - 500_000,
{
}

/// An icon is drawn in the middle of its slot, to the nearest whole pixel, and as large as the atlas
/// has it.
pub proof fn an_icon_is_in_the_middle_of_its_slot<T>(
    piece: IconPiece<T>,
    entry: AtlasEntry,
    plate: Option<AtlasEntry>,
    mark: Option<AtlasEntry>,
)
    requires
        piece.is_near(),
    ensures
        icon_quads(piece, entry, plate, mark).len() > 0,
        ({
            let icon = icon_quads(piece, entry, plate, mark)[0];
            let left = icon.x - piece.x;
            let right = piece.x + piece.w - (icon.x + icon.w);
            let above = icon.y - piece.y;
            let below = piece.y + piece.h - (icon.y + entry.width * 1_000_000);
            &&& -1_000_002 <= left - right <= 1_000_002
            &&& -1_000_002 <= above - below <= 1_000_002
            &&& icon.x % 1_000_000 == 0
            &&& icon.y % 1_000_000 == 0
            &&& icon.w == entry.width * 1_000_000
            &&& icon.h == entry.height * 1_000_000
            &&& icon.uv == entry.uv
            &&& icon.tint == piece.tint
        }),
{
    let size = entry.width * 1_000_000;
    let x = piece.x + (piece.w - size) / 2;
    let y = piece.y + (piece.h - size) / 2;
    the_nearest_pixel_is_taken(x);
    the_nearest_pixel_is_taken(y);
    let icon = quad_at(entry, snapped_px(x), snapped_px(y), piece.tint);
    assert(icon_quads(piece, entry, plate, mark)[0] == icon);
    assert(icon.x == snapped_px(x) && icon.y == snapped_px(y));
}

/// An emblem stands in the bottom left corner of its icon: first the plate, in the colour of the
/// ground, and on it the mark.
pub proof fn an_emblem_is_in_the_corner_of_its_icon<T>(
    piece: IconPiece<T>,
    entry: AtlasEntry,
    plate: AtlasEntry,
    mark: AtlasEntry,
)
    requires
        piece.is_near(),
        piece.emblem is Some,
    ensures
        ({
            let quads = icon_quads(piece, entry, Some(plate), Some(mark));
            &&& quads.len() == 3
            &&& forall|i: int|
                1 <= i <= 2 ==> {
                    &&& (#[trigger] quads[i]).x == quads[0].x
                    &&& quads[i].y + quads[i].w == quads[0].y + quads[0].w
                }
            &&& quads[1].uv == plate.uv
            &&& quads[1].w == plate.width * 1_000_000
            &&& quads[1].h == plate.height * 1_000_000
            &&& quads[1].tint.token == Token::Ground
            &&& quads[2].uv == mark.uv
            &&& quads[2].w == mark.width * 1_000_000
            &&& quads[2].h == mark.height * 1_000_000
            &&& quads[2].tint.token == Token::Secondary
            &&& quads[1].tint.opacity == quads[2].tint.opacity
            &&& quads[1].tint.opacity matches Opacity::Times(factor) && 0 < factor <= 1_000_000 && (
            piece.hidden <==> factor < 1_000_000)
        }),
{
    let size = entry.width * 1_000_000;
    let corner = icon_corner(piece, size);
    let x = piece.x + (piece.w - size) / 2;
    let y = piece.y + (piece.h - size) / 2;
    the_nearest_pixel_is_taken(x);
    the_nearest_pixel_is_taken(y);
    assert(snapped_px(corner.0) == corner.0);
    lemma_whole_pixels_stay(corner.1, (entry.width - plate.width) as int);
    lemma_whole_pixels_stay(corner.1, (entry.width - mark.width) as int);
}

proof fn lemma_whole_pixels_stay(y: int, pixels: int)
    requires
        y % 1_000_000 == 0,
    ensures
        snapped_px(y + pixels * 1_000_000) == y + pixels * 1_000_000,
{
}

/// A badge is set into the bottom right corner of its icon, to the nearest whole pixel. The ribbon
/// is as wide as the text and its padding, and the text stands between the paddings, on the
/// ribbon's own line.
pub proof fn a_badge_is_in_the_corner_of_its_icon(
    icon_x: int,
    icon_y: int,
    icon_size: int,
    text_width: int,
    ascent: int,
    line: int,
    tokens: RowTokens,
    scale: int,
    hidden: bool,
)
    requires
        tokens.sane(),
        -2_000_000_000_000_000_000_000_000_000 <= icon_x
            <= 2_000_000_000_000_000_000_000_000_000,
        -2_000_000_000_000_000_000_000_000_000 <= icon_y
            <= 2_000_000_000_000_000_000_000_000_000,
        0 <= icon_size <= 0xffff_ffff * 1_000_000,
        fits(text_width),
        fits(ascent),
        0 <= line <= 1_000_000_000_000,
        0 <= scale <= 1_000_000_000_000,
    ensures
        badge_of(icon_x, icon_y, icon_size, text_width, ascent, line, tokens, scale, hidden) matches Some(
            badge,
        ) ==> {
            let right = badge.ribbon.x + badge.ribbon.w;
            let bottom = badge.ribbon.y + badge.ribbon.h;
            &&& icon_x + icon_size - 500_000 <= right <= icon_x + icon_size + 500_000
            &&& icon_y + icon_size - 500_000 <= bottom <= icon_y + icon_size + 500_000
            &&& badge.ribbon.x % 1_000_000 == 0
            &&& badge.ribbon.y % 1_000_000 == 0
            &&& badge.ribbon.h == line
            &&& badge.text_x - badge.ribbon.x == right - (badge.text_x + text_width)
            &&& badge.text_x - badge.ribbon.x == times(tokens.space_xs as int, scale)
            &&& badge.max_width == text_width
            &&& badge.baseline - badge.ribbon.y == ascent
            &&& badge.tint.token == Token::Badge
            &&& badge.text_tint.token == Token::BadgeText
            &&& badge.tint.opacity == badge.text_tint.opacity
            &&& badge.tint.opacity matches Opacity::Times(factor) && 0 < factor <= 1_000_000 && (
            hidden <==> factor < 1_000_000)
            &&& 5 * line / 2 <= icon_size
            &&& badge.ribbon.w + icon_size * (tokens.emblem_fraction + 60_000) / 1_000_000
                <= icon_size + 1
        },
{
    let pad = times(tokens.space_xs as int, scale);
    let a = tokens.space_xs as int;
    assert(0 <= a * scale <= 1_000_000_000_000_000_000_000_000) by (nonlinear_arith)
        requires
            0 <= a <= 1_000_000_000_000,
            0 <= scale <= 1_000_000_000_000,
    ;
    let width = text_width + pad * 2;
    the_nearest_pixel_is_taken(icon_x + icon_size - width);
    the_nearest_pixel_is_taken(icon_y + icon_size - line);
}

/// Where a badge fits, every narrower text has one too.
pub proof fn narrower_badges_fit_too(
    icon_x: int,
    icon_y: int,
    icon_size: int,
    text_width: int,
    narrower: int,
    ascent: int,
    line: int,
    tokens: RowTokens,
    scale: int,
    hidden: bool,
)
    requires
        narrower <= text_width,
        badge_of(
            icon_x,
            icon_y,
            icon_size,
            text_width,
            ascent,
            line,
            tokens,
            scale,
            hidden,
        ) is Some,
    ensures
        badge_of(
            icon_x,
            icon_y,
            icon_size,
            narrower,
            ascent,
            line,
            tokens,
            scale,
            hidden,
        ) is Some,
{
}

/// A line that starts at a place starts there; one that ends at a place ends there, or fills all the
/// room there is before it; one in the middle has as much room before it as behind it.
pub proof fn a_line_stands_where_it_is_aligned(
    align: Align,
    run_width: int,
    max_width: int,
    drawn: int,
)
    requires
        drawn == if run_width < max_width {
            run_width
        } else {
            max_width
        },
    ensures
        match align {
            Align::Left(x) => line_start(align, run_width, max_width) == x,
            Align::Right(right) => line_start(align, run_width, max_width) + drawn == right,
            Align::Centre { x, width } => {
                let before = line_start(align, run_width, max_width) - x;
                let behind = x + width - (line_start(align, run_width, max_width) + drawn);
                before <= behind <= before + 1
            },
        },
{
}

/// A glyph is drawn with its own picture at its own size, as far from the pen and as far above the
/// baseline as it says; only a blank is not drawn.
pub proof fn a_glyph_is_drawn_from_its_pen(
    entry: AtlasEntry,
    integer_x: int,
    baseline: int,
    tint: Tint,
)
    requires
        is_pen(integer_x),
        is_pen(baseline),
    ensures
        glyph_quad(entry, integer_x, baseline, tint) is None <==> entry.width == 0 || entry.height
            == 0,
        glyph_quad(entry, integer_x, baseline, tint) matches Some(quad) ==> {
            &&& quad.x - integer_x == entry.left * 1_000_000
            &&& baseline - quad.y == entry.top * 1_000_000
            &&& quad.w == entry.width * 1_000_000
            &&& quad.h == entry.height * 1_000_000
            &&& quad.uv == entry.uv
            &&& quad.tint == tint
        },
{
}

/// What the atlas answers for one kind of icon or one emblem is not taken for another's.
pub proof fn answers_are_kept_apart(a: IconKind, b: IconKind, p: Emblem, q: Emblem)
    ensures
        a != b ==> a.place() != b.place(),
        p != q ==> p.place() != q.place(),
        0 <= a.place() < ICON_KINDS,
        0 <= p.place() < EMBLEMS,
{
}

} // verus!
