//! What a frame is made of: shapes, icons and lines of text, in the order they are drawn.

use crate::material::compile::Instance;
use crate::material::{Shape, Surface};
use crate::row::geometry::RowTokens;
use crate::row::ink::{Emblem, IconKind, Opacity, Tint, Token};
use crate::row::renderer::ResolvedRole;
use crate::units::{larger, max_of, product, times, Micros, MICRO};
use vstd::prelude::*;

verus! {

/// Where a line of text starts.
#[derive(Clone, Copy, PartialEq, Eq, Debug, Structural)]
pub enum Align {
    /// It starts here.
    Left(Micros),
    /// It ends here, and starts no further left than it may be wide. It is never cut.
    Right(Micros),
    /// It is centred on a band, as wide as it may be.
    Centre {
        /// Left edge of the band.
        x: Micros,
        /// Width of the band.
        width: Micros,
    },
}

/// Which face and size a line of text is set in.
#[derive(Clone, Copy, PartialEq, Eq, Debug, Structural)]
pub enum Face {
    /// A row's name.
    Name,
    /// A row's name on a panel, which is bolder: thin strokes do not carry on a bright ground.
    Bold,
    /// What else a row says, and a cell's label.
    Meta,
    /// A role that a line of no row is set in.
    Role(ResolvedRole),
}

/// One line of text.
#[derive(Clone, Copy, PartialEq, Eq, Debug)]
pub struct TextPiece<T> {
    /// What it says.
    pub text: T,
    /// Where it starts.
    pub align: Align,
    /// Its baseline.
    pub baseline: Micros,
    /// How wide it may be.
    pub max_width: Micros,
    /// Its face.
    pub face: Face,
    /// Whether its figures are all as wide as each other.
    pub tabular: bool,
    /// Its colour.
    pub tint: Tint,
    /// Whether it is cut in the middle, to keep a file name's extension.
    pub middle_ellipsis: bool,
}

/// One icon, centred in its slot.
#[derive(Clone, Copy, PartialEq, Eq, Debug)]
pub struct IconPiece<T> {
    /// Which icon.
    pub kind: IconKind,
    /// Left edge of its slot.
    pub x: Micros,
    /// Top edge of its slot.
    pub y: Micros,
    /// Width of its slot.
    pub w: Micros,
    /// Height of its slot.
    pub h: Micros,
    /// Its colour.
    pub tint: Tint,
    /// What is laid over its corner.
    pub emblem: Option<Emblem>,
    /// The file name whose extension it is badged with.
    pub badge: Option<T>,
    /// Whether what is laid over it is dimmed too.
    pub hidden: bool,
}

/// One thing that is drawn.
#[derive(Clone, Copy, PartialEq, Eq, Debug)]
pub enum Piece<T> {
    /// A primitive of a material.
    Painted(Instance),
    /// A flat rounded rectangle.
    Block {
        /// Where.
        shape: Shape,
        /// Its colour.
        tint: Tint,
    },
    /// An inside-aligned stroke.
    Ring {
        /// Where.
        shape: Shape,
        /// How wide.
        width: Micros,
        /// Its colour.
        tint: Tint,
    },
    /// An icon.
    Icon(IconPiece<T>),
    /// A line of text.
    Text(TextPiece<T>),
    /// Where surfaces end and content begins.
    Seam,
}

/// A text piece as a plain value.
pub open spec fn text_seen(piece: TextPiece<String>) -> TextPiece<Seq<char>> {
    TextPiece {
        text: piece.text@,
        align: piece.align,
        baseline: piece.baseline,
        max_width: piece.max_width,
        face: piece.face,
        tabular: piece.tabular,
        tint: piece.tint,
        middle_ellipsis: piece.middle_ellipsis,
    }
}

/// An icon piece as a plain value.
pub open spec fn icon_seen(piece: IconPiece<String>) -> IconPiece<Seq<char>> {
    IconPiece {
        kind: piece.kind,
        x: piece.x,
        y: piece.y,
        w: piece.w,
        h: piece.h,
        tint: piece.tint,
        emblem: piece.emblem,
        badge: match piece.badge {
            Some(name) => Some(name@),
            None => None,
        },
        hidden: piece.hidden,
    }
}

/// A piece as a plain value.
pub open spec fn seen(piece: Piece<String>) -> Piece<Seq<char>> {
    match piece {
        Piece::Painted(instance) => Piece::Painted(instance),
        Piece::Block { shape, tint } => Piece::Block { shape, tint },
        Piece::Ring { shape, width, tint } => Piece::Ring { shape, width, tint },
        Piece::Icon(icon) => Piece::Icon(icon_seen(icon)),
        Piece::Text(text) => Piece::Text(text_seen(text)),
        Piece::Seam => Piece::Seam,
    }
}

/// Pieces as plain values.
pub open spec fn all_seen(pieces: Seq<Piece<String>>) -> Seq<Piece<Seq<char>>> {
    pieces.map_values(|p: Piece<String>| seen(p))
}

/// The primitives of a material, as pieces.
pub open spec fn as_pieces(instances: Seq<Instance>) -> Seq<Piece<Seq<char>>> {
    instances.map_values(|i: Instance| Piece::Painted(i))
}

/// Add a piece.
pub fn put(out: &mut Vec<Piece<String>>, piece: Piece<String>)
    ensures
        all_seen(final(out)@) == all_seen(old(out)@).push(seen(piece)),
{
    out.push(piece);
    assert(all_seen(out@) =~= all_seen(old(out)@).push(seen(piece)));
}

/// Add the primitives of a material.
pub fn put_all(out: &mut Vec<Piece<String>>, instances: &Vec<Instance>)
    ensures
        all_seen(final(out)@) == all_seen(old(out)@) + as_pieces(instances@),
{
    let mut i: usize = 0;
    assert(instances@.take(0) =~= Seq::empty());
    assert(all_seen(out@) =~= all_seen(old(out)@) + as_pieces(instances@.take(0)));
    while i < instances.len()
        invariant
            i <= instances@.len(),
            all_seen(out@) == all_seen(old(out)@) + as_pieces(instances@.take(i as int)),
        decreases instances@.len() - i,
    {
        put(out, Piece::Painted(instances[i]));
        proof {
            let next = instances@.take(i as int + 1);
            assert(as_pieces(next) =~= as_pieces(instances@.take(i as int)).push(
                Piece::Painted(instances@[i as int]),
            ));
            assert(all_seen(out@) =~= all_seen(old(out)@) + as_pieces(next));
        }
        i = i + 1;
    }
    assert(instances@.take(i as int) =~= instances@);
}

/// A colour as it is.
pub open spec fn plain(token: Token) -> Tint {
    Tint { token, opacity: Opacity::Times(1_000_000) }
}

/// The focus indicator: a contrasting outline, and the ring inside of it.
pub open spec fn focus_ring(shape: Surface, ring: int, outline: int) -> Seq<Piece<Seq<char>>> {
    seq![
        Piece::Ring {
            shape: Shape { x: shape.x, y: shape.y, w: shape.w, h: shape.h, radius: shape.radius },
            width: (ring + outline * 2) as Micros,
            tint: plain(Token::FocusOutline),
        },
        Piece::Ring {
            shape: Shape {
                x: (shape.x + outline) as Micros,
                y: (shape.y + outline) as Micros,
                w: max_of(shape.w - outline * 2, 1_000_000) as Micros,
                h: max_of(shape.h - outline * 2, 1_000_000) as Micros,
                radius: max_of(shape.radius - outline, 0) as Micros,
            },
            width: ring as Micros,
            tint: plain(Token::Focus),
        },
    ]
}

/// Draw the focus indicator around a shape. The outline is drawn first and larger, so that the
/// ring paints over its inner edge and the pair reads as one.
pub fn draw_focus(shape: Surface, tokens: &RowTokens, scale: Micros, out: &mut Vec<Piece<String>>)
    requires
        tokens.sane(),
        0 <= scale <= 1_000_000_000_000,
        shape.sane(),
    ensures
        all_seen(final(out)@) == all_seen(old(out)@) + focus_ring(
            shape,
            times(tokens.ring_width as int, scale as int),
            times(tokens.outline_width as int, scale as int),
        ),
{
    proof {
        lemma_scaled(tokens.ring_width as int, scale as int);
        lemma_scaled(tokens.outline_width as int, scale as int);
    }
    let ring: Micros = product(tokens.ring_width, scale);
    let outline: Micros = product(tokens.outline_width, scale);
    let whole: Tint = Tint { token: Token::FocusOutline, opacity: Opacity::Times(MICRO) };
    put(
        out,
        Piece::Ring {
            shape: Shape { x: shape.x, y: shape.y, w: shape.w, h: shape.h, radius: shape.radius },
            width: ring + outline * 2,
            tint: whole,
        },
    );
    put(
        out,
        Piece::Ring {
            shape: Shape {
                x: shape.x + outline,
                y: shape.y + outline,
                w: larger(shape.w - outline * 2, MICRO),
                h: larger(shape.h - outline * 2, MICRO),
                radius: larger(shape.radius - outline, 0),
            },
            width: ring,
            tint: Tint { token: Token::Focus, opacity: Opacity::Times(MICRO) },
        },
    );
    assert(all_seen(out@) =~= all_seen(old(out)@) + focus_ring(shape, ring as int, outline as int));
}

proof fn lemma_scaled(a: int, b: int)
    requires
        0 <= a <= 1_000_000_000_000,
        0 <= b <= 1_000_000_000_000,
    ensures
        0 <= times(a, b) <= 1_000_000_000_000_000_000,
{
    assert(0 <= a * b <= 1_000_000_000_000_000_000_000_000) by (nonlinear_arith)
        requires
            0 <= a <= 1_000_000_000_000,
            0 <= b <= 1_000_000_000_000,
    ;
}

} // verus!
