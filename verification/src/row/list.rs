//! The content of one row: its focus ring, its icon, its name, and what else it says.

use crate::mark::{words_for, SessionMark};
use crate::material::{Shape, Surface};
use crate::row::format::{format_mtime, format_size, is_stamp, size_text, time_text};
use crate::row::geometry::{Columns, RowTokens, StateRegion};
use crate::row::ink::{
    fade, fade_on, icon_tint, icon_token, ink, kind_label, kind_of, kind_text, picture, Emblem,
    Opacity, Tint, Token,
};
use crate::row::piece::{
    all_seen, draw_focus, focus_ring, put, Align, Face, IconPiece, Piece, TextPiece,
};
use crate::row::Interaction;
use crate::row_source::{
    LoadState, RowFlags, RowView, DIR_BIT, FOCUSED_BIT, HIDDEN_BIT, HOVERED_BIT, SELECTED_BIT,
    SYMLINK_BIT,
};
use crate::text;
use crate::units::{larger, max_of, product, times, Micros, MICRO};
use vstd::prelude::*;

verus! {

/// What all rows of a list share for one frame.
#[derive(Clone, Copy, PartialEq, Eq, Debug, Structural)]
pub struct Page {
    /// What the design system says.
    pub tokens: RowTokens,
    /// The columns.
    pub columns: Columns,
    /// Where a row's state is drawn.
    pub region: StateRegion,
    /// Device pixel ratio, never nothing.
    pub scale: Micros,
    /// Physical pixels per row.
    pub row_height: u32,
    /// From a row's top edge down to its baseline.
    pub baseline: Micros,
    /// Whether the rows are lit, so that a selected one is a lamp.
    pub lit: bool,
}

impl Page {
    /// Every length is small enough to compute with.
    pub open spec fn sane(self) -> bool {
        &&& self.tokens.sane()
        &&& self.columns.sane()
        &&& self.region.sane()
        &&& 100_000 <= self.scale <= 1_000_000_000_000
        &&& -10_000_000_000_000_000_000 <= self.baseline <= 10_000_000_000_000_000_000
    }

    /// Height of a row.
    pub open spec fn height(self) -> int {
        self.row_height * 1_000_000
    }

    /// Where the state of a row at `top` is drawn, while it is not pressed.
    pub open spec fn state_at(self, top: int) -> Surface {
        self.region.pressed_in(top, self.scale as int, 0)
    }
}

/// Whether a row's top edge is one that can be computed with.
pub open spec fn is_near(top: int) -> bool {
    -100_000_000_000_000_000_000_000_000 <= top <= 100_000_000_000_000_000_000_000_000
}

/// A row's inks. A selected row is a coloured object and a lit one is a light; neither takes the
/// ordinary ink.
pub open spec fn inks(selected: bool, lit: bool) -> (Token, Token, Token) {
    if lit && selected {
        (Token::OnLit, Token::OnLit, Token::OnLit)
    } else if selected {
        (Token::OnAccent, Token::OnAccent, Token::OnAccent)
    } else {
        (Token::Primary, Token::Secondary, Token::Tertiary)
    }
}

/// A row's inks.
fn inks_for(selected: bool, lit: bool) -> (result: (Token, Token, Token))
    ensures
        result == inks(selected, lit),
{
    if lit && selected {
        (Token::OnLit, Token::OnLit, Token::OnLit)
    } else if selected {
        (Token::OnAccent, Token::OnAccent, Token::OnAccent)
    } else {
        (Token::Primary, Token::Secondary, Token::Tertiary)
    }
}

/// The focus indicator, on the shape that the state of the row has.
pub open spec fn focus_part(page: Page, flags: RowFlags, top: int) -> Seq<Piece<Seq<char>>> {
    if flags.has(FOCUSED_BIT) {
        focus_ring(
            page.state_at(top),
            times(page.tokens.ring_width as int, page.scale as int),
            times(page.tokens.outline_width as int, page.scale as int),
        )
    } else {
        Seq::empty()
    }
}

/// The icon: in the row's ink on a panel, and else in its own.
pub open spec fn icon_part(page: Page, row: RowView, selected: bool, top: int) -> Seq<
    Piece<Seq<char>>,
> {
    let token = if selected {
        inks(selected, page.lit).0
    } else {
        icon_token(row)
    };
    let hidden = row.flags.has(HIDDEN_BIT);
    seq![
        Piece::Icon(
            IconPiece {
                kind: picture(row),
                x: page.columns.icon_at() as Micros,
                y: top as Micros,
                w: page.columns.icon,
                h: page.height() as Micros,
                tint: ink(token, hidden, page.lit && selected),
                emblem: if row.flags.has(SYMLINK_BIT) {
                    Some(Emblem::Symlink)
                } else {
                    None
                },
                badge: None::<Seq<char>>,
                hidden,
            },
        ),
    ]
}

/// The name, bolder on a panel, and cut in the middle where it is too long.
pub open spec fn name_part(
    page: Page,
    row: RowView,
    name: Seq<char>,
    selected: bool,
    top: int,
) -> Seq<Piece<Seq<char>>> {
    seq![
        Piece::Text(
            TextPiece {
                text: name,
                align: Align::Left(page.columns.name_at() as Micros),
                baseline: (top + page.baseline) as Micros,
                max_width: page.columns.name,
                face: if selected {
                    Face::Bold
                } else {
                    Face::Name
                },
                tabular: false,
                tint: ink(
                    inks(selected, page.lit).0,
                    row.flags.has(HIDDEN_BIT),
                    page.lit && selected,
                ),
                middle_ellipsis: true,
            },
        ),
    ]
}

/// A bar where something will be, if it is to be anywhere.
pub open spec fn bar(x: int, y: int, w: int, h: int) -> Seq<Piece<Seq<char>>> {
    if w > 0 {
        seq![
            Piece::Block {
                shape: Shape {
                    x: x as Micros,
                    y: y as Micros,
                    w: w as Micros,
                    h: h as Micros,
                    radius: (h / 2) as Micros,
                },
                tint: Tint { token: Token::Tertiary, opacity: Opacity::Exactly(220_000) },
            },
        ]
    } else {
        Seq::empty()
    }
}

/// What a stub draws for its metadata: bars where it will be, so that nothing moves when it
/// comes. A list without metadata promises none.
pub open spec fn stub_part(page: Page, top: int) -> Seq<Piece<Seq<char>>> {
    let h = max_of(times(page.height(), 280_000), 2_000_000);
    let y = top + (page.height() - h) / 2;
    let c = page.columns;
    if c.metadata {
        bar(c.size_at(), y, times(c.size as int, 700_000), h) + bar(
            c.modified_at(),
            y,
            times(c.modified as int, 850_000),
            h,
        ) + bar(c.kind_at(), y, times(c.kind as int, 600_000), h)
    } else {
        Seq::empty()
    }
}

/// Text at the right edge of the size column.
pub open spec fn size_piece(page: Page, text: Seq<char>, top: int, tint: Tint) -> Piece<Seq<char>> {
    Piece::Text(
        TextPiece {
            text,
            align: Align::Right((page.columns.size_at() + page.columns.size) as Micros),
            baseline: (top + page.baseline) as Micros,
            max_width: page.columns.size,
            face: Face::Meta,
            tabular: true,
            tint,
            middle_ellipsis: false,
        },
    )
}

/// The rail of a row.
pub open spec fn rail_piece(page: Page, top: int, tint: Tint) -> Piece<Seq<char>> {
    let state = page.state_at(top);
    let inset = times(state.h as int, 220_000);
    let w = max_of(page.columns.rail as int, 1_000_000);
    Piece::Block {
        shape: Shape {
            x: page.columns.rail_at() as Micros,
            y: (state.y + inset) as Micros,
            w: w as Micros,
            h: max_of(state.h - inset * 2, 1_000_000) as Micros,
            radius: (w / 2) as Micros,
        },
        tint,
    }
}

/// How many sessions are filed under a folder, in the slot that a folder leaves empty: in
/// ordinary ink where a shell vouched for being there, and muted where none did. An outcome has a
/// rail; an arrival that is not over has one too, where there is no outcome.
pub open spec fn mark_part(
    page: Page,
    row: RowView,
    mark: Option<SessionMark>,
    selected: bool,
    top: int,
) -> Seq<Piece<Seq<char>>> {
    let hidden = row.flags.has(HIDDEN_BIT);
    let lamp = page.lit && selected;
    match mark {
        None => Seq::empty(),
        Some(mark) => {
            let token = if mark.is_vouched() {
                inks(selected, page.lit).1
            } else {
                inks(selected, page.lit).2
            };
            let count = seq![
                size_piece(page, words_for(mark.sessions()), top, ink(token, hidden, lamp)),
            ];
            match mark.rail_token() {
                Some(rail) => count.push(
                    rail_piece(page, top, ink(Token::Rail(rail), hidden, false)),
                ),
                None => match mark.flash() {
                    Some(flash) => count.push(
                        rail_piece(
                            page,
                            top,
                            Tint {
                                token: Token::Focus,
                                opacity: Opacity::Times(
                                    times(
                                        if hidden {
                                            550_000
                                        } else {
                                            1_000_000
                                        },
                                        flash as int,
                                    ) as Micros,
                                ),
                            },
                        ),
                    ),
                    None => count,
                },
            }
        },
    }
}

/// The time of its last change, and its kind.
pub open spec fn rest_part(page: Page, row: RowView, selected: bool, top: int) -> Seq<
    Piece<Seq<char>>,
> {
    let hidden = row.flags.has(HIDDEN_BIT);
    let lamp = page.lit && selected;
    seq![
        Piece::Text(
            TextPiece {
                text: time_text(row.mtime as int),
                align: Align::Left(page.columns.modified_at() as Micros),
                baseline: (top + page.baseline) as Micros,
                max_width: page.columns.modified,
                face: Face::Meta,
                tabular: true,
                tint: ink(inks(selected, page.lit).1, hidden, lamp),
                middle_ellipsis: false,
            },
        ),
        Piece::Text(
            TextPiece {
                text: kind_text(row),
                align: Align::Left(page.columns.kind_at() as Micros),
                baseline: (top + page.baseline) as Micros,
                max_width: page.columns.kind,
                face: Face::Meta,
                tabular: false,
                tint: ink(inks(selected, page.lit).2, hidden, lamp),
                middle_ellipsis: false,
            },
        ),
    ]
}

/// What a row says beside its name, once it is loaded.
pub open spec fn metadata_part(
    page: Page,
    row: RowView,
    mark: Option<SessionMark>,
    selected: bool,
    top: int,
) -> Seq<Piece<Seq<char>>> {
    let hidden = row.flags.has(HIDDEN_BIT);
    if !page.columns.metadata {
        Seq::empty()
    } else if row.flags.has(DIR_BIT) {
        mark_part(page, row, mark, selected, top) + rest_part(page, row, selected, top)
    } else {
        seq![
            size_piece(
                page,
                size_text(row.size),
                top,
                ink(inks(selected, page.lit).1, hidden, page.lit && selected),
            ),
        ] + rest_part(page, row, selected, top)
    }
}

/// The content of a row: its focus ring, its icon, its name, and then its metadata, or bars where
/// a stub's metadata will be.
pub open spec fn row_content(
    page: Page,
    row: RowView,
    name: Seq<char>,
    flags: RowFlags,
    mark: Option<SessionMark>,
    top: int,
) -> Seq<Piece<Seq<char>>> {
    let selected = flags.has(SELECTED_BIT);
    focus_part(page, flags, top) + icon_part(page, row, selected, top) + name_part(
        page,
        row,
        name,
        selected,
        top,
    ) + if row.state == LoadState::Stub {
        stub_part(page, top)
    } else {
        metadata_part(page, row, mark, selected, top)
    }
}

/// A row's attributes and its state.
pub open spec fn shown_flags(row: RowView, interaction: Interaction<'_>, index: u64) -> RowFlags {
    RowFlags(row.flags.0 | interaction.state_bits(index))
}

/// The sessions filed under a row.
pub open spec fn mark_of(interaction: Interaction<'_>, index: u64) -> Option<SessionMark> {
    match interaction.marks {
        Some(marks) => crate::mark::first_mark(marks@, index),
        None => None,
    }
}

/// Add a bar, if there is anything to it.
fn put_bar(x: Micros, y: Micros, w: Micros, h: Micros, out: &mut Vec<Piece<String>>)
    requires
        h >= 0,
    ensures
        all_seen(final(out)@) == all_seen(old(out)@) + bar(x as int, y as int, w as int, h as int),
{
    if w > 0 {
        put(
            out,
            Piece::Block {
                shape: Shape { x, y, w, h, radius: h / 2 },
                tint: Tint { token: Token::Tertiary, opacity: Opacity::Exactly(220_000) },
            },
        );
    }
    assert(all_seen(out@) =~= all_seen(old(out)@) + bar(x as int, y as int, w as int, h as int));
}

/// Add the bars where a stub's metadata will be.
fn draw_stub(page: &Page, top: Micros, out: &mut Vec<Piece<String>>)
    requires
        page.sane(),
        is_near(top as int),
    ensures
        all_seen(final(out)@) == all_seen(old(out)@) + stub_part(*page, top as int),
{
    let c: Columns = page.columns;
    if !c.metadata {
        assert(all_seen(out@) =~= all_seen(old(out)@) + stub_part(*page, top as int));
        return;
    }
    let height: Micros = page.row_height as i128 * MICRO;
    proof {
        crate::units::times_is_bounded(height as int, 280_000, 1);
        crate::units::times_is_bounded(c.size as int, 700_000, 1);
        crate::units::times_is_bounded(c.modified as int, 850_000, 1);
        crate::units::times_is_bounded(c.kind as int, 600_000, 1);
    }
    let h: Micros = larger(product(height, 280_000), 2_000_000);
    let y: Micros = top + crate::units::floor_div(height - h, 2);
    put_bar(c.size_x(), y, product(c.size, 700_000), h, out);
    put_bar(c.modified_x(), y, product(c.modified, 850_000), h, out);
    put_bar(c.kind_x(), y, product(c.kind, 600_000), h, out);
    assert(all_seen(out@) =~= all_seen(old(out)@) + stub_part(*page, top as int));
}

/// Add text at the right edge of the size column.
fn put_size(page: &Page, text: String, top: Micros, tint: Tint, out: &mut Vec<Piece<String>>)
    requires
        page.sane(),
        is_near(top as int),
    ensures
        all_seen(final(out)@) == all_seen(old(out)@).push(
            size_piece(*page, text@, top as int, tint),
        ),
{
    put(
        out,
        Piece::Text(
            TextPiece {
                text,
                align: Align::Right(page.columns.size_x() + page.columns.size),
                baseline: top + page.baseline,
                max_width: page.columns.size,
                face: Face::Meta,
                tabular: true,
                tint,
                middle_ellipsis: false,
            },
        ),
    );
}

/// Add the rail of a row.
fn put_rail(page: &Page, top: Micros, tint: Tint, out: &mut Vec<Piece<String>>)
    requires
        page.sane(),
        is_near(top as int),
    ensures
        all_seen(final(out)@) == all_seen(old(out)@).push(rail_piece(*page, top as int, tint)),
{
    let state: Surface = page.region.surface(top, page.scale, 0);
    proof {
        lemma_still(page.scale as int);
        crate::units::times_is_bounded(state.h as int, 220_000, 1);
    }
    let inset: Micros = product(state.h, 220_000);
    let w: Micros = larger(page.columns.rail, MICRO);
    put(
        out,
        Piece::Block {
            shape: Shape {
                x: page.columns.rail_x(),
                y: state.y + inset,
                w,
                h: larger(state.h - inset * 2, MICRO),
                radius: w / 2,
            },
            tint,
        },
    );
}

proof fn lemma_still(scale: int)
    ensures
        times(0, scale) == 0,
{
    assert(0 * scale == 0);
}

/// Add the sessions filed under a folder.
fn draw_mark(
    page: &Page,
    row: &RowView,
    mark: Option<&SessionMark>,
    selected: bool,
    top: Micros,
    out: &mut Vec<Piece<String>>,
)
    requires
        page.sane(),
        is_near(top as int),
    ensures
        all_seen(final(out)@) == all_seen(old(out)@) + mark_part(
            *page,
            *row,
            match mark {
                Some(mark) => Some(*mark),
                None => None,
            },
            selected,
            top as int,
        ),
{
    let mark: &SessionMark = match mark {
        None => {
            assert(all_seen(out@) =~= all_seen(old(out)@) + Seq::empty());
            return;
        },
        Some(mark) => mark,
    };
    let hidden: bool = row.flags.contains(RowFlags::hidden());
    let lamp: bool = page.lit && selected;
    let inks: (Token, Token, Token) = inks_for(selected, page.lit);
    // The confidence is the ink; the words say it too, for a reader who hears the row.
    let token: Token = if mark.vouched() {
        inks.1
    } else {
        inks.2
    };
    put_size(page, mark.words(), top, fade_on(token, hidden, lamp), out);
    match mark.rail() {
        Some(rail) => {
            put_rail(page, top, fade(Token::Rail(rail), hidden), out);
        },
        None => match mark.arrival() {
            Some(flash) => {
                let left: Micros = if hidden {
                    550_000
                } else {
                    MICRO
                };
                put_rail(
                    page,
                    top,
                    Tint { token: Token::Focus, opacity: Opacity::Times(product(left, flash)) },
                    out,
                );
            },
            None => {},
        },
    }
    assert(all_seen(out@) =~= all_seen(old(out)@) + mark_part(
        *page,
        *row,
        Some(*mark),
        selected,
        top as int,
    ));
}

/// Add what a row says beside its name.
fn draw_metadata(
    page: &Page,
    row: &RowView,
    mark: Option<&SessionMark>,
    selected: bool,
    top: Micros,
    out: &mut Vec<Piece<String>>,
)
    requires
        page.sane(),
        is_near(top as int),
    ensures
        all_seen(final(out)@) == all_seen(old(out)@) + metadata_part(
            *page,
            *row,
            match mark {
                Some(mark) => Some(*mark),
                None => None,
            },
            selected,
            top as int,
        ),
{
    if !page.columns.metadata {
        // A column among several stops at the name.
        assert(all_seen(out@) =~= all_seen(old(out)@) + Seq::empty());
        return;
    }
    let hidden: bool = row.flags.contains(RowFlags::hidden());
    let lamp: bool = page.lit && selected;
    let inks: (Token, Token, Token) = inks_for(selected, page.lit);
    if row.flags.contains(RowFlags::dir()) {
        draw_mark(page, row, mark, selected, top, out);
    } else {
        put_size(page, format_size(row.size), top, fade_on(inks.1, hidden, lamp), out);
    }
    put(
        out,
        Piece::Text(
            TextPiece {
                text: format_mtime(row.mtime),
                align: Align::Left(page.columns.modified_x()),
                baseline: top + page.baseline,
                max_width: page.columns.modified,
                face: Face::Meta,
                tabular: true,
                tint: fade_on(inks.1, hidden, lamp),
                middle_ellipsis: false,
            },
        ),
    );
    put(
        out,
        Piece::Text(
            TextPiece {
                text: kind_label(row).to_owned(),
                align: Align::Left(page.columns.kind_x()),
                baseline: top + page.baseline,
                max_width: page.columns.kind,
                face: Face::Meta,
                tabular: false,
                tint: fade_on(inks.2, hidden, lamp),
                middle_ellipsis: false,
            },
        ),
    );
    assert(all_seen(out@) =~= all_seen(old(out)@) + metadata_part(
        *page,
        *row,
        match mark {
            Some(mark) => Some(*mark),
            None => None,
        },
        selected,
        top as int,
    ));
}

/// Add the focus indicator, if the row has focus.
fn draw_row_focus(page: &Page, flags: RowFlags, top: Micros, out: &mut Vec<Piece<String>>)
    requires
        page.sane(),
        is_near(top as int),
    ensures
        all_seen(final(out)@) == all_seen(old(out)@) + focus_part(*page, flags, top as int),
{
    if flags.contains(RowFlags::focused()) {
        proof {
            lemma_still(page.scale as int);
        }
        let state: Surface = page.region.surface(top, page.scale, 0);
        draw_focus(state, &page.tokens, page.scale, out);
    } else {
        assert(all_seen(out@) =~= all_seen(old(out)@) + Seq::empty());
    }
}

/// Add the icon.
fn draw_row_icon(
    page: &Page,
    row: &RowView,
    selected: bool,
    top: Micros,
    out: &mut Vec<Piece<String>>,
)
    requires
        page.sane(),
        is_near(top as int),
    ensures
        all_seen(final(out)@) == all_seen(old(out)@) + icon_part(
            *page,
            *row,
            selected,
            top as int,
        ),
{
    let hidden: bool = row.flags.contains(RowFlags::hidden());
    let token: Token = if selected {
        inks_for(selected, page.lit).0
    } else {
        icon_tint(row)
    };
    put(
        out,
        Piece::Icon(
            IconPiece {
                kind: kind_of(row),
                x: page.columns.icon_x(),
                y: top,
                w: page.columns.icon,
                h: page.row_height as i128 * MICRO,
                tint: fade_on(token, hidden, page.lit && selected),
                // A modifier on an icon that the reader has already made out.
                emblem: if row.flags.contains(RowFlags::symlink()) {
                    Some(Emblem::Symlink)
                } else {
                    None
                },
                badge: None,
                hidden,
            },
        ),
    );
    assert(all_seen(out@) =~= all_seen(old(out)@) + icon_part(*page, *row, selected, top as int));
}

/// Add the name.
fn draw_row_name(
    page: &Page,
    row: &RowView,
    name: String,
    selected: bool,
    top: Micros,
    out: &mut Vec<Piece<String>>,
)
    requires
        page.sane(),
        is_near(top as int),
    ensures
        all_seen(final(out)@) == all_seen(old(out)@) + name_part(
            *page,
            *row,
            name@,
            selected,
            top as int,
        ),
{
    let hidden: bool = row.flags.contains(RowFlags::hidden());
    let ghost words = name@;
    put(
        out,
        Piece::Text(
            TextPiece {
                text: name,
                align: Align::Left(page.columns.name_x()),
                baseline: top + page.baseline,
                max_width: page.columns.name,
                face: if selected {
                    Face::Bold
                } else {
                    Face::Name
                },
                tabular: false,
                tint: fade_on(inks_for(selected, page.lit).0, hidden, page.lit && selected),
                middle_ellipsis: true,
            },
        ),
    );
    assert(all_seen(out@) =~= all_seen(old(out)@) + name_part(
        *page,
        *row,
        words,
        selected,
        top as int,
    ));
}

/// Draw the content of a row whose name reads `name`.
pub fn draw_row(
    page: &Page,
    row: &RowView,
    name: String,
    index: u64,
    top: Micros,
    interaction: Interaction<'_>,
    out: &mut Vec<Piece<String>>,
)
    requires
        page.sane(),
        is_near(top as int),
    ensures
        all_seen(final(out)@) == all_seen(old(out)@) + row_content(
            *page,
            *row,
            name@,
            shown_flags(*row, interaction, index),
            mark_of(interaction, index),
            top as int,
        ),
{
    let flags: RowFlags = row.flags.union(interaction.flags_for(index));
    let selected: bool = flags.contains(RowFlags::selected());
    let ghost start = all_seen(out@);
    let ghost words = name@;
    draw_row_focus(page, flags, top, out);
    draw_row_icon(page, row, selected, top, out);
    draw_row_name(page, row, name, selected, top, out);
    let ghost head = focus_part(*page, flags, top as int) + icon_part(
        *page,
        *row,
        selected,
        top as int,
    ) + name_part(*page, *row, words, selected, top as int);
    assert(all_seen(out@) =~= start + head);
    if row.state == LoadState::Stub {
        // Size, time and kind are undefined for a stub, so they are not read.
        draw_stub(page, top, out);
        assert(all_seen(out@) =~= start + (head + stub_part(*page, top as int)));
    } else {
        let mark: Option<&SessionMark> = match interaction.marks {
            Some(marks) => marks.get(index),
            None => None,
        };
        draw_metadata(page, row, mark, selected, top, out);
        assert(all_seen(out@) =~= start + (head + metadata_part(
            *page,
            *row,
            mark_of(interaction, index),
            selected,
            top as int,
        )));
    }
}

/// A stub is drawn from its name and its flags alone: what its size, time and kind hold makes no
/// difference.
pub proof fn a_stub_is_drawn_from_its_name(
    page: Page,
    a: RowView,
    b: RowView,
    name: Seq<char>,
    flags: RowFlags,
    mark: Option<SessionMark>,
    other: Option<SessionMark>,
    top: int,
)
    requires
        a.state == LoadState::Stub,
        b.state == LoadState::Stub,
        a.flags == b.flags,
    ensures
        row_content(page, a, name, flags, mark, top) == row_content(
            page,
            b,
            name,
            flags,
            other,
            top,
        ),
{
}

/// A file is never marked, whatever is filed under its index: it keeps its size column.
pub proof fn a_file_is_never_marked(
    page: Page,
    row: RowView,
    name: Seq<char>,
    flags: RowFlags,
    mark: Option<SessionMark>,
    top: int,
)
    requires
        !row.flags.has(DIR_BIT),
    ensures
        row_content(page, row, name, flags, mark, top) == row_content(
            page,
            row,
            name,
            flags,
            None,
            top,
        ),
{
}

/// An outcome outranks an arrival: where there is a rail, how far the arrival has got makes no
/// difference.
pub proof fn an_outcome_outranks_an_arrival(
    page: Page,
    row: RowView,
    a: SessionMark,
    b: SessionMark,
    selected: bool,
    top: int,
)
    requires
        a.rail_token() is Some,
        b.rail_token() == a.rail_token(),
        a.sessions() == b.sessions(),
        a.is_vouched() == b.is_vouched(),
    ensures
        mark_part(page, row, Some(a), selected, top) == mark_part(
            page,
            row,
            Some(b),
            selected,
            top,
        ),
{
}

/// A live session that has arrived draws its count and no rail.
pub proof fn only_an_outcome_draws_a_rail(
    page: Page,
    row: RowView,
    mark: SessionMark,
    selected: bool,
    top: int,
)
    requires
        mark.rail_token() is None,
        mark.flash() is None,
    ensures
        mark_part(page, row, Some(mark), selected, top).len() == 1,
        mark_part(page, row, Some(mark), selected, top)[0] is Text,
{
}

/// A column among several draws its focus, its icon and its name, and nothing else.
pub proof fn a_column_stops_at_the_name(
    page: Page,
    row: RowView,
    name: Seq<char>,
    flags: RowFlags,
    mark: Option<SessionMark>,
    top: int,
)
    requires
        !page.columns.metadata,
    ensures
        row_content(page, row, name, flags, mark, top) == focus_part(page, flags, top) + icon_part(
            page,
            row,
            flags.has(SELECTED_BIT),
            top,
        ) + name_part(page, row, name, flags.has(SELECTED_BIT), top),
{
    let head = focus_part(page, flags, top) + icon_part(
        page,
        row,
        flags.has(SELECTED_BIT),
        top,
    ) + name_part(page, row, name, flags.has(SELECTED_BIT), top);
    assert(head + Seq::<Piece<Seq<char>>>::empty() =~= head);
}

/// The focus indicator is the same whether rows are lit or not.
pub proof fn the_focus_ring_ignores_the_light(page: Page, flags: RowFlags, top: int, lit: bool)
    ensures
        focus_part((Page { lit, ..page }), flags, top) == focus_part(page, flags, top),
{
}

/// A hidden row's icon is dimmed exactly as its name is.
pub proof fn icons_dim_with_their_names(
    page: Page,
    row: RowView,
    name: Seq<char>,
    selected: bool,
    top: int,
)
    ensures
        icon_part(page, row, selected, top)[0]->Icon_0.tint.opacity == name_part(
            page,
            row,
            name,
            selected,
            top,
        )[0]->Text_0.tint.opacity,
{
}

/// Exactly one icon comes of a row, right after its focus ring, and it carries no badge.
pub proof fn a_row_has_one_icon(
    page: Page,
    row: RowView,
    name: Seq<char>,
    flags: RowFlags,
    mark: Option<SessionMark>,
    top: int,
)
    ensures
        ({
            let all = row_content(page, row, name, flags, mark, top);
            let at = focus_part(page, flags, top).len() as int;
            &&& at < all.len()
            &&& all[at] matches Piece::Icon(icon) && icon.badge is None
            &&& forall|i: int| 0 <= i < all.len() && i != at ==> !((#[trigger] all[i]) is Icon)
        }),
{
    let selected = flags.has(SELECTED_BIT);
    let focus = focus_part(page, flags, top);
    let head = focus + icon_part(page, row, selected, top) + name_part(
        page,
        row,
        name,
        selected,
        top,
    );
    let rest = if row.state == LoadState::Stub {
        stub_part(page, top)
    } else {
        metadata_part(page, row, mark, selected, top)
    };
    let all = row_content(page, row, name, flags, mark, top);
    assert(all == head + rest);
    assert forall|i: int| 0 <= i < all.len() && i != focus.len() implies !((
    #[trigger] all[i]) is Icon) by {
        if i < focus.len() {
            assert(all[i] == focus[i]);
        } else if i >= head.len() {
            assert(all[i] == rest[i - head.len()]);
        }
    }
}

/// The attributes that a row is drawn with are those of its data and the states that the view puts on
/// it, and no others.
pub proof fn a_row_is_in_the_states_it_is_in(
    row: RowView,
    interaction: Interaction<'_>,
    index: u64,
    bit: u32,
)
    requires
        bit == DIR_BIT || bit == HIDDEN_BIT || bit == SYMLINK_BIT || bit == SELECTED_BIT || bit
            == FOCUSED_BIT || bit == HOVERED_BIT,
    ensures
        shown_flags(row, interaction, index).has(bit) <==> row.flags.has(bit) || (bit
            == SELECTED_BIT && (interaction.selection matches Some(s) && crate::selection::holds(
            s@,
            index,
        ))) || (bit == FOCUSED_BIT && interaction.focused == Some(index)) || (bit == HOVERED_BIT
            && interaction.hovered == Some(index)),
{
    crate::row::the_view_states_what_it_knows(interaction, index);
    let a = row.flags.0;
    let b = interaction.state_bits(index);
    assert(bit == 1 || bit == 2 || bit == 4 || bit == 8 || bit == 16 || bit == 32 ==> ((a | b) & bit
        == bit) == (a & bit == bit || b & bit == bit)) by (bit_vector);
}

/// Whether a piece is a line that says `text` on the baseline of a row at `top`.
pub open spec fn says(piece: Piece<Seq<char>>, text: Seq<char>, page: Page, top: int) -> bool {
    piece matches Piece::Text(line) && line.text == text && line.baseline == top + page.baseline
}

/// A row shows its own icon and says its own name, each in its column: the icon is the one of its
/// kind, a link has the mark of one, and the name is whole and is cut, where it has to be, in the
/// middle. Both are dimmed for a row that is hidden.
pub proof fn a_row_shows_its_icon_and_its_name(
    page: Page,
    row: RowView,
    name: Seq<char>,
    flags: RowFlags,
    mark: Option<SessionMark>,
    top: int,
)
    requires
        page.sane(),
        is_near(top),
    ensures
        ({
            let all = row_content(page, row, name, flags, mark, top);
            let at = if flags.has(FOCUSED_BIT) {
                2int
            } else {
                0
            };
            let c = page.columns;
            let hidden = row.flags.has(HIDDEN_BIT);
            let selected = flags.has(SELECTED_BIT);
            &&& all.len() >= at + 2
            &&& all[at] matches Piece::Icon(icon) && {
                &&& icon.kind == picture(row)
                &&& icon.x == c.x0 + c.gutter + c.padding + c.rail + c.gap
                &&& icon.w == c.icon
                &&& icon.y == top
                &&& icon.h == page.row_height * 1_000_000
                &&& icon.emblem is Some <==> row.flags.has(SYMLINK_BIT)
                &&& icon.emblem is Some ==> icon.emblem == Some(Emblem::Symlink)
                &&& icon.hidden == hidden
                &&& icon.badge is None
                &&& (icon.tint.opacity != Opacity::Times(1_000_000)) == hidden
                &&& !selected ==> icon.tint.token == (if row.flags.has(DIR_BIT) {
                    Token::Folder
                } else {
                    Token::Tertiary
                })
            }
            &&& says(all[at + 1], name, page, top)
            &&& all[at + 1] matches Piece::Text(line) && {
                &&& line.align == Align::Left(
                    (all[at]->Icon_0.x + c.icon + c.gap) as Micros,
                )
                &&& line.max_width == c.name
                &&& line.middle_ellipsis
                &&& !line.tabular
                &&& line.face == (if selected {
                    Face::Bold
                } else {
                    Face::Name
                })
                &&& (line.tint.opacity != Opacity::Times(1_000_000)) == hidden
                &&& selected ==> line.tint == all[at]->Icon_0.tint
            }
        }),
{
}

/// A row that is loaded says when it was changed and what kind it is, each on the row's baseline and
/// at the left edge of its column, as the last two things it draws. A file says its size before them,
/// against the right edge of the size column; a folder says no size.
pub proof fn a_loaded_row_says_what_is_its_own(
    page: Page,
    row: RowView,
    name: Seq<char>,
    flags: RowFlags,
    mark: Option<SessionMark>,
    top: int,
)
    requires
        page.sane(),
        is_near(top),
        page.columns.metadata,
        row.state != LoadState::Stub,
    ensures
        ({
            let all = row_content(page, row, name, flags, mark, top);
            let n = all.len() as int;
            let at = if flags.has(FOCUSED_BIT) {
                2int
            } else {
                0
            };
            let c = page.columns;
            let size_x = c.x0 + c.gutter + c.padding + c.rail + c.gap + c.icon + c.gap + c.name
                + c.gap;
            let hidden = row.flags.has(HIDDEN_BIT);
            &&& n >= at + 4
            &&& all[n - 2] matches Piece::Text(time) && {
                &&& is_stamp(row.mtime as int, time.text)
                &&& time.align == Align::Left((size_x + c.size + c.gap) as Micros)
                &&& time.baseline == top + page.baseline
                &&& time.max_width == c.modified
                &&& time.tabular
                &&& !time.middle_ellipsis
                &&& time.face == Face::Meta
                &&& (time.tint.opacity != Opacity::Times(1_000_000)) == hidden
            }
            &&& all[n - 1] matches Piece::Text(kind) && {
                &&& kind.text == "Folder"@ <==> row.flags.has(DIR_BIT)
                &&& kind.text == "Link"@ <==> row.flags.has(SYMLINK_BIT) && !row.flags.has(DIR_BIT)
                &&& kind.text == "File"@ <==> !row.flags.has(SYMLINK_BIT) && !row.flags.has(DIR_BIT)
                &&& kind.align == Align::Left(
                    (size_x + c.size + c.gap + c.modified + c.gap) as Micros,
                )
                &&& kind.baseline == top + page.baseline
                &&& kind.max_width == c.kind
                &&& !kind.tabular
                &&& !kind.middle_ellipsis
                &&& kind.face == Face::Meta
                &&& (kind.tint.opacity != Opacity::Times(1_000_000)) == hidden
            }
            &&& !row.flags.has(DIR_BIT) ==> {
                &&& n == at + 5
                &&& says(all[at + 2], size_text(row.size), page, top)
                &&& all[at + 2] matches Piece::Text(size) && {
                    &&& size.align == Align::Right((size_x + c.size) as Micros)
                    &&& size.max_width == c.size
                    &&& size.tabular
                    &&& !size.middle_ellipsis
                    &&& size.face == Face::Meta
                    &&& size.tint == all[n - 2]->Text_0.tint
                }
            }
            &&& row.flags.has(DIR_BIT) && mark is None ==> n == at + 4
        }),
{
    crate::row::format::a_time_is_written(row.mtime as int);
    crate::row::ink::the_kind_column_tells_them_apart(row);
}

/// Two rows say the same time exactly where they were changed in the same minute, whatever else
/// differs between them.
pub proof fn rows_that_differ_read_differently(
    page: Page,
    a: RowView,
    b: RowView,
    a_name: Seq<char>,
    b_name: Seq<char>,
    a_flags: RowFlags,
    b_flags: RowFlags,
    a_mark: Option<SessionMark>,
    b_mark: Option<SessionMark>,
    a_top: int,
    b_top: int,
)
    requires
        page.sane(),
        is_near(a_top),
        is_near(b_top),
        page.columns.metadata,
        a.state != LoadState::Stub,
        b.state != LoadState::Stub,
    ensures
        ({
            let x = row_content(page, a, a_name, a_flags, a_mark, a_top);
            let y = row_content(page, b, b_name, b_flags, b_mark, b_top);
            &&& a.mtime as int / 60 != b.mtime as int / 60 ==> x[x.len() - 2]->Text_0.text != y[y.len()
                - 2]->Text_0.text
            &&& a.mtime as int / 60 == b.mtime as int / 60 ==> x[x.len() - 2]->Text_0.text == y[y.len()
                - 2]->Text_0.text
        }),
{
    let s = a.mtime as int;
    let t = b.mtime as int;
    a_loaded_row_says_what_is_its_own(page, a, a_name, a_flags, a_mark, a_top);
    a_loaded_row_says_what_is_its_own(page, b, b_name, b_flags, b_mark, b_top);
    let x = row_content(page, a, a_name, a_flags, a_mark, a_top);
    let y = row_content(page, b, b_name, b_flags, b_mark, b_top);
    crate::row::format::a_time_is_written(s);
    crate::row::format::a_time_is_written(t);
    crate::row::format::a_time_is_written_one_way(s, x[x.len() - 2]->Text_0.text, time_text(s));
    crate::row::format::a_time_is_written_one_way(t, y[y.len() - 2]->Text_0.text, time_text(t));
    if s / 60 != t / 60 {
        crate::row::format::minutes_read_apart(s, t);
    } else {
        crate::row::format::a_minute_reads_alike(s, t);
    }
}

/// A folder with sessions says how many there are in its size column, in ordinary ink where a shell
/// vouched for them and in the quietest where none did, and it shows a rail exactly where there is an
/// outcome or an arrival. One without says nothing there.
pub proof fn a_folder_says_its_sessions(
    page: Page,
    row: RowView,
    name: Seq<char>,
    flags: RowFlags,
    mark: SessionMark,
    top: int,
)
    requires
        page.sane(),
        is_near(top),
        page.columns.metadata,
        row.state != LoadState::Stub,
        row.flags.has(DIR_BIT),
    ensures
        ({
            let all = row_content(page, row, name, flags, Some(mark), top);
            let n = all.len() as int;
            let at = if flags.has(FOCUSED_BIT) {
                2int
            } else {
                0
            };
            let c = page.columns;
            let size_x = c.x0 + c.gutter + c.padding + c.rail + c.gap + c.icon + c.gap + c.name
                + c.gap;
            &&& n == at + 5 + (if mark.rail_token() is Some || mark.flash() is Some {
                1int
            } else {
                0
            })
            &&& says(all[at + 2], words_for(mark.sessions()), page, top)
            &&& all[at + 2] matches Piece::Text(count) && {
                &&& count.align == Align::Right((size_x + c.size) as Micros)
                &&& count.max_width == c.size
                &&& !flags.has(SELECTED_BIT) ==> count.tint.token == (if mark.is_vouched() {
                    Token::Secondary
                } else {
                    Token::Tertiary
                })
            }
            &&& n == at + 6 ==> {
                &&& all[at + 3] matches Piece::Block { shape, tint } && {
                    &&& shape.x == c.x0 + c.gutter + c.padding
                    &&& shape.w == max_of(c.rail as int, 1_000_000)
                    &&& tint.token == (match mark.rail_token() {
                        Some(rail) => Token::Rail(rail),
                        None => Token::Focus,
                    })
                }
            }
        }),
{
}

/// A row that is selected is written in one ink, which is that of a panel and never the ordinary one:
/// of a lit panel where rows are lit, and else of the accent. A row that is not has three, and its
/// name the strongest.
pub proof fn selected_rows_have_the_ink_of_a_panel(
    page: Page,
    row: RowView,
    name: Seq<char>,
    flags: RowFlags,
    mark: Option<SessionMark>,
    top: int,
    i: int,
)
    requires
        0 <= i < row_content(page, row, name, flags, mark, top).len(),
        row_content(page, row, name, flags, mark, top)[i] is Text,
    ensures
        ({
            let line = row_content(page, row, name, flags, mark, top)[i]->Text_0;
            let token = line.tint.token;
            let lit = page.lit && flags.has(SELECTED_BIT);
            &&& flags.has(SELECTED_BIT) && page.lit ==> token == Token::OnLit
            &&& flags.has(SELECTED_BIT) && !page.lit ==> token == Token::OnAccent
            &&& !flags.has(SELECTED_BIT) ==> token == Token::Primary || token == Token::Secondary
                || token == Token::Tertiary
            &&& !flags.has(SELECTED_BIT) ==> (token == Token::Primary <==> line.face == Face::Name)
            &&& line.tint.opacity == (ink(token, row.flags.has(HIDDEN_BIT), lit)).opacity
        }),
{
    let all = row_content(page, row, name, flags, mark, top);
    let selected = flags.has(SELECTED_BIT);
    let focus = focus_part(page, flags, top);
    let head = focus + icon_part(page, row, selected, top) + name_part(
        page,
        row,
        name,
        selected,
        top,
    );
    let rest = if row.state == LoadState::Stub {
        stub_part(page, top)
    } else {
        metadata_part(page, row, mark, selected, top)
    };
    assert(all == head + rest);
    if i >= head.len() {
        assert(all[i] == rest[i - head.len()]);
    }
}

/// A stub shows a bar where each of its columns will be, so that nothing moves when it is loaded: each
/// starts where its column starts, fills a part of its own of it, has round ends, and lies in the middle of
/// the row.
pub proof fn a_stub_keeps_the_place_of_its_metadata(
    page: Page,
    row: RowView,
    name: Seq<char>,
    flags: RowFlags,
    mark: Option<SessionMark>,
    top: int,
)
    requires
        page.sane(),
        is_near(top),
        page.columns.metadata,
        row.state == LoadState::Stub,
        page.columns.size >= 10,
        page.columns.modified >= 10,
        page.columns.kind >= 10,
    ensures
        ({
            let all = row_content(page, row, name, flags, mark, top);
            let at = if flags.has(FOCUSED_BIT) {
                4int
            } else {
                2
            };
            let c = page.columns;
            &&& all.len() == at + 3
            &&& forall|i: int|
                at <= i < at + 3 ==> ((#[trigger] all[i]) matches Piece::Block { shape, tint } && {
                    &&& shape.h == all[at]->Block_shape.h
                    &&& shape.h >= 2_000_000
                    &&& -1 <= 2 * (shape.y - top) + shape.h - page.row_height * 1_000_000 <= 0
                    &&& 0 <= shape.h - 2 * shape.radius < 2
                    &&& shape.h > 2_000_000 ==> 0 <= 7 * page.row_height * 1_000_000 - 25 * shape.h
                        < 25
                    &&& tint.token == Token::Tertiary
                    &&& tint.opacity == Opacity::Exactly(220_000)
                })
            &&& 0 <= 7 * c.size - 10 * all[at]->Block_shape.w < 10
            &&& 0 <= 17 * c.modified - 20 * all[at + 1]->Block_shape.w < 20
            &&& 0 <= 3 * c.kind - 5 * all[at + 2]->Block_shape.w < 5
            &&& all[at]->Block_shape.x == c.size_at()
            &&& 0 < all[at]->Block_shape.w < c.size
            &&& all[at + 1]->Block_shape.x == c.modified_at()
            &&& 0 < all[at + 1]->Block_shape.w < c.modified
            &&& all[at + 2]->Block_shape.x == c.kind_at()
            &&& 0 < all[at + 2]->Block_shape.w < c.kind
        }),
{
    let c = page.columns;
    crate::units::times_is_bounded(page.height(), 280_000, 1);
    crate::units::times_is_bounded(c.size as int, 700_000, 1);
    crate::units::times_is_bounded(c.modified as int, 850_000, 1);
    crate::units::times_is_bounded(c.kind as int, 600_000, 1);
    let all = row_content(page, row, name, flags, mark, top);
    assert(all.len() == 3 + if flags.has(FOCUSED_BIT) {
        4int
    } else {
        2
    });
}

/// A row has a focus indicator exactly where it has focus: an outline on the edge of its state, and
/// the ring inside of it, in the two colours that are kept for it.
pub proof fn focus_is_drawn_where_it_is(
    page: Page,
    row: RowView,
    name: Seq<char>,
    flags: RowFlags,
    mark: Option<SessionMark>,
    top: int,
)
    ensures
        ({
            let all = row_content(page, row, name, flags, mark, top);
            let state = page.state_at(top);
            let outline = times(page.tokens.outline_width as int, page.scale as int);
            let ring = times(page.tokens.ring_width as int, page.scale as int);
            &&& !flags.has(FOCUSED_BIT) ==> forall|i: int|
                0 <= i < all.len() ==> !((#[trigger] all[i]) is Ring)
            &&& flags.has(FOCUSED_BIT) ==> {
                &&& all.len() >= 2
                &&& all[0] == Piece::<Seq<char>>::Ring {
                    shape: Shape {
                        x: state.x,
                        y: state.y,
                        w: state.w,
                        h: state.h,
                        radius: state.radius,
                    },
                    width: (ring + outline + outline) as Micros,
                    tint: Tint {
                        token: Token::FocusOutline,
                        opacity: Opacity::Times(1_000_000),
                    },
                }
                &&& all[1] matches Piece::Ring { shape, width, tint } && {
                    &&& shape.x == (state.x + outline) as Micros
                    &&& shape.y == (state.y + outline) as Micros
                    &&& shape.w == max_of(state.w - outline - outline, 1_000_000) as Micros
                    &&& shape.h == max_of(state.h - outline - outline, 1_000_000) as Micros
                    &&& width == ring as Micros
                    &&& tint.token == Token::Focus
                    &&& tint.opacity == Opacity::Times(1_000_000)
                }
                &&& forall|i: int| 2 <= i < all.len() ==> !((#[trigger] all[i]) is Ring)
            }
        }),
{
    let all = row_content(page, row, name, flags, mark, top);
    let selected = flags.has(SELECTED_BIT);
    let focus = focus_part(page, flags, top);
    let head = focus + icon_part(page, row, selected, top) + name_part(
        page,
        row,
        name,
        selected,
        top,
    );
    let rest = if row.state == LoadState::Stub {
        stub_part(page, top)
    } else {
        metadata_part(page, row, mark, selected, top)
    };
    assert(all == head + rest);
    assert forall|i: int| focus.len() <= i < all.len() implies !((#[trigger] all[i]) is Ring) by {
        if i >= head.len() {
            assert(all[i] == rest[i - head.len()]);
        }
    }
}

/// The rail of a folder has round ends and stands in the middle of its row's state, as far from the
/// top of it as from the bottom. An outcome has all of its colour, and an arrival as much of its own
/// as it is bright; on a hidden folder an arrival has little more than half of that.
pub proof fn a_rail_stands_in_the_middle_of_its_row(
    page: Page,
    row: RowView,
    name: Seq<char>,
    flags: RowFlags,
    mark: SessionMark,
    top: int,
    at: int,
)
    requires
        page.sane(),
        is_near(top),
        page.columns.metadata,
        row.state != LoadState::Stub,
        row.flags.has(DIR_BIT),
        mark.rail_token() is Some || mark.flash() is Some,
        mark.flash() matches Some(flash) ==> 0 < flash <= 1_000_000,
        page.region.height >= 2_000_000,
        at == if flags.has(FOCUSED_BIT) {
            5int
        } else {
            3
        },
    ensures
        row_content(page, row, name, flags, Some(mark), top).len() > at,
        row_content(page, row, name, flags, Some(mark), top)[at] matches Piece::Block { shape, tint } && {
            let above = shape.y - (top + page.region.inset);
            let below = top + page.region.inset + page.region.height - (shape.y + shape.h);
            &&& above == below
            &&& 0 <= 22 * page.region.height - 100 * above < 100
            &&& 0 <= shape.w - 2 * shape.radius < 2
            &&& match (mark.rail_token(), mark.flash()) {
                (Some(_), _) => !row.flags.has(HIDDEN_BIT) ==> tint.opacity == Opacity::Times(
                    1_000_000,
                ),
                (None, Some(flash)) => tint.opacity matches Opacity::Times(share) && {
                    &&& !row.flags.has(HIDDEN_BIT) ==> share == flash
                    &&& row.flags.has(HIDDEN_BIT) ==> 0 <= 55 * flash - 100 * share < 100
                },
                _ => true,
            }
        },
{
    let state = page.state_at(top);
    assert(times(0, page.scale as int) == 0) by {
        assert(0 * page.scale as int == 0) by (nonlinear_arith);
    }
    assert(state.h == page.region.height);
    assert(state.y == top + page.region.inset);
    crate::units::times_is_bounded(state.h as int, 220_000, 1);
    if let Some(flash) = mark.flash() {
        crate::units::times_one(flash as int);
    }
}

} // verus!
