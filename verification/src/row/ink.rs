//! Which picture and which ink a row is drawn in.

use crate::material::{scaled, Srgba};
use crate::row_source::{LoadState, RowFlags, RowView, DIR_BIT, SYMLINK_BIT};
use crate::units::{clamped, hold_between, times, Micros, MICRO};
use vstd::prelude::*;

verus! {

/// Which icon a row gets.
#[derive(Clone, Copy, PartialEq, Eq, Debug, Structural)]
pub enum IconKind {
    /// A directory.
    Folder,
    /// Source code.
    Code,
    /// Configuration.
    Config,
    /// A document.
    Document,
    /// A picture.
    Image,
    /// Plain text.
    Text,
    /// Data.
    Data,
    /// An archive.
    Archive,
    /// Anything else.
    Generic,
}

/// How many kinds of icon there are.
pub const ICON_KINDS: usize = 9;

impl IconKind {
    /// Its place among the kinds.
    pub open spec fn place(self) -> int {
        match self {
            IconKind::Folder => 0,
            IconKind::Code => 1,
            IconKind::Config => 2,
            IconKind::Document => 3,
            IconKind::Image => 4,
            IconKind::Text => 5,
            IconKind::Data => 6,
            IconKind::Archive => 7,
            IconKind::Generic => 8,
        }
    }

    /// Its place among the kinds.
    pub fn index(self) -> (result: usize)
        ensures
            result == self.place(),
            result < ICON_KINDS,
    {
        match self {
            IconKind::Folder => 0,
            IconKind::Code => 1,
            IconKind::Config => 2,
            IconKind::Document => 3,
            IconKind::Image => 4,
            IconKind::Text => 5,
            IconKind::Data => 6,
            IconKind::Archive => 7,
            IconKind::Generic => 8,
        }
    }
}

/// A mark laid over the corner of an icon.
#[derive(Clone, Copy, PartialEq, Eq, Debug, Structural)]
pub enum Emblem {
    /// The ground that a mark is laid on.
    Plate,
    /// A symbolic link.
    Symlink,
}

/// How many emblems there are.
pub const EMBLEMS: usize = 2;

impl Emblem {
    /// Its place among the emblems.
    pub open spec fn place(self) -> int {
        match self {
            Emblem::Plate => 0,
            Emblem::Symlink => 1,
        }
    }

    /// Its place among the emblems.
    pub fn index(self) -> (result: usize)
        ensures
            result == self.place(),
            result < EMBLEMS,
    {
        match self {
            Emblem::Plate => 0,
            Emblem::Symlink => 1,
        }
    }
}

/// The icon of a row that is not a directory, by what its kind is known to be.
pub open spec fn icon_for(kind: u16) -> IconKind {
    if kind == 1 {
        IconKind::Folder
    } else if kind == 2 {
        IconKind::Code
    } else if kind == 3 {
        IconKind::Config
    } else if kind == 4 {
        IconKind::Document
    } else if kind == 5 {
        IconKind::Image
    } else if kind == 6 {
        IconKind::Text
    } else if kind == 7 {
        IconKind::Data
    } else if kind == 8 {
        IconKind::Archive
    } else {
        IconKind::Generic
    }
}

/// The icon of a row: a directory is a folder whatever its kind says, and a row whose kind is not
/// known yet is a file like any other.
pub open spec fn picture(row: RowView) -> IconKind {
    if row.flags.has(DIR_BIT) {
        IconKind::Folder
    } else if row.state == LoadState::Stub {
        IconKind::Generic
    } else {
        icon_for(row.kind.0)
    }
}

/// Which icon a row gets.
pub fn kind_of(row: &RowView) -> (result: IconKind)
    ensures
        result == picture(*row),
{
    if row.flags.contains(RowFlags::dir()) {
        return IconKind::Folder;
    }
    if row.state == LoadState::Stub {
        return IconKind::Generic;
    }
    match row.kind.0 {
        1 => IconKind::Folder,
        2 => IconKind::Code,
        3 => IconKind::Config,
        4 => IconKind::Document,
        5 => IconKind::Image,
        6 => IconKind::Text,
        7 => IconKind::Data,
        8 => IconKind::Archive,
        _ => IconKind::Generic,
    }
}

/// A colour of the design system, by what it is for.
#[derive(Clone, Copy, PartialEq, Eq, Debug)]
pub enum Token {
    /// The outline around the focus ring.
    FocusOutline,
    /// The focus ring, and an arrival.
    Focus,
    /// Ink on a lit panel.
    OnLit,
    /// Ink on the accent.
    OnAccent,
    /// Ordinary ink.
    Primary,
    /// Quieter ink.
    Secondary,
    /// The quietest ink.
    Tertiary,
    /// A folder's icon.
    Folder,
    /// The ground.
    Ground,
    /// A badge's ribbon.
    Badge,
    /// A badge's text.
    BadgeText,
    /// A status rail, by the name it was given.
    Rail(&'static str),
}

impl Token {
    /// What the design system calls it.
    pub open spec fn called(self) -> Seq<char> {
        match self {
            Token::FocusOutline => "border/focus-outline"@,
            Token::Focus => "border/focus"@,
            Token::OnLit => "content/on-lit"@,
            Token::OnAccent => "content/on-accent"@,
            Token::Primary => "content/primary"@,
            Token::Secondary => "content/secondary"@,
            Token::Tertiary => "content/tertiary"@,
            Token::Folder => "icon/folder"@,
            Token::Ground => "surface/base"@,
            Token::Badge => "icon/badge"@,
            Token::BadgeText => "icon/badge-text"@,
            Token::Rail(name) => name@,
        }
    }

    /// What the design system calls it.
    pub fn name(self) -> (result: &'static str)
        ensures
            result@ == self.called(),
    {
        match self {
            Token::FocusOutline => "border/focus-outline",
            Token::Focus => "border/focus",
            Token::OnLit => "content/on-lit",
            Token::OnAccent => "content/on-accent",
            Token::Primary => "content/primary",
            Token::Secondary => "content/secondary",
            Token::Tertiary => "content/tertiary",
            Token::Folder => "icon/folder",
            Token::Ground => "surface/base",
            Token::Badge => "icon/badge",
            Token::BadgeText => "icon/badge-text",
            Token::Rail(name) => name,
        }
    }
}

/// How opaque a colour is drawn.
#[derive(Clone, Copy, PartialEq, Eq, Debug, Structural)]
pub enum Opacity {
    /// So many times as opaque as it is.
    Times(Micros),
    /// Exactly this opaque.
    Exactly(Micros),
}

/// A colour as it is drawn.
#[derive(Clone, Copy, PartialEq, Eq, Debug)]
pub struct Tint {
    /// Which colour.
    pub token: Token,
    /// How opaque.
    pub opacity: Opacity,
}

/// How much of a hidden row's ink is left. A lit panel is bright, so that its ink fades less.
pub open spec fn dimming(hidden: bool, lit: bool) -> Micros {
    if hidden {
        if lit {
            820_000
        } else {
            550_000
        }
    } else {
        1_000_000
    }
}

/// Ink on a panel that may be lit, dimmed for a hidden row.
pub open spec fn ink(token: Token, hidden: bool, lit: bool) -> Tint {
    Tint { token, opacity: Opacity::Times(dimming(hidden, lit)) }
}

impl Tint {
    /// What the tint makes of its colour.
    pub open spec fn tinted(self, color: Srgba) -> Srgba {
        match self.opacity {
            Opacity::Times(factor) => color.times_alpha(clamped(factor as int, 0, 1_000_000)),
            Opacity::Exactly(alpha) => Srgba {
                a: clamped(alpha as int, 0, 1_000_000) as Micros,
                ..color
            },
        }
    }

    /// What the tint makes of its colour.
    pub fn of(self, color: Srgba) -> (result: Srgba)
        requires
            color.valid(),
        ensures
            result == self.tinted(color),
            result.valid(),
    {
        match self.opacity {
            Opacity::Times(factor) => scaled(color, hold_between(factor, 0, MICRO)),
            Opacity::Exactly(alpha) => Srgba { a: hold_between(alpha, 0, MICRO), ..color },
        }
    }
}

/// A hidden row's ink is dimmed rather than absent.
pub fn fade(token: Token, hidden: bool) -> (result: Tint)
    ensures
        result == ink(token, hidden, false),
{
    fade_on(token, hidden, false)
}

/// A hidden row's ink on a panel that may be lit.
pub fn fade_on(token: Token, hidden: bool, lit: bool) -> (result: Tint)
    ensures
        result == ink(token, hidden, lit),
{
    let left: Micros = if hidden {
        if lit {
            820_000
        } else {
            550_000
        }
    } else {
        MICRO
    };
    Tint { token, opacity: Opacity::Times(left) }
}

/// What colour a row's icon is drawn in.
pub open spec fn icon_token(row: RowView) -> Token {
    if row.flags.has(DIR_BIT) {
        Token::Folder
    } else {
        Token::Tertiary
    }
}

/// What colour a row's icon is drawn in: a folder has its own, and never the focus ring's.
pub fn icon_tint(row: &RowView) -> (result: Token)
    ensures
        result == icon_token(*row),
{
    if row.flags.contains(RowFlags::dir()) {
        Token::Folder
    } else {
        Token::Tertiary
    }
}

/// What the kind column says.
pub open spec fn kind_text(row: RowView) -> Seq<char> {
    if row.flags.has(DIR_BIT) {
        "Folder"@
    } else if row.flags.has(SYMLINK_BIT) {
        "Link"@
    } else {
        "File"@
    }
}

/// What the kind column says.
pub fn kind_label(row: &RowView) -> (result: &'static str)
    ensures
        result@ == kind_text(*row),
{
    if row.flags.contains(RowFlags::dir()) {
        "Folder"
    } else if row.flags.contains(RowFlags::symlink()) {
        "Link"
    } else {
        "File"
    }
}

/// A stub never reads its kind: two stubs that agree on their flags look alike.
pub proof fn a_stub_never_reads_its_kind(a: RowView, b: RowView)
    requires
        a.state == LoadState::Stub,
        b.state == LoadState::Stub,
        a.flags == b.flags,
    ensures
        picture(a) == picture(b),
        icon_token(a) == icon_token(b),
{
}

/// A directory is a folder whatever its kind says.
pub proof fn a_directory_is_a_folder_whatever_its_kind(row: RowView)
    requires
        row.flags.has(DIR_BIT),
    ensures
        picture(row) == IconKind::Folder,
        icon_token(row) == Token::Folder,
{
}

/// A tint never makes a colour more opaque than it is, unless it says how opaque to be.
pub proof fn fading_never_adds(color: Srgba, factor: Micros, token: Token)
    requires
        color.valid(),
    ensures
        (Tint { token, opacity: Opacity::Times(factor) }).tinted(color).a <= color.a,
{
    crate::units::times_is_bounded(color.a as int, clamped(factor as int, 0, 1_000_000), 1);
}

/// Every kind that is known has an icon of its own, in the order of the kinds, and every other file has
/// the one of no kind. So two files of different known kinds never look alike.
pub proof fn kinds_look_different(a: RowView, b: RowView)
    requires
        !a.flags.has(DIR_BIT),
        !b.flags.has(DIR_BIT),
        a.state != LoadState::Stub,
        b.state != LoadState::Stub,
    ensures
        1 <= a.kind.0 <= 8 ==> picture(a).place() == a.kind.0 - 1,
        !(1 <= a.kind.0 <= 8) ==> picture(a) == IconKind::Generic,
        1 <= a.kind.0 <= 8 && a.kind != b.kind ==> picture(a) != picture(b),
{
}

/// The kind column tells folders, links and files apart, and a folder is one before it is a link.
pub proof fn the_kind_column_tells_them_apart(row: RowView)
    ensures
        kind_text(row) == "Folder"@ <==> row.flags.has(DIR_BIT),
        kind_text(row) == "Link"@ <==> row.flags.has(SYMLINK_BIT) && !row.flags.has(DIR_BIT),
        kind_text(row) == "File"@ <==> !row.flags.has(SYMLINK_BIT) && !row.flags.has(DIR_BIT),
{
    reveal_strlit("Folder");
    reveal_strlit("Link");
    reveal_strlit("File");
    assert("Folder"@.len() == 6);
    assert("Link"@[0] == 'L');
    assert("File"@[0] == 'F');
}

/// A row that is not hidden keeps all of its ink. A hidden one keeps some of it and not all, and more
/// of it on a lit panel. What ink it is, is never changed.
pub proof fn hidden_rows_are_dimmed(token: Token, lit: bool)
    ensures
        ink(token, false, lit).opacity == Opacity::Times(1_000_000),
        ink(token, true, lit).opacity matches Opacity::Times(left) && 0 < left < 1_000_000,
        (ink(token, true, false).opacity->Times_0) < (ink(token, true, true).opacity->Times_0),
        forall|hidden: bool| (#[trigger] ink(token, hidden, lit)).token == token,
{
}

/// A tint changes how opaque a colour is and never its hue. A full share keeps the colour as it is,
/// none leaves nothing of it, and an opacity that is named is the one it gets.
pub proof fn a_tint_keeps_the_hue(color: Srgba, tint: Tint)
    requires
        color.valid(),
    ensures
        tint.tinted(color).r == color.r,
        tint.tinted(color).g == color.g,
        tint.tinted(color).b == color.b,
        match tint.opacity {
            Opacity::Times(factor) => {
                &&& factor >= 1_000_000 ==> tint.tinted(color) == color
                &&& factor <= 0 ==> tint.tinted(color).a == 0
                &&& 0 <= factor <= 1_000_000 ==> color.a * factor - 1_000_000
                    < tint.tinted(color).a * 1_000_000 <= color.a * factor
            },
            Opacity::Exactly(alpha) => 0 <= alpha <= 1_000_000 ==> tint.tinted(color).a == alpha,
        },
{
    if let Opacity::Times(factor) = tint.opacity {
        let share = clamped(factor as int, 0, 1_000_000);
        crate::units::times_is_bounded(color.a as int, share, 1);
        crate::units::times_one(color.a as int);
        assert(times(color.a as int, 0) == 0);
    }
}

/// Every colour has a name of its own.
pub proof fn colours_are_called_differently(a: Token, b: Token)
    requires
        a != b,
        !(a is Rail),
        !(b is Rail),
    ensures
        a.called() != b.called(),
{
    reveal_strlit("border/focus-outline");
    reveal_strlit("border/focus");
    reveal_strlit("content/on-lit");
    reveal_strlit("content/on-accent");
    reveal_strlit("content/primary");
    reveal_strlit("content/secondary");
    reveal_strlit("content/tertiary");
    reveal_strlit("icon/folder");
    reveal_strlit("surface/base");
    reveal_strlit("icon/badge");
    reveal_strlit("icon/badge-text");
    assert("border/focus-outline"@.len() == 20);
    assert("border/focus"@.len() == 12);
    assert("content/on-lit"@.len() == 14);
    assert("content/on-accent"@.len() == 17);
    assert("content/primary"@.len() == 15);
    assert("content/secondary"@.len() == 17);
    assert("content/tertiary"@.len() == 16);
    assert("icon/folder"@.len() == 11);
    assert("surface/base"@.len() == 12);
    assert("icon/badge"@.len() == 10);
    assert("icon/badge-text"@.len() == 15);
    assert("border/focus"@[0] != "surface/base"@[0]);
    assert("content/on-accent"@[8] != "content/secondary"@[8]);
    assert("content/primary"@[0] != "icon/badge-text"@[0]);
}

} // verus!
