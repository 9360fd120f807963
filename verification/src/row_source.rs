//! The row-data interface that layout and accessibility consume.
//!
//! Sources fill a reusable [`RowBuf`] with metadata and raw name bytes. The views can show
//! in-memory rows, directory listings or search results without knowing how they are stored.

use crate::density::Density;
use crate::fenwick::Heights;
use crate::text;
use crate::text::lossy;
use crate::units::{Reading, MICRO};
use std::borrow::Cow;
use std::ops::Range;
use vstd::prelude::*;

verus! {

/// Dense ordinal within a source. Stable for the source's lifetime.
#[derive(Clone, Copy, PartialEq, Eq, PartialOrd, Ord, Hash, Debug, Default, Structural)]
pub struct RowId(pub u64);

/// Interned semantic type; drives icon selection.
#[derive(Clone, Copy, PartialEq, Eq, Hash, Debug, Default, Structural)]
pub struct KindId(pub u16);

/// How much of a row has been loaded.
#[derive(Clone, Copy, PartialEq, Eq, Debug, Default, Structural)]
pub enum LoadState {
    /// Only the name and whether it is a directory mean anything. Size, time and kind are
    /// undefined, not merely stale.
    #[default]
    Stub,
    /// Name, size, time and kind.
    Basic,
    /// All row fields.
    Full,
}

/// The bit of [`RowFlags::dir`].
pub const DIR_BIT: u32 = 1;

/// The bit of [`RowFlags::hidden`].
pub const HIDDEN_BIT: u32 = 2;

/// The bit of [`RowFlags::symlink`].
pub const SYMLINK_BIT: u32 = 4;

/// The bit of [`RowFlags::selected`].
pub const SELECTED_BIT: u32 = 8;

/// The bit of [`RowFlags::hovered`].
pub const HOVERED_BIT: u32 = 16;

/// The bit of [`RowFlags::focused`].
pub const FOCUSED_BIT: u32 = 32;

/// The bit of [`RowFlags::readonly`].
pub const READONLY_BIT: u32 = 64;

/// Boolean row attributes.
#[derive(Clone, Copy, PartialEq, Eq, Hash, Debug, Default, Structural)]
pub struct RowFlags(pub u32);

impl RowFlags {
    /// Whether every bit of `bits` is set.
    pub open spec fn has(self, bits: u32) -> bool {
        self.0 & bits == bits
    }

    /// No attribute.
    pub fn empty() -> (result: Self)
        ensures
            result == RowFlags(0),
    {
        RowFlags(0)
    }

    /// The row is a directory.
    pub fn dir() -> (result: Self)
        ensures
            result == RowFlags(DIR_BIT),
    {
        RowFlags(DIR_BIT)
    }

    /// The row is hidden.
    pub fn hidden() -> (result: Self)
        ensures
            result == RowFlags(HIDDEN_BIT),
    {
        RowFlags(HIDDEN_BIT)
    }

    /// The row is a symbolic link.
    pub fn symlink() -> (result: Self)
        ensures
            result == RowFlags(SYMLINK_BIT),
    {
        RowFlags(SYMLINK_BIT)
    }

    /// The row is selected.
    pub fn selected() -> (result: Self)
        ensures
            result == RowFlags(SELECTED_BIT),
    {
        RowFlags(SELECTED_BIT)
    }

    /// The pointer is over the row.
    pub fn hovered() -> (result: Self)
        ensures
            result == RowFlags(HOVERED_BIT),
    {
        RowFlags(HOVERED_BIT)
    }

    /// The row has keyboard focus, which is not selection: focus moves through a list that
    /// stays selected.
    pub fn focused() -> (result: Self)
        ensures
            result == RowFlags(FOCUSED_BIT),
    {
        RowFlags(FOCUSED_BIT)
    }

    /// The row is known to be read-only. Its absence is no claim.
    pub fn readonly() -> (result: Self)
        ensures
            result == RowFlags(READONLY_BIT),
    {
        RowFlags(READONLY_BIT)
    }

    /// Whether every attribute of `other` is set.
    pub fn contains(self, other: Self) -> (result: bool)
        ensures
            result == self.has(other.0),
    {
        self.0 & other.0 == other.0
    }

    /// The attributes of both.
    pub fn union(self, other: Self) -> (result: Self)
        ensures
            result == RowFlags(self.0 | other.0),
    {
        RowFlags(self.0 | other.0)
    }

    /// The attributes that `other` does not have.
    pub fn without(self, other: Self) -> (result: Self)
        ensures
            result == RowFlags(self.0 & !other.0),
    {
        RowFlags(self.0 & !other.0)
    }

    /// Whether no attribute is set.
    pub fn is_empty(self) -> (result: bool)
        ensures
            result == (self.0 == 0),
    {
        self.0 == 0
    }
}

impl core::ops::BitOr for RowFlags {
    type Output = RowFlags;

    fn bitor(self, other: RowFlags) -> (result: RowFlags) {
        self.union(other)
    }
}

impl vstd::std_specs::ops::BitOrSpecImpl for RowFlags {
    open spec fn obeys_bitor_spec() -> bool {
        true
    }

    open spec fn bitor_req(self, other: RowFlags) -> bool {
        true
    }

    open spec fn bitor_spec(self, other: RowFlags) -> RowFlags {
        RowFlags(self.0 | other.0)
    }
}

/// A union has exactly the attributes that both sides have between them, and taking one
/// side away leaves none of it.
pub proof fn unions_hold_both_sides(a: RowFlags, b: RowFlags)
    ensures
        RowFlags(a.0 | b.0).has(a.0),
        RowFlags(a.0 | b.0).has(b.0),
        RowFlags(a.0 & !b.0).has(b.0) ==> b.0 == 0,
        (a.0 | b.0) == (b.0 | a.0),
        (a.0 | a.0) == a.0,
{
    let x = a.0;
    let y = b.0;
    assert((x | y) & x == x && (x | y) & y == y && (x | y) == (y | x) && (x | x) == x)
        by (bit_vector);
    assert((x & !y) & y == y ==> y == 0) by (bit_vector);
}

/// Focus, hover and selection are three different states: none of them implies another,
/// and adding one leaves the other two as they were.
pub proof fn states_are_independent(flags: RowFlags)
    ensures
        !RowFlags(FOCUSED_BIT).has(SELECTED_BIT),
        !RowFlags(FOCUSED_BIT).has(HOVERED_BIT),
        !RowFlags(HOVERED_BIT).has(SELECTED_BIT),
        RowFlags(flags.0 | FOCUSED_BIT).has(SELECTED_BIT) == flags.has(SELECTED_BIT),
        RowFlags(flags.0 | FOCUSED_BIT).has(HOVERED_BIT) == flags.has(HOVERED_BIT),
        RowFlags(flags.0 | HOVERED_BIT).has(SELECTED_BIT) == flags.has(SELECTED_BIT),
        RowFlags(flags.0 | SELECTED_BIT).has(FOCUSED_BIT) == flags.has(FOCUSED_BIT),
{
    let f = flags.0;
    assert(32u32 & 8 != 8 && 32u32 & 16 != 16 && 16u32 & 8 != 8) by (bit_vector);
    assert(((f | 32) & 8 == 8) == (f & 8 == 8)) by (bit_vector);
    assert(((f | 32) & 16 == 16) == (f & 16 == 16)) by (bit_vector);
    assert(((f | 16) & 8 == 8) == (f & 8 == 8)) by (bit_vector);
    assert(((f | 8) & 32 == 32) == (f & 32 == 32)) by (bit_vector);
}

/// One row supplied to the views.
#[derive(PartialEq, Eq, Debug)]
pub struct RowView {
    /// The row's ordinal.
    pub id: RowId,
    /// Range into the name arena of the [`RowBuf`].
    pub name: Range<u32>,
    /// Size in bytes.
    pub size: u64,
    /// Modification time in Unix seconds.
    pub mtime: i64,
    /// Semantic type.
    pub kind: KindId,
    /// Attributes that the data has.
    pub flags: RowFlags,
    /// How much of the row is loaded.
    pub state: LoadState,
    /// Nesting depth; zero in a flat listing.
    pub depth: u16,
}

impl RowView {
    /// A row of which nothing is known.
    pub open spec fn blank() -> RowView {
        RowView {
            id: RowId(0),
            name: (Range { start: 0, end: 0 }),
            size: 0,
            mtime: 0,
            kind: KindId(0),
            flags: RowFlags(0),
            state: LoadState::Stub,
            depth: 0,
        }
    }
}

impl Clone for RowView {
    fn clone(&self) -> (result: Self)
        ensures
            result == *self,
    {
        RowView {
            id: self.id,
            name: self.name.start..self.name.end,
            size: self.size,
            mtime: self.mtime,
            kind: self.kind,
            flags: self.flags,
            state: self.state,
            depth: self.depth,
        }
    }
}

impl Default for RowView {
    fn default() -> (result: Self)
        ensures
            result == RowView::blank(),
    {
        RowView {
            id: RowId(0),
            name: 0..0,
            size: 0,
            mtime: 0,
            kind: KindId(0),
            flags: RowFlags::empty(),
            state: LoadState::Stub,
            depth: 0,
        }
    }
}

/// The buffer a source fills. Its view is the rows; the names are in one arena beside them.
///
/// It is reused from frame to frame, cleared and refilled, so that steady scrolling
/// allocates nothing.
#[derive(Debug)]
pub struct RowBuf {
    rows: Vec<RowView>,
    names: Vec<u8>,
}

impl View for RowBuf {
    type V = Seq<RowView>;

    closed spec fn view(&self) -> Seq<RowView> {
        self.rows@
    }
}

/// The bytes of `arena` that `range` covers; none where the range does not fit.
pub open spec fn bytes_in(arena: Seq<u8>, range: Range<u32>) -> Seq<u8> {
    if range.start <= range.end <= arena.len() {
        arena.subrange(range.start as int, range.end as int)
    } else {
        Seq::empty()
    }
}

/// Whether the names of all rows are in `arena`.
pub open spec fn names_are_in(rows: Seq<RowView>, arena: Seq<u8>) -> bool {
    forall|i: int|
        0 <= i < rows.len() ==> (#[trigger] rows[i]).name.start <= rows[i].name.end <= arena.len()
}

impl Clone for RowBuf {
    fn clone(&self) -> (result: Self)
        ensures
            result@ == self@,
            result.arena() == self.arena(),
    {
        proof {
            use_type_invariant(self);
        }
        let rows: Vec<RowView> = self.rows.clone();
        let names: Vec<u8> = self.names.clone();
        assert(rows@ =~= self.rows@);
        assert(names@ =~= self.names@);
        RowBuf { rows, names }
    }
}

impl Default for RowBuf {
    fn default() -> (result: Self)
        ensures
            result@ == Seq::<RowView>::empty(),
            result.arena() == Seq::<u8>::empty(),
    {
        RowBuf { rows: Vec::new(), names: Vec::new() }
    }
}

impl RowBuf {
    #[verifier::type_invariant]
    spec fn well_formed(self) -> bool {
        names_are_in(self.rows@, self.names@)
    }

    /// The bytes of every name, one after another.
    pub closed spec fn arena(&self) -> Seq<u8> {
        self.names@
    }

    /// The name bytes of a row.
    pub open spec fn name_of(&self, row: RowView) -> Seq<u8> {
        bytes_in(self.arena(), row.name)
    }

    /// An empty buffer.
    pub fn new() -> (result: Self)
        ensures
            result@ == Seq::<RowView>::empty(),
            result.arena() == Seq::<u8>::empty(),
    {
        RowBuf { rows: Vec::new(), names: Vec::new() }
    }

    /// Empty the buffer, keeping both allocations.
    pub fn clear(&mut self)
        ensures
            final(self)@ == Seq::<RowView>::empty(),
            final(self).arena() == Seq::<u8>::empty(),
    {
        let mut rows: Vec<RowView> = Vec::new();
        let mut names: Vec<u8> = Vec::new();
        std::mem::swap(&mut rows, &mut self.rows);
        std::mem::swap(&mut names, &mut self.names);
        rows.clear();
        names.clear();
        self.rows = rows;
        self.names = names;
    }

    /// Append a row whose name is `name`. It reads back as what was pushed, and every name that was
    /// there before is as it was.
    pub fn push(&mut self, row: RowView, name: &[u8])
        requires
            old(self).arena().len() + name@.len() <= u32::MAX,
        ensures
            final(self).arena() == old(self).arena() + name@,
            final(self)@ == old(self)@.push(
                (RowView {
                    name: (Range {
                        start: old(self).arena().len() as u32,
                        end: (old(self).arena().len() + name@.len()) as u32,
                    }),
                    ..row
                }),
            ),
            final(self).name_of(final(self)@.last()) == name@,
            forall|i: int|
                0 <= i < old(self)@.len() ==> final(self).name_of(#[trigger] old(self)@[i])
                    == old(self).name_of(old(self)@[i]),
    {
        proof {
            use_type_invariant(&*self);
        }
        let ghost held = self.rows@;
        let ghost before = self.names@;
        let mut rows: Vec<RowView> = Vec::new();
        let mut names: Vec<u8> = Vec::new();
        std::mem::swap(&mut rows, &mut self.rows);
        std::mem::swap(&mut names, &mut self.names);
        let start: u32 = names.len() as u32;
        names.extend_from_slice(name);
        assert(names@ =~= before + name@);
        let end: u32 = names.len() as u32;
        let mut row = row;
        row.name = start..end;
        rows.push(row);
        proof {
            assert forall|i: int| 0 <= i < held.len() implies bytes_in(
                names@,
                (#[trigger] held[i]).name,
            ) == bytes_in(before, held[i].name) by {
                pushed_names_read_back(before, name@, held[i].name);
            }
            pushed_names_read_back(before, name@, (Range { start: 0, end: 0 }));
            assert forall|i: int| 0 <= i < rows@.len() implies (#[trigger] rows@[i]).name.start
                <= rows@[i].name.end <= names@.len() by {
                if i < held.len() {
                    assert(rows@[i] == held[i]);
                }
            }
        }
        self.names = names;
        self.rows = rows;
    }

    /// The rows, each with its name in this buffer.
    pub fn rows(&self) -> (result: &[RowView])
        ensures
            result@ == self@,
            names_are_in(result@, self.arena()),
    {
        proof {
            use_type_invariant(self);
        }
        self.rows.as_slice()
    }

    /// How many rows there are.
    pub fn len(&self) -> (result: usize)
        ensures
            result == self@.len(),
    {
        self.rows.len()
    }

    /// How many bytes of names there are.
    pub fn arena_len(&self) -> (result: usize)
        ensures
            result == self.arena().len(),
    {
        self.names.len()
    }

    /// How many rows and how many name bytes the buffer has room for: no fewer than it holds.
    /// How many more is up to the allocator.
    pub fn capacity(&self) -> (result: (usize, usize))
        ensures
            result.0 >= self@.len(),
            result.1 >= self.arena().len(),
    {
        (capacity_of(&self.rows), capacity_of(&self.names))
    }

    /// Whether there are no rows.
    pub fn is_empty(&self) -> (result: bool)
        ensures
            result == (self@.len() == 0),
    {
        self.rows.len() == 0
    }

    /// Raw name bytes of a row; none where its range does not fit this buffer.
    pub fn name_bytes(&self, row: &RowView) -> (result: &[u8])
        ensures
            result@ == self.name_of(*row),
    {
        let start: usize = row.name.start as usize;
        let end: usize = row.name.end as usize;
        if start <= end && end <= self.names.len() {
            vstd::slice::slice_subrange(self.names.as_slice(), start, end)
        } else {
            vstd::slice::slice_subrange(self.names.as_slice(), 0, 0)
        }
    }

    /// The name of a row as text, whatever its bytes are: a name that is not UTF-8 must
    /// still be drawn.
    pub fn name(&self, row: &RowView) -> (result: Cow<'_, str>)
        ensures
            result@ == lossy(self.name_of(*row)),
    {
        text::from_utf8_lossy(self.name_bytes(row))
    }
}

/// Calls `Vec::capacity`, which is never less than the number of items that are there. How much
/// more it is depends on the allocator, and is left unsaid.
#[verifier::external_body]
fn capacity_of<T>(items: &Vec<T>) -> (result: usize)
    ensures
        result >= items@.len(),
{
    items.capacity()
}

/// A pushed name reads back as the bytes that were pushed, and pushing it changes no name
/// that was there before.
pub proof fn pushed_names_read_back(arena: Seq<u8>, name: Seq<u8>, earlier: Range<u32>)
    requires
        arena.len() + name.len() <= u32::MAX,
        earlier.end <= arena.len(),
    ensures
        bytes_in(
            arena + name,
            (Range { start: arena.len() as u32, end: (arena.len() + name.len()) as u32 }),
        ) == name,
        bytes_in(arena + name, earlier) == bytes_in(arena, earlier),
{
    assert((arena + name).subrange(arena.len() as int, (arena.len() + name.len()) as int) =~= name);
    if earlier.start <= earlier.end {
        assert((arena + name).subrange(earlier.start as int, earlier.end as int)
            =~= arena.subrange(earlier.start as int, earlier.end as int));
    }
}

/// How many of the rows of `range` exist in a corpus of `count`.
pub open spec fn rows_present(range: Range<u64>, count: u64) -> nat {
    let end = if range.end <= count {
        range.end
    } else {
        count
    };
    if range.start < end {
        (end - range.start) as nat
    } else {
        0
    }
}

/// Source of rows for layout and accessibility.
pub trait RowSource: Send + Sync {
    /// Exact row count.
    spec fn count(&self) -> u64;

    /// A number that grows when the content changes.
    spec fn revision(&self) -> u64;

    /// Whether `out` is what a request for `range` fills a buffer with.
    spec fn gives(&self, range: Range<u64>, out: RowBuf) -> bool;

    /// Exact row count, used for scroll extent and accessible set size.
    fn len(&self) -> (result: u64)
        ensures
            result == self.count(),
    ;

    /// Whether there are no rows.
    fn is_empty(&self) -> (result: bool)
        ensures
            result == (self.count() == 0),
    {
        self.len() == 0
    }

    /// Fill `out` with the rows of `range`, and no others. Must not block: a row whose data
    /// has not loaded is a [`LoadState::Stub`].
    fn rows(&self, range: Range<u64>, out: &mut RowBuf)
        ensures
            self.gives(range, *final(out)),
            final(out)@.len() == rows_present(range, self.count()),
    ;

    /// Row heights at `density`, in physical pixels.
    fn heights(&self, density: Density, scale: Reading) -> (result: Heights);

    /// Version that increases when content changes, not on each frame.
    fn version(&self) -> (result: u64)
        ensures
            result == self.revision(),
    ;
}

/// A source with no rows, so that a window can open before any source is attached.
#[derive(Debug, Default, Clone, Copy)]
pub struct EmptySource;

impl RowSource for EmptySource {
    open spec fn count(&self) -> u64 {
        0
    }

    open spec fn revision(&self) -> u64 {
        0
    }

    open spec fn gives(&self, range: Range<u64>, out: RowBuf) -> bool {
        out@ == Seq::<RowView>::empty() && out.arena() == Seq::<u8>::empty()
    }

    fn len(&self) -> (result: u64) {
        0
    }

    fn rows(&self, range: Range<u64>, out: &mut RowBuf) {
        out.clear();
    }

    fn heights(&self, density: Density, scale: Reading) -> (result: Heights)
        ensures
            result == Heights::Uniform(
                density.physical_height(scale, Reading::Finite(MICRO)) as u32,
            ),
    {
        Heights::Uniform(density.row_height_px(scale, Reading::Finite(MICRO)))
    }

    fn version(&self) -> (result: u64) {
        0
    }
}

/// A source whose every row is still a stub: the placeholder state, made reachable.
#[derive(Debug, Clone)]
pub struct StubbornSource {
    /// How many rows there are.
    pub count: u64,
}

/// The stub rows of `range`, in order.
pub open spec fn stubs_of(range: Range<u64>, count: u64) -> Seq<RowView> {
    Seq::new(
        rows_present(range, count),
        |i: int| RowView { id: RowId((range.start + i) as u64), ..RowView::blank() },
    )
}

impl RowSource for StubbornSource {
    open spec fn count(&self) -> u64 {
        self.count
    }

    open spec fn revision(&self) -> u64 {
        0
    }

    open spec fn gives(&self, range: Range<u64>, out: RowBuf) -> bool {
        out@ == stubs_of(range, self.count) && out.arena() == Seq::<u8>::empty()
    }

    fn len(&self) -> (result: u64) {
        self.count
    }

    fn rows(&self, range: Range<u64>, out: &mut RowBuf) {
        out.clear();
        let end: u64 = if range.end <= self.count {
            range.end
        } else {
            self.count
        };
        let start: u64 = range.start;
        let nameless: [u8; 0] = [];
        let mut id: u64 = start;
        while id < end
            invariant
                start == range.start,
                end == if range.end <= self.count { range.end } else { self.count },
                start <= id,
                id <= end || id == start,
                out.arena() == Seq::<u8>::empty(),
                out@ == stubs_of(range, self.count).take(id - start),
            decreases end - id,
        {
            let ghost before = out@;
            out.push(
                RowView { id: RowId(id), state: LoadState::Stub, ..RowView::default() },
                &nameless,
            );
            assert(out.arena() =~= Seq::<u8>::empty());
            id = id + 1;
            assert(out@ =~= stubs_of(range, self.count).take(id - start));
        }
        assert(out@ =~= stubs_of(range, self.count));
    }

    fn heights(&self, density: Density, scale: Reading) -> (result: Heights)
        ensures
            result == Heights::Uniform(
                density.physical_height(scale, Reading::Finite(MICRO)) as u32,
            ),
    {
        Heights::Uniform(density.row_height_px(scale, Reading::Finite(MICRO)))
    }

    fn version(&self) -> (result: u64) {
        0
    }
}

/// The rows of a range that are there are those of the range that come before the count: they start
/// where the range does and follow each other.
pub proof fn only_rows_below_the_count_are_there(range: Range<u64>, count: u64, row: u64)
    ensures
        range.start <= row < range.start + rows_present(range, count) <==> range.start <= row
            < range.end && row < count,
{
}

/// A stub stands for its own row: the first for the row that the range starts with, and every other
/// for the row after that of the stub before it. Nothing is known of any of them.
pub proof fn a_stub_stands_for_its_own_row(range: Range<u64>, count: u64, i: int)
    requires
        0 <= i < stubs_of(range, count).len(),
    ensures
        stubs_of(range, count)[i].id.0 == range.start + i,
        stubs_of(range, count)[i].id.0 < count,
        stubs_of(range, count)[i].id.0 < range.end,
        stubs_of(range, count)[i].state == LoadState::Stub,
        stubs_of(range, count)[i].name.start == stubs_of(range, count)[i].name.end,
        stubs_of(range, count)[i].flags.0 == 0,
        stubs_of(range, count)[i].size == 0,
        stubs_of(range, count)[i].mtime == 0,
        range.end <= count && range.start <= range.end ==> stubs_of(range, count).len()
            == range.end - range.start,
{
}

} // verus!
