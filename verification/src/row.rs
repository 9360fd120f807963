//! Rows as they are drawn: what each row of a list or cell of a grid shows, where, and in
//! which ink.

use crate::mark::SessionMarks;
use crate::row_source::{
    RowFlags, DIR_BIT, FOCUSED_BIT, HIDDEN_BIT, HOVERED_BIT, READONLY_BIT, SELECTED_BIT, SYMLINK_BIT,
};
use crate::selection::{holds, lone_row, Selection};
use vstd::prelude::*;

pub mod atlas;
pub mod format;
pub mod frame;
pub mod geometry;
pub mod grid;
pub mod ink;
pub mod list;
pub mod piece;
pub mod renderer;
pub mod truncate;

pub use self::format::{extension_start, format_mtime, format_size};
pub use self::geometry::{row_text_fit, Columns, GridMetrics, RowTextFit, StateRegion};
pub use self::ink::{kind_of, IconKind};
pub use self::renderer::{ListRenderer, ResolvedRole};
pub use self::truncate::{truncate_middle, ShapedRun, Truncation};

verus! {

/// What the view knows about this frame's rows, over and above what the source said.
///
/// Hover, focus and selection belong to the view: two panes that show the same directory
/// have different ones.
#[derive(Clone, Copy, PartialEq, Eq, Debug)]
pub struct Interaction<'a> {
    /// The row under the pointer.
    pub hovered: Option<u64>,
    /// The row with keyboard focus.
    pub focused: Option<u64>,
    /// What is selected; nothing where there is none.
    pub selection: Option<&'a Selection>,
    /// The row the pointer is held down on.
    pub pressed: Option<u64>,
    /// The sessions filed under the rows on screen; none where there are none.
    pub marks: Option<&'a SessionMarks>,
}

impl<'a> Default for Interaction<'a> {
    fn default() -> (result: Self)
        ensures
            result == Interaction::<'a>::nothing(),
    {
        Interaction { hovered: None, focused: None, selection: None, pressed: None, marks: None }
    }
}

impl<'a> Interaction<'a> {
    /// No interaction at all.
    pub open spec fn nothing() -> Interaction<'a> {
        Interaction { hovered: None, focused: None, selection: None, pressed: None, marks: None }
    }

    /// Whether `row` is selected.
    pub open spec fn selects(self, row: u64) -> bool {
        self.selection matches Some(s) && holds(s@, row)
    }

    /// The selected row, when there is exactly one.
    pub open spec fn lone_selected(self) -> Option<u64> {
        match self.selection {
            Some(s) => lone_row(s@),
            None => None,
        }
    }

    /// The state flags of `row`.
    pub open spec fn state_bits(self, row: u64) -> u32 {
        let hovered = if self.hovered == Some(row) {
            HOVERED_BIT
        } else {
            0
        };
        let focused = if self.focused == Some(row) {
            FOCUSED_BIT
        } else {
            0
        };
        let selected = if self.selects(row) {
            SELECTED_BIT
        } else {
            0
        };
        hovered | focused | selected
    }

    /// Interaction state with `selection` and nothing else.
    pub fn with_selection(selection: &'a Selection) -> (result: Interaction<'a>)
        ensures
            result == (Interaction { selection: Some(selection), ..Interaction::nothing() }),
    {
        Interaction {
            hovered: None,
            focused: None,
            selection: Some(selection),
            pressed: None,
            marks: None,
        }
    }

    /// The state flags that apply to `index`.
    pub fn flags_for(self, index: u64) -> (result: RowFlags)
        ensures
            result == RowFlags(self.state_bits(index)),
    {
        let mut flags: RowFlags = RowFlags::empty();
        if self.hovered == Some(index) {
            flags = flags | RowFlags::hovered();
        }
        if self.focused == Some(index) {
            flags = flags | RowFlags::focused();
        }
        let selected: bool = match self.selection {
            Some(selection) => selection.contains(index),
            None => false,
        };
        if selected {
            flags = flags | RowFlags::selected();
        }
        proof {
            assert(forall|x: u32| #[trigger] (0u32 | x) == x) by (bit_vector);
            assert(forall|x: u32| #[trigger] (x | 0u32) == x) by (bit_vector);
        }
        flags
    }
}

/// The view puts exactly three states on a row, each on the rows that are in it, and no attribute of
/// the data.
pub proof fn the_view_states_what_it_knows(interaction: Interaction<'_>, row: u64)
    ensures
        ({
            let flags = RowFlags(interaction.state_bits(row));
            &&& flags.has(HOVERED_BIT) <==> interaction.hovered == Some(row)
            &&& flags.has(FOCUSED_BIT) <==> interaction.focused == Some(row)
            &&& flags.has(SELECTED_BIT) <==> (interaction.selection matches Some(s) && holds(
                s@,
                row,
            ))
            &&& !flags.has(DIR_BIT)
            &&& !flags.has(HIDDEN_BIT)
            &&& !flags.has(SYMLINK_BIT)
            &&& !flags.has(READONLY_BIT)
        }),
{
    lemma_state_bits(
        if interaction.hovered == Some(row) {
            HOVERED_BIT
        } else {
            0
        },
        if interaction.focused == Some(row) {
            FOCUSED_BIT
        } else {
            0
        },
        if interaction.selects(row) {
            SELECTED_BIT
        } else {
            0
        },
    );
}

proof fn lemma_state_bits(h: u32, f: u32, s: u32)
    requires
        h == HOVERED_BIT || h == 0,
        f == FOCUSED_BIT || f == 0,
        s == SELECTED_BIT || s == 0,
    ensures
        ((h | f | s) & HOVERED_BIT == HOVERED_BIT) <==> h == HOVERED_BIT,
        ((h | f | s) & FOCUSED_BIT == FOCUSED_BIT) <==> f == FOCUSED_BIT,
        ((h | f | s) & SELECTED_BIT == SELECTED_BIT) <==> s == SELECTED_BIT,
        (h | f | s) & DIR_BIT != DIR_BIT,
        (h | f | s) & HIDDEN_BIT != HIDDEN_BIT,
        (h | f | s) & SYMLINK_BIT != SYMLINK_BIT,
        (h | f | s) & READONLY_BIT != READONLY_BIT,
{
    assert((h == 16 || h == 0) && (f == 32 || f == 0) && (s == 8 || s == 0) ==> {
        let all = h | f | s;
        &&& (all & 16 == 16) == (h == 16)
        &&& (all & 32 == 32) == (f == 32)
        &&& (all & 8 == 8) == (s == 8)
        &&& all & 1 != 1
        &&& all & 2 != 2
        &&& all & 4 != 4
        &&& all & 64 != 64
    }) by (bit_vector);
}

} // verus!
