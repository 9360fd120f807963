//! The material names that the views and the chrome ask for.

use vstd::prelude::*;

verus! {

/// The window's ground, painted before anything else.
pub const SURFACE_CANVAS: &'static str = "surface/canvas";

/// A row's own body on an unbanded row.
pub const ROW_BODY: &'static str = "row/body";

/// A row's own body on a banded row.
pub const ROW_BODY_ALT: &'static str = "row/body-alt";

/// Pointer hover and press on a row or a cell.
pub const ROW_HOVER: &'static str = "row/hover";

/// A selected row.
pub const ROW_SELECTED: &'static str = "row/selected";

/// The command bar's backing.
pub const CHROME_BAR: &'static str = "chrome/bar";

/// A hovered chip inside the command bar.
pub const CHROME_CHIP_HOVER: &'static str = "chrome/chip-hover";

/// The status shelf's backing.
pub const CHROME_SHELF: &'static str = "chrome/shelf";

/// Every material that a view names.
pub fn all() -> (result: [&'static str; 8])
    ensures
        result@ == seq![
            SURFACE_CANVAS,
            ROW_BODY,
            ROW_BODY_ALT,
            ROW_HOVER,
            ROW_SELECTED,
            CHROME_BAR,
            CHROME_CHIP_HOVER,
            CHROME_SHELF,
        ],
{
    let result: [&'static str; 8] = [
        SURFACE_CANVAS,
        ROW_BODY,
        ROW_BODY_ALT,
        ROW_HOVER,
        ROW_SELECTED,
        CHROME_BAR,
        CHROME_CHIP_HOVER,
        CHROME_SHELF,
    ];
    assert(result@ =~= seq![
        SURFACE_CANVAS,
        ROW_BODY,
        ROW_BODY_ALT,
        ROW_HOVER,
        ROW_SELECTED,
        CHROME_BAR,
        CHROME_CHIP_HOVER,
        CHROME_SHELF,
    ]);
    result
}

} // verus!
