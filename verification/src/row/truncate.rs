//! Where text that is too wide is cut.
//!
//! A long file name is cut in the middle, because its extension is the part that tells most. The
//! extension is reserved before the head is measured, and every cut lands between clusters, so
//! that no half of a syllable is drawn.

use crate::material::roomy;
use crate::row::atlas::{is_placed, line_start};
use crate::row::format::extension_start;
use crate::row::piece::{Align, TextPiece};
use crate::units::{fits, Micros, WIDEST};
use vstd::prelude::*;

verus! {

/// One glyph of a shaped run.
#[derive(Clone, Copy, PartialEq, Eq, Debug, Structural)]
pub struct Glyph {
    /// Where its pen is, from the start of the run.
    pub x: Micros,
    /// How far it moves the pen.
    pub advance: Micros,
    /// The byte of the text that its cluster begins at.
    pub cluster: u32,
}

/// Text as it was shaped.
#[derive(Debug)]
pub struct ShapedRun {
    /// Its glyphs, in the order they are drawn.
    pub glyphs: Vec<Glyph>,
    /// How wide it is.
    pub width: Micros,
}

impl ShapedRun {
    /// Every length is small enough to add to.
    pub open spec fn sane(self) -> bool {
        &&& fits(self.width as int)
        &&& forall|i: int|
            0 <= i < self.glyphs@.len() ==> fits((#[trigger] self.glyphs@[i]).x as int) && fits(
                self.glyphs@[i].advance as int,
            )
    }
}

/// Where a run that is too wide is cut.
#[derive(Clone, Copy, PartialEq, Eq, Debug, Structural)]
pub struct Truncation {
    /// Glyphs before this one are drawn where they are.
    pub head: usize,
    /// Glyphs from this one on are drawn shifted left.
    pub tail: usize,
    /// Where the ellipsis is drawn.
    pub ellipsis_x: Micros,
    /// How far the tail is shifted left.
    pub tail_shift: Micros,
}

/// Where glyph `i` starts; the end of the run after the last.
pub open spec fn starts(glyphs: Seq<Glyph>, width: int, i: int) -> int {
    if 0 <= i < glyphs.len() {
        glyphs[i].x as int
    } else {
        width
    }
}

/// The first glyph from `from` on whose cluster begins at `byte` or later.
pub open spec fn first_at(glyphs: Seq<Glyph>, byte: int, from: int) -> int
    decreases glyphs.len() - from,
{
    if from >= glyphs.len() {
        glyphs.len() as int
    } else if glyphs[from].cluster >= byte {
        from
    } else {
        first_at(glyphs, byte, from + 1)
    }
}

/// Where the extension's tail begins, before anything is given up for room.
pub open spec fn whole_tail(glyphs: Seq<Glyph>, extension_byte: Option<usize>) -> int {
    match extension_byte {
        Some(byte) => first_at(glyphs, byte as int, 0),
        None => glyphs.len() as int,
    }
}

/// How much room is left for the head when the tail begins at glyph `tail`.
pub open spec fn room_for_head(
    glyphs: Seq<Glyph>,
    width: int,
    max_width: int,
    ellipsis_width: int,
    tail: int,
) -> int {
    max_width - ellipsis_width - (width - starts(glyphs, width, tail))
}

/// The longest tail from `tail` on that splits no cluster and leaves any room at all.
pub open spec fn kept_tail(
    glyphs: Seq<Glyph>,
    width: int,
    max_width: int,
    ellipsis_width: int,
    tail: int,
) -> int
    decreases glyphs.len() - tail,
{
    if tail >= glyphs.len() || is_cluster_start(glyphs, tail) && room_for_head(
        glyphs,
        width,
        max_width,
        ellipsis_width,
        tail,
    ) >= 0 {
        tail
    } else {
        kept_tail(glyphs, width, max_width, ellipsis_width, tail + 1)
    }
}

/// How many glyphs from `from` on end within `room`, up to the first that does not.
pub open spec fn fitting(glyphs: Seq<Glyph>, room: int, from: int) -> int
    decreases glyphs.len() - from,
{
    if from >= glyphs.len() || glyphs[from].x + glyphs[from].advance > room {
        from
    } else {
        fitting(glyphs, room, from + 1)
    }
}

/// Whether a cut before glyph `i` splits no cluster.
pub open spec fn is_cluster_start(glyphs: Seq<Glyph>, i: int) -> bool {
    i <= 0 || i >= glyphs.len() || glyphs[i].cluster != glyphs[i - 1].cluster
}

/// The last place up to `i` where a cut splits no cluster.
pub open spec fn snapped(glyphs: Seq<Glyph>, i: int) -> int
    decreases i,
{
    if is_cluster_start(glyphs, i) {
        i
    } else {
        snapped(glyphs, i - 1)
    }
}

/// Where a run is cut; nowhere if it fits.
pub open spec fn cut(
    glyphs: Seq<Glyph>,
    width: int,
    max_width: int,
    ellipsis_width: int,
    extension_byte: Option<usize>,
) -> Option<Truncation> {
    if width <= max_width || glyphs.len() == 0 {
        None
    } else {
        let tail = kept_tail(
            glyphs,
            width,
            max_width,
            ellipsis_width,
            whole_tail(glyphs, extension_byte),
        );
        let room = room_for_head(glyphs, width, max_width, ellipsis_width, tail);
        if room < 0 {
            Some(
                Truncation {
                    head: 0,
                    tail: glyphs.len() as usize,
                    ellipsis_x: 0,
                    tail_shift: 0,
                },
            )
        } else {
            let fit = fitting(glyphs, room, 0);
            let head = snapped(
                glyphs,
                if fit < tail {
                    fit
                } else {
                    tail
                },
            );
            let ellipsis_x = starts(glyphs, width, head);
            Some(
                Truncation {
                    head: head as usize,
                    tail: tail as usize,
                    ellipsis_x: ellipsis_x as Micros,
                    tail_shift: (starts(glyphs, width, tail) - (ellipsis_x
                        + ellipsis_width)) as Micros,
                },
            )
        }
    }
}

/// Where a run is cut so that it fits in `max_width`, with an ellipsis `ellipsis_width` wide.
/// Nothing if it fits already. The extension that begins at `extension_byte` is kept whole if
/// there is room for it; where not even the ellipsis fits, nothing is drawn at all.
pub fn truncate_middle(
    run: &ShapedRun,
    max_width: Micros,
    ellipsis_width: Micros,
    extension_byte: Option<usize>,
) -> (result: Option<Truncation>)
    requires
        run.sane(),
        fits(max_width as int),
        fits(ellipsis_width as int),
    ensures
        result == cut(
            run.glyphs@,
            run.width as int,
            max_width as int,
            ellipsis_width as int,
            extension_byte,
        ),
{
    let n: usize = run.glyphs.len();
    if run.width <= max_width || n == 0 {
        return None;
    }
    let mut tail: usize = match extension_byte {
        Some(byte) => position_at(&run.glyphs, byte),
        None => n,
    };
    let ghost whole = tail as int;
    let mut room: Micros = max_width - ellipsis_width - (run.width - start_of(run, tail));
    while tail < n && (room < 0 || splits_cluster(&run.glyphs, tail))
        invariant
            run.sane(),
            fits(max_width as int),
            fits(ellipsis_width as int),
            n == run.glyphs@.len(),
            tail <= n,
            room == room_for_head(
                run.glyphs@,
                run.width as int,
                max_width as int,
                ellipsis_width as int,
                tail as int,
            ),
            kept_tail(
                run.glyphs@,
                run.width as int,
                max_width as int,
                ellipsis_width as int,
                whole,
            ) == kept_tail(
                run.glyphs@,
                run.width as int,
                max_width as int,
                ellipsis_width as int,
                tail as int,
            ),
        decreases n - tail,
    {
        tail = tail + 1;
        room = max_width - ellipsis_width - (run.width - start_of(run, tail));
    }
    if room < 0 {
        return Some(Truncation { head: 0, tail: n, ellipsis_x: 0, tail_shift: 0 });
    }
    let fit: usize = count_fitting(run, room);
    let head: usize = snap_to_cluster_start(
        &run.glyphs,
        if fit < tail {
            fit
        } else {
            tail
        },
    );
    let ellipsis_x: Micros = start_of(run, head);
    Some(
        Truncation {
            head,
            tail,
            ellipsis_x,
            tail_shift: start_of(run, tail) - (ellipsis_x + ellipsis_width),
        },
    )
}

/// Whether a cut before glyph `i` splits a cluster.
fn splits_cluster(glyphs: &Vec<Glyph>, i: usize) -> (result: bool)
    ensures
        result == !is_cluster_start(glyphs@, i as int),
{
    i > 0 && i < glyphs.len() && glyphs[i].cluster == glyphs[i - 1].cluster
}

/// Where glyph `i` starts; the end of the run after the last.
fn start_of(run: &ShapedRun, i: usize) -> (result: Micros)
    requires
        run.sane(),
    ensures
        result == starts(run.glyphs@, run.width as int, i as int),
        fits(result as int),
{
    if i < run.glyphs.len() {
        run.glyphs[i].x
    } else {
        run.width
    }
}

/// The first glyph whose cluster begins at `byte` or later.
fn position_at(glyphs: &Vec<Glyph>, byte: usize) -> (result: usize)
    ensures
        result == first_at(glyphs@, byte as int, 0),
        result <= glyphs@.len(),
{
    let mut i: usize = 0;
    while i < glyphs.len()
        invariant
            i <= glyphs@.len(),
            first_at(glyphs@, byte as int, 0) == first_at(glyphs@, byte as int, i as int),
        decreases glyphs@.len() - i,
    {
        if glyphs[i].cluster as u64 >= byte as u64 {
            return i;
        }
        i = i + 1;
    }
    i
}

/// How many glyphs end within `room`, up to the first that does not.
fn count_fitting(run: &ShapedRun, room: Micros) -> (result: usize)
    requires
        run.sane(),
    ensures
        result == fitting(run.glyphs@, room as int, 0),
        result <= run.glyphs@.len(),
{
    let mut i: usize = 0;
    while i < run.glyphs.len()
        invariant
            run.sane(),
            i <= run.glyphs@.len(),
            fitting(run.glyphs@, room as int, 0) == fitting(run.glyphs@, room as int, i as int),
        decreases run.glyphs@.len() - i,
    {
        let glyph: Glyph = run.glyphs[i];
        assert(fits(glyph.x as int) && fits(glyph.advance as int));
        // The trailing edge, not the pen: a glyph that starts inside the room and ends outside
        // of it does not fit.
        if glyph.x + glyph.advance > room {
            return i;
        }
        i = i + 1;
    }
    i
}

/// Move `index` back until it is at the first glyph of a cluster.
pub fn snap_to_cluster_start(glyphs: &Vec<Glyph>, index: usize) -> (result: usize)
    requires
        index <= glyphs@.len(),
    ensures
        result == snapped(glyphs@, index as int),
        result <= index,
{
    let mut i: usize = index;
    while splits_cluster(glyphs, i)
        invariant
            i <= index <= glyphs@.len(),
            snapped(glyphs@, index as int) == snapped(glyphs@, i as int),
        decreases i,
    {
        i = i - 1;
    }
    i
}

proof fn lemma_kept(
    glyphs: Seq<Glyph>,
    width: int,
    max_width: int,
    ellipsis_width: int,
    tail: int,
)
    requires
        0 <= tail <= glyphs.len(),
    ensures
        ({
            let kept = kept_tail(glyphs, width, max_width, ellipsis_width, tail);
            &&& tail <= kept <= glyphs.len()
            &&& is_cluster_start(glyphs, kept)
            &&& kept < glyphs.len() ==> room_for_head(
                glyphs,
                width,
                max_width,
                ellipsis_width,
                kept,
            ) >= 0
        }),
    decreases glyphs.len() - tail,
{
    if tail < glyphs.len() && !(is_cluster_start(glyphs, tail) && room_for_head(
        glyphs,
        width,
        max_width,
        ellipsis_width,
        tail,
    ) >= 0) {
        lemma_kept(glyphs, width, max_width, ellipsis_width, tail + 1);
    }
}

proof fn lemma_first_at(glyphs: Seq<Glyph>, byte: int, from: int)
    requires
        0 <= from <= glyphs.len(),
    ensures
        from <= first_at(glyphs, byte, from) <= glyphs.len(),
        first_at(glyphs, byte, from) < glyphs.len() ==> glyphs[first_at(
            glyphs,
            byte,
            from,
        )].cluster >= byte,
        from < first_at(glyphs, byte, from) ==> glyphs[first_at(glyphs, byte, from) - 1].cluster
            < byte,
    decreases glyphs.len() - from,
{
    if from < glyphs.len() && glyphs[from].cluster < byte {
        lemma_first_at(glyphs, byte, from + 1);
    }
}

proof fn lemma_fitting(glyphs: Seq<Glyph>, room: int, from: int)
    requires
        0 <= from <= glyphs.len(),
    ensures
        from <= fitting(glyphs, room, from) <= glyphs.len(),
        forall|i: int|
            from <= i < fitting(glyphs, room, from) ==> (#[trigger] glyphs[i]).x
                + glyphs[i].advance <= room,
    decreases glyphs.len() - from,
{
    if from < glyphs.len() && glyphs[from].x + glyphs[from].advance <= room {
        lemma_fitting(glyphs, room, from + 1);
    }
}

proof fn lemma_snapped(glyphs: Seq<Glyph>, i: int)
    requires
        0 <= i,
    ensures
        0 <= snapped(glyphs, i) <= i,
        is_cluster_start(glyphs, snapped(glyphs, i)),
    decreases i,
{
    if !is_cluster_start(glyphs, i) {
        lemma_snapped(glyphs, i - 1);
    }
}

/// A run that is cut is cut between clusters, before the ellipsis and after it, and its head comes
/// before its tail. Every glyph of the head ends within the room that the ellipsis and the tail
/// leave it.
pub proof fn a_cut_is_clean(
    glyphs: Seq<Glyph>,
    width: int,
    max_width: int,
    ellipsis_width: int,
    extension_byte: Option<usize>,
)
    requires
        cut(glyphs, width, max_width, ellipsis_width, extension_byte) is Some,
        glyphs.len() <= usize::MAX,
    ensures
        ({
            let at = cut(glyphs, width, max_width, ellipsis_width, extension_byte)->0;
            let room = room_for_head(
                glyphs,
                width,
                max_width,
                ellipsis_width,
                at.tail as int,
            );
            &&& at.head <= at.tail <= glyphs.len()
            &&& at.tail < glyphs.len() ==> room >= 0
            &&& is_cluster_start(glyphs, at.head as int)
            &&& is_cluster_start(glyphs, at.tail as int)
            &&& forall|i: int|
                0 <= i < at.head ==> (#[trigger] glyphs[i]).x + glyphs[i].advance <= room
        }),
{
    let first = whole_tail(glyphs, extension_byte);
    match extension_byte {
        Some(byte) => lemma_first_at(glyphs, byte as int, 0),
        None => {},
    }
    lemma_kept(glyphs, width, max_width, ellipsis_width, first);
    let tail = kept_tail(glyphs, width, max_width, ellipsis_width, first);
    let room = room_for_head(glyphs, width, max_width, ellipsis_width, tail);
    if room >= 0 {
        lemma_fitting(glyphs, room, 0);
        let fit = fitting(glyphs, room, 0);
        lemma_snapped(
            glyphs,
            if fit < tail {
                fit
            } else {
                tail
            },
        );
    }
}

/// Whether each glyph starts where the one before it ends.
pub open spec fn is_contiguous(glyphs: Seq<Glyph>, width: int) -> bool {
    &&& starts(glyphs, width, 0) == 0
    &&& forall|i: int|
        0 <= i < glyphs.len() ==> (#[trigger] glyphs[i]).x + glyphs[i].advance == starts(
            glyphs,
            width,
            i + 1,
        )
}

/// What is drawn of a cut run fits: its head, the ellipsis and its tail are together no wider
/// than the column, unless not even the ellipsis fits and neither head nor tail is drawn.
pub proof fn a_cut_run_fits_its_column(
    glyphs: Seq<Glyph>,
    width: int,
    max_width: int,
    ellipsis_width: int,
    extension_byte: Option<usize>,
)
    requires
        cut(glyphs, width, max_width, ellipsis_width, extension_byte) is Some,
        glyphs.len() <= usize::MAX,
        is_contiguous(glyphs, width),
    ensures
        ({
            let at = cut(glyphs, width, max_width, ellipsis_width, extension_byte)->0;
            let head = starts(glyphs, width, at.head as int);
            let tail = width - starts(glyphs, width, at.tail as int);
            ||| head + ellipsis_width + tail <= max_width
            ||| at.head == 0 && at.tail == glyphs.len()
        }),
{
    a_cut_is_clean(glyphs, width, max_width, ellipsis_width, extension_byte);
    let at = cut(glyphs, width, max_width, ellipsis_width, extension_byte)->0;
    if at.head > 0 {
        let last = at.head - 1;
        assert(glyphs[last].x + glyphs[last].advance == starts(glyphs, width, at.head as int));
    }
}

/// An extension that leaves any room beside the ellipsis is kept whole.
pub proof fn an_extension_that_fits_is_kept(
    glyphs: Seq<Glyph>,
    width: int,
    max_width: int,
    ellipsis_width: int,
    extension_byte: usize,
)
    requires
        width > max_width,
        glyphs.len() > 0,
        glyphs.len() <= usize::MAX,
        room_for_head(
            glyphs,
            width,
            max_width,
            ellipsis_width,
            whole_tail(glyphs, Some(extension_byte)),
        ) >= 0,
    ensures
        cut(glyphs, width, max_width, ellipsis_width, Some(extension_byte)) is Some,
        cut(glyphs, width, max_width, ellipsis_width, Some(extension_byte))->0.tail == whole_tail(
            glyphs,
            Some(extension_byte),
        ),
{
    lemma_first_at(glyphs, extension_byte as int, 0);
}

/// Where the ellipsis does not fit, nothing is drawn.
pub proof fn too_narrow_draws_nothing(
    glyphs: Seq<Glyph>,
    width: int,
    max_width: int,
    ellipsis_width: int,
    extension_byte: Option<usize>,
)
    requires
        width > max_width,
        glyphs.len() > 0,
        glyphs.len() <= usize::MAX,
        ellipsis_width > max_width,
        forall|i: int| 0 <= i < glyphs.len() ==> (#[trigger] glyphs[i]).x <= width,
    ensures
        cut(glyphs, width, max_width, ellipsis_width, extension_byte) == Some(
            Truncation { head: 0, tail: glyphs.len() as usize, ellipsis_x: 0, tail_shift: 0 },
        ),
{
    let first = whole_tail(glyphs, extension_byte);
    match extension_byte {
        Some(byte) => lemma_first_at(glyphs, byte as int, 0),
        None => {},
    }
    lemma_kept(glyphs, width, max_width, ellipsis_width, first);
}

/// Where the parts of a text are drawn. A part is a range of glyphs and where its run starts.
#[derive(Clone, Copy, PartialEq, Eq, Debug, Structural)]
pub struct TextLayout {
    /// Where the run starts.
    pub x: Micros,
    /// Glyphs before this one are drawn.
    pub head: usize,
    /// Where the ellipsis starts, if there is one.
    pub ellipsis: Option<Micros>,
    /// Glyphs from this one on are drawn too.
    pub tail: usize,
    /// Where the run would start for its tail.
    pub tail_x: Micros,
}

/// Whether a run can start at `x`: its glyphs are then all at positions that can be told.
pub open spec fn is_origin(x: int) -> bool {
    i128::MIN + WIDEST <= x <= i128::MAX - WIDEST
}

impl TextLayout {
    /// Whether this is a layout of these glyphs: its head comes before its tail, and both are in
    /// the run.
    pub open spec fn is_of(self, glyphs: Seq<Glyph>) -> bool {
        &&& self.head <= self.tail <= glyphs.len()
        &&& is_origin(self.x as int)
        &&& is_origin(self.tail_x as int)
    }
}

/// A text that starts at `x` and is drawn whole.
pub open spec fn uncut(glyphs: Seq<Glyph>, x: int) -> TextLayout {
    TextLayout {
        x: x as Micros,
        head: glyphs.len() as usize,
        ellipsis: None,
        tail: glyphs.len() as usize,
        tail_x: x as Micros,
    }
}

/// Where the parts of a text that starts at `x` are drawn. An ellipsis that does not fit by
/// itself is not drawn.
pub open spec fn laid_out(
    glyphs: Seq<Glyph>,
    width: int,
    x: int,
    max_width: int,
    ellipsis_width: int,
    extension_byte: Option<usize>,
) -> TextLayout {
    match cut(glyphs, width, max_width, ellipsis_width, extension_byte) {
        None => uncut(glyphs, x),
        Some(at) => TextLayout {
            x: x as Micros,
            head: at.head,
            ellipsis: if ellipsis_width > max_width {
                None
            } else {
                Some((x + at.ellipsis_x) as Micros)
            },
            tail: at.tail,
            tail_x: (x - at.tail_shift) as Micros,
        },
    }
}

/// Where the parts of a text are drawn, once it is shaped. Nothing for an empty text, or where
/// there is no room. A file name keeps its extension.
pub fn draw_text(
    text: &str,
    run: &ShapedRun,
    ellipsis_width: Micros,
    x: Micros,
    max_width: Micros,
    middle_ellipsis: bool,
) -> (result: Option<TextLayout>)
    requires
        run.sane(),
        roomy(x as int),
        fits(max_width as int),
        fits(ellipsis_width as int),
    ensures
        result is None <==> text@.len() == 0 || max_width <= 0,
        result matches Some(layout) ==> layout.is_of(run.glyphs@),
        result matches Some(layout) ==> exists|extension: Option<usize>| #[trigger]
            is_extension_of(text@, middle_ellipsis, extension) && layout == laid_out(
                run.glyphs@,
                run.width as int,
                x as int,
                max_width as int,
                ellipsis_width as int,
                extension,
            ),
{
    if text.is_empty() || max_width <= 0 {
        return None;
    }
    let extension: Option<usize> = if middle_ellipsis {
        extension_start(text)
    } else {
        None
    };
    assert(is_extension_of(text@, middle_ellipsis, extension));
    let n: usize = run.glyphs.len();
    match truncate_middle(run, max_width, ellipsis_width, extension) {
        None => Some(TextLayout { x, head: n, ellipsis: None, tail: n, tail_x: x }),
        Some(at) => {
            proof {
                lemma_cut_is_bounded(
                    *run,
                    max_width as int,
                    ellipsis_width as int,
                    extension,
                );
                a_cut_is_clean(
                    run.glyphs@,
                    run.width as int,
                    max_width as int,
                    ellipsis_width as int,
                    extension,
                );
            }
            Some(
                TextLayout {
                    x,
                    head: at.head,
                    ellipsis: if ellipsis_width > max_width {
                        None
                    } else {
                        Some(x + at.ellipsis_x)
                    },
                    tail: at.tail,
                    tail_x: x - at.tail_shift,
                },
            )
        },
    }
}

impl TextPiece<String> {
    /// Where the parts of this line are drawn, once it is shaped. A line that ends where it is put
    /// is drawn whole, whatever its width; any other is cut where it is too long.
    pub fn lay_out(&self, run: &ShapedRun, ellipsis_width: Micros) -> (result: Option<TextLayout>)
        requires
            run.sane(),
            fits(self.max_width as int),
            fits(ellipsis_width as int),
            is_placed(self.align),
        ensures
            result matches Some(layout) ==> layout.is_of(run.glyphs@),
            ({
                let x = line_start(self.align, run.width as int, self.max_width as int);
                if self.align is Right {
                    result == Some(uncut(run.glyphs@, x))
                } else {
                    &&& result is None <==> self.text@.len() == 0 || self.max_width <= 0
                    &&& result matches Some(layout) ==> exists|extension: Option<usize>| #[trigger]
                        is_extension_of(self.text@, self.middle_ellipsis, extension) && layout
                            == laid_out(
                            run.glyphs@,
                            run.width as int,
                            x,
                            self.max_width as int,
                            ellipsis_width as int,
                            extension,
                        )
                }
            }),
    {
        let x: Micros = self.start(run.width);
        match self.align {
            Align::Right(_) => {
                let n: usize = run.glyphs.len();
                Some(TextLayout { x, head: n, ellipsis: None, tail: n, tail_x: x })
            },
            _ => draw_text(
                self.text.as_str(),
                run,
                ellipsis_width,
                x,
                self.max_width,
                self.middle_ellipsis,
            ),
        }
    }
}

/// Whether `extension` is where the extension of a text is kept from: nowhere if it is not a
/// file name.
pub open spec fn is_extension_of(
    text: Seq<char>,
    middle_ellipsis: bool,
    extension: Option<usize>,
) -> bool {
    let bytes = vstd::utf8::encode_utf8(text);
    match extension {
        Some(at) => middle_ellipsis && crate::row::format::extends_at(bytes, at as int),
        None => middle_ellipsis ==> forall|at: int| !(
        #[trigger] crate::row::format::extends_at(bytes, at)),
    }
}

proof fn lemma_cut_is_bounded(
    run: ShapedRun,
    max_width: int,
    ellipsis_width: int,
    extension_byte: Option<usize>,
)
    requires
        run.sane(),
        fits(ellipsis_width),
    ensures
        cut(run.glyphs@, run.width as int, max_width, ellipsis_width, extension_byte) matches Some(
            at,
        ) ==> -4_000_000_000_000_000_000 <= at.ellipsis_x <= 4_000_000_000_000_000_000
            && -4_000_000_000_000_000_000 <= at.tail_shift <= 4_000_000_000_000_000_000,
{
}

/// Glyphs `from..to` of a run that starts at `origin`, each with its pen position.
pub open spec fn part(
    glyphs: Seq<Glyph>,
    from: int,
    to: int,
    origin: int,
) -> Seq<(usize, Micros)> {
    Seq::new(
        if to <= from {
            0
        } else {
            (to - from) as nat
        },
        |k: int| ((from + k) as usize, (origin + glyphs[from + k].x) as Micros),
    )
}

/// The glyphs of a run that are drawn, each with its pen position: the head where the run starts,
/// and then the tail where the run would start for its tail.
pub open spec fn pens(glyphs: Seq<Glyph>, layout: TextLayout) -> Seq<(usize, Micros)> {
    part(glyphs, 0, layout.head as int, layout.x as int) + part(
        glyphs,
        layout.tail as int,
        glyphs.len() as int,
        layout.tail_x as int,
    )
}

/// Add glyphs `from..to` of a run that starts at `origin`.
fn put_part(
    pens: &mut Vec<(usize, Micros)>,
    run: &ShapedRun,
    from: usize,
    to: usize,
    origin: Micros,
)
    requires
        run.sane(),
        from <= to <= run.glyphs@.len(),
        is_origin(origin as int),
    ensures
        final(pens)@ == old(pens)@ + part(run.glyphs@, from as int, to as int, origin as int),
{
    let mut i: usize = from;
    assert(pens@ =~= old(pens)@ + part(run.glyphs@, from as int, i as int, origin as int));
    while i < to
        invariant
            run.sane(),
            from <= i <= to <= run.glyphs@.len(),
            is_origin(origin as int),
            pens@ == old(pens)@ + part(run.glyphs@, from as int, i as int, origin as int),
        decreases to - i,
    {
        assert(fits(run.glyphs@[i as int].x as int));
        let pen: Micros = origin + run.glyphs[i].x;
        pens.push((i, pen));
        i = i + 1;
        assert(pens@ =~= old(pens)@ + part(run.glyphs@, from as int, i as int, origin as int));
    }
}

/// Which glyphs of a run are drawn, and at which pen position each: those of its head, and then
/// those of its tail. Those between give way to the ellipsis, which is a run of its own.
pub fn glyph_pens(run: &ShapedRun, layout: &TextLayout) -> (result: Vec<(usize, Micros)>)
    requires
        run.sane(),
        layout.is_of(run.glyphs@),
    ensures
        result@ == pens(run.glyphs@, *layout),
{
    let n: usize = run.glyphs.len();
    let mut out: Vec<(usize, Micros)> = Vec::new();
    put_part(&mut out, run, 0, layout.head, layout.x);
    put_part(&mut out, run, layout.tail, n, layout.tail_x);
    assert(out@ =~= pens(run.glyphs@, *layout));
    out
}

/// No glyph is drawn twice, and they are drawn in the order of the run.
pub proof fn glyphs_are_drawn_in_order(glyphs: Seq<Glyph>, layout: TextLayout, i: int, j: int)
    requires
        layout.is_of(glyphs),
        glyphs.len() <= usize::MAX,
        0 <= i < j < pens(glyphs, layout).len(),
    ensures
        pens(glyphs, layout)[i].0 < pens(glyphs, layout)[j].0,
{
}

/// A text that is not cut is drawn whole, each glyph where its run has it.
pub proof fn an_uncut_text_is_drawn_whole(glyphs: Seq<Glyph>, x: Micros)
    requires
        is_origin(x as int),
        glyphs.len() <= usize::MAX,
    ensures
        pens(glyphs, uncut(glyphs, x as int)) == part(glyphs, 0, glyphs.len() as int, x as int),
{
    assert(pens(glyphs, uncut(glyphs, x as int)) =~= part(
        glyphs,
        0,
        glyphs.len() as int,
        x as int,
    ));
}

proof fn lemma_fitting_stops(glyphs: Seq<Glyph>, room: int, from: int)
    requires
        0 <= from <= glyphs.len(),
    ensures
        ({
            let fit = fitting(glyphs, room, from);
            from <= fit <= glyphs.len() && (fit < glyphs.len() ==> glyphs[fit].x + glyphs[fit].advance
                > room)
        }),
    decreases glyphs.len() - from,
{
    if from < glyphs.len() && glyphs[from].x + glyphs[from].advance <= room {
        lemma_fitting_stops(glyphs, room, from + 1);
    }
}

proof fn lemma_snapped_is_last(glyphs: Seq<Glyph>, i: int, later: int)
    requires
        0 <= i,
        snapped(glyphs, i) < later <= i,
    ensures
        !is_cluster_start(glyphs, later),
    decreases i,
{
    if !is_cluster_start(glyphs, i) && later < i {
        lemma_snapped_is_last(glyphs, i - 1, later);
    }
}

/// A run is cut exactly where it is too wide.
pub proof fn only_what_is_too_wide_is_cut(
    glyphs: Seq<Glyph>,
    width: int,
    max_width: int,
    ellipsis_width: int,
    extension_byte: Option<usize>,
)
    ensures
        cut(glyphs, width, max_width, ellipsis_width, extension_byte) is Some <==> width > max_width
            && glyphs.len() > 0,
{
}

/// The head is the longest that fits: with the tail that is kept, any later cut between two clusters
/// would have a glyph before it that ends past the room that the ellipsis and the tail leave. The
/// room is what is left of the column beside the ellipsis and everything from the tail's first glyph
/// to the end of the run. Where there is none, neither head nor tail is drawn.
pub proof fn the_head_is_the_longest_that_fits(
    glyphs: Seq<Glyph>,
    width: int,
    max_width: int,
    ellipsis_width: int,
    extension_byte: Option<usize>,
    later: int,
)
    requires
        cut(glyphs, width, max_width, ellipsis_width, extension_byte) is Some,
        glyphs.len() <= usize::MAX,
    ensures
        ({
            let at = cut(glyphs, width, max_width, ellipsis_width, extension_byte)->0;
            let room = max_width - ellipsis_width - (if at.tail < glyphs.len() {
                width - glyphs[at.tail as int].x
            } else {
                0
            });
            &&& room < 0 ==> at.head == 0 && at.tail == glyphs.len()
            &&& room >= 0 && at.head < later <= at.tail && (later == glyphs.len()
                || glyphs[later].cluster != glyphs[later - 1].cluster) ==> exists|j: int|
                0 <= j < later && (#[trigger] glyphs[j]).x + glyphs[j].advance > room
        }),
{
    a_cut_is_clean(glyphs, width, max_width, ellipsis_width, extension_byte);
    let first = whole_tail(glyphs, extension_byte);
    match extension_byte {
        Some(byte) => lemma_first_at(glyphs, byte as int, 0),
        None => {},
    }
    lemma_kept(glyphs, width, max_width, ellipsis_width, first);
    let at = cut(glyphs, width, max_width, ellipsis_width, extension_byte)->0;
    let tail = kept_tail(glyphs, width, max_width, ellipsis_width, first);
    let room = room_for_head(glyphs, width, max_width, ellipsis_width, tail);
    if room >= 0 {
        lemma_fitting_stops(glyphs, room, 0);
        let fit = fitting(glyphs, room, 0);
        let end = if fit < tail {
            fit
        } else {
            tail
        };
        lemma_snapped(glyphs, end);
        if at.head < later <= at.tail && (later == glyphs.len() || glyphs[later].cluster
            != glyphs[later - 1].cluster) {
            if later <= end {
                lemma_snapped_is_last(glyphs, end, later);
            } else {
                assert(glyphs[fit].x + glyphs[fit].advance > room);
            }
        }
    }
}

proof fn lemma_kept_is_first(
    glyphs: Seq<Glyph>,
    width: int,
    max_width: int,
    ellipsis_width: int,
    from: int,
    t: int,
)
    requires
        0 <= from <= t,
        t < kept_tail(glyphs, width, max_width, ellipsis_width, from),
        t < glyphs.len(),
    ensures
        !is_cluster_start(glyphs, t) || room_for_head(
            glyphs,
            width,
            max_width,
            ellipsis_width,
            t,
        ) < 0,
    decreases t - from,
{
    if from < t {
        lemma_kept_is_first(glyphs, width, max_width, ellipsis_width, from + 1, t);
    }
}

proof fn lemma_first_at_is_first(glyphs: Seq<Glyph>, byte: int, from: int, j: int)
    requires
        0 <= from <= j < glyphs.len(),
        glyphs[j].cluster >= byte,
    ensures
        first_at(glyphs, byte, from) <= j,
    decreases j - from,
{
    if glyphs[from].cluster < byte {
        lemma_first_at_is_first(glyphs, byte, from + 1, j);
    }
}

/// The tail is as much of the extension as fits beside the ellipsis, and nothing but the extension: a
/// tail that began earlier, between two clusters and inside the extension, would leave no room even
/// for an empty head. Without an extension there is no tail.
pub proof fn the_tail_is_the_longest_that_fits(
    glyphs: Seq<Glyph>,
    width: int,
    max_width: int,
    ellipsis_width: int,
    extension_byte: Option<usize>,
    earlier: int,
)
    requires
        cut(glyphs, width, max_width, ellipsis_width, extension_byte) is Some,
        glyphs.len() <= usize::MAX,
    ensures
        ({
            let at = cut(glyphs, width, max_width, ellipsis_width, extension_byte)->0;
            &&& extension_byte is None ==> at.tail == glyphs.len()
            &&& extension_byte matches Some(byte) ==> {
                &&& at.tail < glyphs.len() ==> exists|j: int|
                    0 <= j <= at.tail && (#[trigger] glyphs[j]).cluster >= byte
                &&& 0 <= earlier < at.tail && glyphs[earlier].cluster >= byte && (earlier == 0
                    || glyphs[earlier].cluster != glyphs[earlier - 1].cluster) ==> max_width
                    - ellipsis_width - (width - glyphs[earlier].x) < 0
            }
        }),
{
    let first = whole_tail(glyphs, extension_byte);
    match extension_byte {
        Some(byte) => {
            lemma_first_at(glyphs, byte as int, 0);
            lemma_kept(glyphs, width, max_width, ellipsis_width, first);
            let at = cut(glyphs, width, max_width, ellipsis_width, extension_byte)->0;
            let tail = kept_tail(glyphs, width, max_width, ellipsis_width, first);
            if at.tail < glyphs.len() {
                assert(glyphs[first].cluster >= byte);
            }
            if 0 <= earlier < at.tail && glyphs[earlier].cluster >= byte && (earlier == 0
                || glyphs[earlier].cluster != glyphs[earlier - 1].cluster) {
                lemma_first_at_is_first(glyphs, byte as int, 0, earlier);
                if earlier < tail {
                    lemma_kept_is_first(
                        glyphs,
                        width,
                        max_width,
                        ellipsis_width,
                        first,
                        earlier,
                    );
                }
            }
        },
        None => {},
    }
}

/// The ellipsis starts where the first glyph that is left out would have, and the tail right behind it:
/// what is drawn of a text that is cut has no hole in it and nothing drawn over anything else.
pub proof fn the_ellipsis_fills_the_gap(
    glyphs: Seq<Glyph>,
    width: int,
    x: int,
    max_width: int,
    ellipsis_width: int,
    extension_byte: Option<usize>,
)
    requires
        cut(glyphs, width, max_width, ellipsis_width, extension_byte) is Some,
        glyphs.len() <= usize::MAX,
        fits(width),
        fits(max_width),
        0 <= ellipsis_width <= max_width,
        roomy(x),
        forall|i: int| 0 <= i < glyphs.len() ==> fits((#[trigger] glyphs[i]).x as int),
    ensures
        ({
            let layout = laid_out(glyphs, width, x, max_width, ellipsis_width, extension_byte);
            let at = cut(glyphs, width, max_width, ellipsis_width, extension_byte)->0;
            let head_ends = if layout.head < glyphs.len() {
                glyphs[layout.head as int].x as int
            } else {
                width
            };
            &&& layout.head == at.head
            &&& layout.tail == at.tail
            &&& layout.x == x
            &&& layout.ellipsis == Some((x + head_ends) as Micros)
            &&& layout.tail < glyphs.len() ==> layout.tail_x + glyphs[layout.tail as int].x
                == layout.ellipsis->0 + ellipsis_width
        }),
{
    let first = whole_tail(glyphs, extension_byte);
    match extension_byte {
        Some(byte) => lemma_first_at(glyphs, byte as int, 0),
        None => {},
    }
    lemma_kept(glyphs, width, max_width, ellipsis_width, first);
    let tail = kept_tail(glyphs, width, max_width, ellipsis_width, first);
    let room = room_for_head(glyphs, width, max_width, ellipsis_width, tail);
    assert(room >= 0);
    lemma_fitting(glyphs, room, 0);
    let fit = fitting(glyphs, room, 0);
    let end = if fit < tail {
        fit
    } else {
        tail
    };
    lemma_snapped(glyphs, end);
    let head = snapped(glyphs, end);
    let at = cut(glyphs, width, max_width, ellipsis_width, extension_byte)->0;
    assert(at.head == head && at.tail == tail);
    let ellipsis_x = starts(glyphs, width, head);
    assert(fits(ellipsis_x));
    assert(at.ellipsis_x == ellipsis_x);
    assert(at.tail_shift == starts(glyphs, width, tail) - (ellipsis_x + ellipsis_width));
}

} // verus!
