//! Which rows are selected: a set of row numbers, kept as runs.
//!
//! Selecting everything is one run, however long the corpus is.

use std::ops::Range;
use vstd::prelude::*;

verus! {

/// A run of selected rows, both ends in it.
#[derive(Clone, Copy, PartialEq, Eq, Debug, Structural)]
pub struct Run {
    /// The first row of the run.
    pub first: u64,
    /// The last row of the run.
    pub last: u64,
}

/// A set of selected rows. Its view is the runs, in order and apart from each other.
#[derive(PartialEq, Eq, Debug)]
pub struct Selection {
    runs: Vec<Run>,
    anchor: u64,
}

impl View for Selection {
    type V = Seq<Run>;

    closed spec fn view(&self) -> Seq<Run> {
        self.runs@
    }
}

/// The runs go forward, and no two of them share a row.
pub open spec fn ordered(runs: Seq<Run>) -> bool {
    &&& forall|i: int| 0 <= i < runs.len() ==> #[trigger] runs[i].first <= runs[i].last
    &&& forall|i: int, j: int|
        0 <= i < j < runs.len() ==> #[trigger] runs[i].last < #[trigger] runs[j].first
}

/// Whether one of the runs holds `row`.
pub open spec fn holds(runs: Seq<Run>, row: u64) -> bool {
    exists|i: int| 0 <= i < runs.len() && #[trigger] runs[i].first <= row <= runs[i].last
}

/// How many rows the runs hold.
pub open spec fn rows_held(runs: Seq<Run>) -> nat
    decreases runs.len(),
{
    if runs.len() == 0 {
        0
    } else {
        rows_held(runs.drop_last()) + (runs.last().last - runs.last().first + 1) as nat
    }
}

impl Default for Selection {
    fn default() -> (result: Self)
        ensures
            result@ == Seq::<Run>::empty(),
            result.pivot() == 0,
    {
        Selection::new()
    }
}

impl Clone for Selection {
    fn clone(&self) -> (result: Self)
        ensures
            result@ == self@,
            result.pivot() == self.pivot(),
    {
        proof {
            use_type_invariant(self);
        }
        let runs: Vec<Run> = self.runs.clone();
        assert(runs@ =~= self.runs@);
        Selection { runs, anchor: self.anchor }
    }
}

impl Selection {
    #[verifier::type_invariant]
    spec fn well_formed(self) -> bool {
        ordered(self.runs@)
    }

    /// The row a range is extended from.
    pub closed spec fn pivot(&self) -> u64 {
        self.anchor
    }

    /// Nothing selected.
    pub fn new() -> (result: Self)
        ensures
            result@ == Seq::<Run>::empty(),
            result.pivot() == 0,
    {
        Selection { runs: Vec::new(), anchor: 0 }
    }

    /// Select `row` and nothing else, and extend ranges from it.
    pub fn select_only(&mut self, row: u64)
        ensures
            final(self)@ == seq![Run { first: row, last: row }],
            final(self).pivot() == row,
    {
        let mut runs: Vec<Run> = Vec::new();
        runs.push(Run { first: row, last: row });
        assert(runs@ =~= seq![Run { first: row, last: row }]);
        *self = Selection { runs, anchor: row };
    }

    /// Select every row between the one that ranges are extended from and `row`, both
    /// included, and nothing else.
    pub fn range_to(&mut self, row: u64)
        ensures
            final(self)@ == seq![
                if old(self).pivot() <= row {
                    Run { first: old(self).pivot(), last: row }
                } else {
                    Run { first: row, last: old(self).pivot() }
                },
            ],
            final(self).pivot() == old(self).pivot(),
    {
        let anchor: u64 = self.anchor;
        let run: Run = if anchor <= row {
            Run { first: anchor, last: row }
        } else {
            Run { first: row, last: anchor }
        };
        let mut runs: Vec<Run> = Vec::new();
        runs.push(run);
        assert(runs@ =~= seq![run]);
        *self = Selection { runs, anchor };
    }

    /// Select rows `0..count`.
    pub fn select_all(&mut self, count: u64)
        ensures
            final(self)@ == if count == 0 {
                Seq::<Run>::empty()
            } else {
                seq![Run { first: 0, last: (count - 1) as u64 }]
            },
            final(self).pivot() == old(self).pivot(),
    {
        let mut runs: Vec<Run> = Vec::new();
        if count > 0 {
            runs.push(Run { first: 0, last: count - 1 });
        }
        assert(runs@ =~= if count == 0 {
            Seq::<Run>::empty()
        } else {
            seq![Run { first: 0, last: (count - 1) as u64 }]
        });
        *self = Selection { runs, anchor: self.anchor };
    }

    /// Select `row` if it is not selected, and deselect it if it is; every other row stays
    /// as it was. Ranges are extended from it afterwards.
    pub fn toggle(&mut self, row: u64)
        ensures
            holds(final(self)@, row) == !holds(old(self)@, row),
            forall|other: u64|
                other != row ==> #[trigger] holds(final(self)@, other) == holds(old(self)@, other),
            final(self).pivot() == row,
    {
        proof {
            use_type_invariant(&*self);
        }
        let ghost old_runs = self.runs@;
        let mut runs: Vec<Run> = Vec::new();
        let mut i: usize = 0;
        let mut placed: bool = false;
        while i < self.runs.len()
            invariant
                i <= self.runs@.len(),
                self.runs@ == old_runs,
                ordered(old_runs),
                ordered(runs@),
                forall|j: int, k: int|
                    0 <= j < runs@.len() && i <= k < old_runs.len() ==> #[trigger] runs@[j].last
                        < #[trigger] old_runs[k].first,
                !placed ==> forall|j: int| 0 <= j < i ==> #[trigger] old_runs[j].last < row,
                !placed ==> runs@ == old_runs.take(i as int),
                placed ==> {
                    &&& holds(runs@, row) == !holds(old_runs.take(i as int), row)
                    &&& forall|k: int| i <= k < old_runs.len() ==> row < #[trigger] old_runs[k].first
                },
                forall|other: u64|
                    other != row ==> #[trigger] holds(runs@, other) == holds(
                        old_runs.take(i as int),
                        other,
                    ),
            decreases self.runs@.len() - i,
        {
            let run: Run = self.runs[i];
            let ghost before = runs@;
            let ghost done = old_runs.take(i as int);
            let ghost was_placed = placed;
            if placed || run.last < row {
                runs.push(run);
            } else if row < run.first {
                placed = true;
                runs.push(Run { first: row, last: row });
                runs.push(run);
            } else {
                placed = true;
                if run.first < row {
                    runs.push(Run { first: run.first, last: row - 1 });
                }
                if row < run.last {
                    runs.push(Run { first: row + 1, last: run.last });
                }
            }
            i = i + 1;
            proof {
                let next = old_runs.take(i as int);
                assert(next =~= done.push(run));
                lemma_holds_push(done, run);
                if was_placed || run.last < row {
                    lemma_holds_push(before, run);
                    assert(runs@ == before.push(run));
                    if !placed {
                        assert(runs@ =~= next);
                    }
                } else if row < run.first {
                    let one = Run { first: row, last: row };
                    lemma_holds_push(before, one);
                    lemma_holds_push(before.push(one), run);
                    assert(runs@ == before.push(one).push(run));
                    assert(!holds(done, row)) by {
                        if holds(done, row) {
                            let j = choose|j: int|
                                0 <= j < done.len() && #[trigger] done[j].first <= row
                                    <= done[j].last;
                            assert(old_runs[j].last < row);
                        }
                    }
                } else {
                    assert(before == done);
                    let a = Run { first: run.first, last: (row - 1) as u64 };
                    let b = Run { first: (row + 1) as u64, last: run.last };
                    lemma_holds_push(before, a);
                    lemma_holds_push(before, b);
                    lemma_holds_push(before.push(a), b);
                    assert(holds(next, row)) by {
                        assert(next[i as int - 1].first <= row <= next[i as int - 1].last);
                    }
                    assert(!holds(done, row)) by {
                        if holds(done, row) {
                            let j = choose|j: int|
                                0 <= j < done.len() && #[trigger] done[j].first <= row
                                    <= done[j].last;
                            assert(old_runs[j].last < row);
                        }
                    }
                }
            }
        }
        assert(old_runs.take(i as int) =~= old_runs);
        if !placed {
            let ghost before = runs@;
            let one: Run = Run { first: row, last: row };
            runs.push(one);
            proof {
                lemma_holds_push(before, one);
                assert(!holds(old_runs, row)) by {
                    if holds(old_runs, row) {
                        let j = choose|j: int|
                            0 <= j < old_runs.len() && #[trigger] old_runs[j].first <= row
                                <= old_runs[j].last;
                        assert(old_runs[j].last < row);
                    }
                }
            }
        }
        *self = Selection { runs, anchor: row };
    }

    /// Whether `row` is selected.
    pub fn contains(&self, row: u64) -> (result: bool)
        ensures
            result == holds(self@, row),
    {
        let mut i: usize = 0;
        while i < self.runs.len()
            invariant
                i <= self.runs@.len(),
                forall|j: int|
                    0 <= j < i ==> !(#[trigger] self.runs@[j].first <= row <= self.runs@[j].last),
            decreases self.runs@.len() - i,
        {
            if self.runs[i].first <= row && row <= self.runs[i].last {
                assert(self@[i as int].first <= row <= self@[i as int].last);
                return true;
            }
            i = i + 1;
        }
        false
    }

    /// Whether nothing is selected.
    pub fn is_empty(&self) -> (result: bool)
        ensures
            result == (self@.len() == 0),
    {
        self.runs.len() == 0
    }

    /// How many rows are selected, up to the largest number there is.
    pub fn len(&self) -> (result: u64)
        ensures
            result == if rows_held(self@) <= u64::MAX {
                rows_held(self@) as int
            } else {
                u64::MAX as int
            },
    {
        proof {
            use_type_invariant(self);
        }
        let mut total: u64 = 0;
        let mut i: usize = 0;
        assert(self@.take(0) =~= Seq::<Run>::empty());
        while i < self.runs.len()
            invariant
                i <= self.runs@.len(),
                ordered(self@),
                self@ == self.runs@,
                total == if rows_held(self@.take(i as int)) <= u64::MAX {
                    rows_held(self@.take(i as int)) as int
                } else {
                    u64::MAX as int
                },
            decreases self.runs@.len() - i,
        {
            let run: Run = self.runs[i];
            assert(self@.take(i as int + 1).drop_last() =~= self@.take(i as int));
            assert(self@[i as int].first <= self@[i as int].last);
            let span: u64 = run.last - run.first;
            total = if span >= u64::MAX - total {
                u64::MAX
            } else {
                total + span + 1
            };
            i = i + 1;
        }
        assert(self@.take(i as int) =~= self@);
        total
    }

    /// The row that a single moving region can stand for: the selected row, when there is
    /// exactly one.
    pub fn morph_target(&self) -> (result: Option<u64>)
        ensures
            result == lone_row(self@),
    {
        if self.runs.len() == 1 && self.runs[0].first == self.runs[0].last {
            Some(self.runs[0].first)
        } else {
            None
        }
    }

    /// The selected rows of `range`, in order. Walks the runs up to the end of the range, and of
    /// those that meet it the rows inside: a wide range with little selected costs little.
    pub fn iter_in(&self, range: Range<u64>) -> (result: Vec<u64>)
        ensures
            result@ == rows_in(self@, range.start as int, range.end as int),
    {
        proof {
            use_type_invariant(self);
        }
        let start: u64 = range.start;
        let end: u64 = range.end;
        let mut out: Vec<u64> = Vec::new();
        if end <= start {
            return out;
        }
        let mut row: u64 = start;
        let mut i: usize = 0;
        while i < self.runs.len() && self.runs[i].first < end
            invariant
                ordered(self@),
                self@ == self.runs@,
                i <= self.runs@.len(),
                start <= row <= end,
                out@ == rows_in(self@, start as int, row as int),
                forall|j: int| 0 <= j < i ==> #[trigger] self@[j].last < row || row == end,
            decreases self.runs@.len() - i,
        {
            let run: Run = self.runs[i];
            assert(self@[i as int].first <= self@[i as int].last);
            if row < end && run.last >= row {
                if run.first > row {
                    proof {
                        lemma_a_gap_holds_nothing(self@, i as int, row as int, run.first as int);
                        lemma_gaps_add_nothing(
                            self@,
                            start as int,
                            row as int,
                            run.first as int,
                        );
                    }
                    row = run.first;
                }
                while row < end && row <= run.last
                    invariant
                        start <= row <= end,
                        run.first <= row,
                        i < self@.len(),
                        self@[i as int] == run,
                        out@ == rows_in(self@, start as int, row as int),
                    decreases end - row,
                {
                    proof {
                        assert(self@[i as int].first <= row <= self@[i as int].last);
                        assert(holds(self@, row));
                    }
                    out.push(row);
                    row = row + 1;
                }
            }
            i = i + 1;
        }
        proof {
            if row < end {
                lemma_a_gap_holds_nothing(self@, i as int, row as int, end as int);
                lemma_gaps_add_nothing(self@, start as int, row as int, end as int);
            }
        }
        out
    }
}

/// No row from `a` up to `b` is held, where the runs before number `i` end below it and the others
/// begin above it.
proof fn lemma_a_gap_holds_nothing(runs: Seq<Run>, i: int, a: int, b: int)
    requires
        ordered(runs),
        0 <= i <= runs.len(),
        forall|j: int| 0 <= j < i ==> #[trigger] runs[j].last < a,
        i < runs.len() ==> runs[i].first >= b,
    ensures
        forall|row: u64| a <= row < b ==> !#[trigger] holds(runs, row),
{
    assert forall|row: u64| a <= row < b implies !#[trigger] holds(runs, row) by {
        if holds(runs, row) {
            let j = choose|j: int|
                0 <= j < runs.len() && #[trigger] runs[j].first <= row <= runs[j].last;
            if j < i {
                assert(runs[j].last < a);
            } else if j > i {
                assert(runs[i].first <= runs[i].last);
                assert(runs[i].last < runs[j].first);
            }
        }
    }
}

proof fn lemma_gaps_add_nothing(runs: Seq<Run>, start: int, a: int, b: int)
    requires
        0 <= start <= a <= b <= u64::MAX,
        forall|row: u64| a <= row < b ==> !#[trigger] holds(runs, row),
    ensures
        rows_in(runs, start, b) == rows_in(runs, start, a),
    decreases b - a,
{
    if a < b {
        lemma_gaps_add_nothing(runs, start, a, b - 1);
        assert(!holds(runs, (b - 1) as u64));
    }
}

/// The selected rows of `start..end`, in order.
pub open spec fn rows_in(runs: Seq<Run>, start: int, end: int) -> Seq<u64>
    decreases end - start,
{
    if end <= start {
        Seq::empty()
    } else if holds(runs, (end - 1) as u64) {
        rows_in(runs, start, end - 1).push((end - 1) as u64)
    } else {
        rows_in(runs, start, end - 1)
    }
}

/// The one selected row, when there is exactly one.
pub open spec fn lone_row(runs: Seq<Run>) -> Option<u64> {
    if runs.len() == 1 && runs[0].first == runs[0].last {
        Some(runs[0].first)
    } else {
        None
    }
}

proof fn lemma_holds_push(runs: Seq<Run>, run: Run)
    ensures
        forall|row: u64| #[trigger]
            holds(runs.push(run), row) == (holds(runs, row) || run.first <= row <= run.last),
{
    let pushed = runs.push(run);
    assert forall|row: u64| #[trigger] holds(pushed, row) == (holds(runs, row) || run.first <= row
        <= run.last) by {
        if holds(runs, row) {
            let i = choose|i: int| 0 <= i < runs.len() && #[trigger] runs[i].first <= row <= runs[i].last;
            assert(pushed[i].first <= row <= pushed[i].last);
        }
        if run.first <= row <= run.last {
            assert(pushed[runs.len() as int].first <= row <= pushed[runs.len() as int].last);
        }
        if holds(pushed, row) {
            let i = choose|i: int|
                0 <= i < pushed.len() && #[trigger] pushed[i].first <= row <= pushed[i].last;
            if i < runs.len() {
                assert(runs[i].first <= row <= runs[i].last);
            }
        }
    }
}

/// A selection has a row for a single region to move to exactly when one row is selected.
pub proof fn only_a_lone_row_moves(runs: Seq<Run>)
    requires
        ordered(runs),
    ensures
        lone_row(runs) is Some == (rows_held(runs) == 1),
        lone_row(runs) matches Some(row) ==> holds(runs, row),
{
    if runs.len() == 1 {
        assert(rows_held(runs.drop_last()) == 0);
        assert(runs[0].first <= runs[0].last);
        if runs[0].first == runs[0].last {
            assert(runs[0].first <= runs[0].first <= runs[0].last);
        }
    } else if runs.len() > 1 {
        let front = runs.drop_last();
        assert(runs[runs.len() - 1].first <= runs[runs.len() - 1].last);
        assert(runs[runs.len() - 2].first <= runs[runs.len() - 2].last);
        assert(front.last() == runs[runs.len() - 2]);
        assert(rows_held(front) >= 1);
    }
}

/// The rows of a range that are selected are listed in their order, each of them once, and no
/// other row is.
pub proof fn a_listing_is_of_the_selected_rows(runs: Seq<Run>, start: int, end: int)
    requires
        0 <= start,
        end <= u64::MAX + 1,
    ensures
        forall|row: u64|
            rows_in(runs, start, end).contains(row) <==> start <= row < end && (exists|i: int|
                0 <= i < runs.len() && #[trigger] runs[i].first <= row <= runs[i].last),
        forall|i: int, j: int|
            0 <= i < j < rows_in(runs, start, end).len() ==> rows_in(runs, start, end)[i]
                < rows_in(runs, start, end)[j],
    decreases end - start,
{
    let all = rows_in(runs, start, end);
    if end > start {
        a_listing_is_of_the_selected_rows(runs, start, end - 1);
        let before = rows_in(runs, start, end - 1);
        let row = (end - 1) as u64;
        assert forall|i: int| 0 <= i < before.len() implies #[trigger] before[i] < row by {
            assert(before.contains(before[i]));
        }
        assert forall|other: u64|
            all.contains(other) <==> start <= other < end && (exists|i: int|
                0 <= i < runs.len() && #[trigger] runs[i].first <= other <= runs[i].last) by {
            if holds(runs, row) {
                assert(all == before.push(row));
                if before.contains(other) {
                    let at = choose|at: int| 0 <= at < before.len() && before[at] == other;
                    assert(all[at] == other);
                }
                assert(all[before.len() as int] == row);
                if all.contains(other) && other != row {
                    let at = choose|at: int| 0 <= at < all.len() && all[at] == other;
                    assert(before[at] == other);
                }
            }
        }
    } else {
        assert(all.len() == 0);
    }
}

/// How many rows are selected is how many of all the rows there can be are listed as selected.
pub proof fn as_many_rows_are_held_as_are_listed(runs: Seq<Run>)
    requires
        ordered(runs),
    ensures
        rows_held(runs) == rows_in(runs, 0, u64::MAX + 1).len(),
    decreases runs.len(),
{
    let end = u64::MAX + 1;
    if runs.len() == 0 {
        lemma_nothing_is_listed(runs, end);
    } else {
        let front = runs.drop_last();
        let run = runs.last();
        assert(run == runs[runs.len() - 1]);
        assert forall|i: int| 0 <= i < front.len() implies #[trigger] front[i] == runs[i] by {}
        as_many_rows_are_held_as_are_listed(front);
        assert(runs =~= front.push(run));
        lemma_a_run_adds_its_rows(front, run, end);
    }
}

proof fn lemma_nothing_is_listed(runs: Seq<Run>, end: int)
    requires
        runs.len() == 0,
        0 <= end,
    ensures
        rows_in(runs, 0, end).len() == 0,
    decreases end,
{
    if end > 0 {
        lemma_nothing_is_listed(runs, end - 1);
        assert(!holds(runs, (end - 1) as u64));
    }
}

/// Of the rows below `end`, a run that comes after the others adds those it holds.
proof fn lemma_a_run_adds_its_rows(front: Seq<Run>, run: Run, end: int)
    requires
        run.first <= run.last,
        forall|i: int| 0 <= i < front.len() ==> #[trigger] front[i].last < run.first,
        0 <= end <= u64::MAX + 1,
    ensures
        rows_in(front.push(run), 0, end).len() == rows_in(front, 0, end).len() + if end <= run.first {
            0
        } else if end <= run.last {
            end - run.first
        } else {
            run.last - run.first + 1
        },
    decreases end,
{
    if end > 0 {
        lemma_a_run_adds_its_rows(front, run, end - 1);
        lemma_holds_push(front, run);
        let row = (end - 1) as u64;
        assert(holds(front.push(run), row) == (holds(front, row) || run.first <= row <= run.last));
        if run.first <= row {
            assert(!holds(front, row)) by {
                if holds(front, row) {
                    let i = choose|i: int|
                        0 <= i < front.len() && #[trigger] front[i].first <= row <= front[i].last;
                    assert(front[i].last < run.first);
                }
            }
        }
    }
}

} // verus!
