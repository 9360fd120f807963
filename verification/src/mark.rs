//! What the application knows about a row that its source does not: that agent sessions are
//! filed under a directory.
//!
//! A mark carries a count, a confidence and the name of a token, never what a session is.

use crate::text;
use crate::text::{a_number_reads_back, all_digits, decimal, value_of};
use crate::units::{min_of, smaller, Micros, MICRO};
use vstd::prelude::*;

verus! {

/// The sessions filed under one directory, as a row is allowed to state them.
///
/// There is no mark for zero sessions: nothing here is the absence of a mark.
#[derive(PartialEq, Eq, Debug)]
pub struct SessionMark {
    count: usize,
    vouched: bool,
    rail: Option<&'static str>,
    arrival: Option<Micros>,
}

/// What a row draws for `count` sessions.
pub open spec fn words_for(count: nat) -> Seq<char> {
    decimal(count) + if count == 1 {
        " session"@
    } else {
        " sessions"@
    }
}

impl Clone for SessionMark {
    fn clone(&self) -> (result: Self)
        ensures
            result == *self,
    {
        proof {
            use_type_invariant(self);
        }
        SessionMark {
            count: self.count,
            vouched: self.vouched,
            rail: self.rail,
            arrival: self.arrival,
        }
    }
}

impl SessionMark {
    #[verifier::type_invariant]
    spec fn well_formed(self) -> bool {
        &&& self.count > 0
        &&& self.arrival matches Some(x) ==> 0 < x <= MICRO
    }

    /// How many sessions there are.
    pub closed spec fn sessions(&self) -> nat {
        self.count as nat
    }

    /// Whether a shell vouched for any of them.
    pub closed spec fn is_vouched(&self) -> bool {
        self.vouched
    }

    /// The rail token for the worst outcome among them.
    pub closed spec fn rail_token(&self) -> Option<&'static str> {
        self.rail
    }

    /// How bright the arrival flash is.
    pub closed spec fn flash(&self) -> Option<Micros> {
        self.arrival
    }

    /// A mark for `count` sessions, or `None` when there are none to mark.
    pub fn new(count: usize, vouched: bool, rail: Option<&'static str>) -> (result: Option<Self>)
        ensures
            result is Some == (count > 0),
            result matches Some(mark) ==> mark.sessions() == count && mark.is_vouched() == vouched
                && mark.rail_token() == rail && mark.flash() is None,
    {
        if count > 0 {
            Some(SessionMark { count, vouched, rail, arrival: None })
        } else {
            None
        }
    }

    /// The same mark while a session filed here has just started waiting: a flash that
    /// fades. One that has faded out is no flash.
    pub fn with_arrival(self, intensity: Option<Micros>) -> (result: Self)
        ensures
            result.sessions() == self.sessions(),
            result.is_vouched() == self.is_vouched(),
            result.rail_token() == self.rail_token(),
            result.flash() == match intensity {
                Some(x) => if x > 0 {
                    Some(min_of(x as int, 1_000_000) as Micros)
                } else {
                    None
                },
                None => None,
            },
    {
        proof {
            use_type_invariant(&self);
        }
        let arrival: Option<Micros> = match intensity {
            Some(x) => if x > 0 {
                Some(smaller(x, MICRO))
            } else {
                None
            },
            None => None,
        };
        SessionMark { count: self.count, vouched: self.vouched, rail: self.rail, arrival }
    }

    /// How many sessions there are, never zero.
    pub fn count(&self) -> (result: usize)
        ensures
            result == self.sessions(),
            result > 0,
    {
        proof {
            use_type_invariant(self);
        }
        self.count
    }

    /// Whether any session here was vouched for by its shell.
    pub fn vouched(&self) -> (result: bool)
        ensures
            result == self.is_vouched(),
    {
        self.vouched
    }

    /// The rail token for the worst state, or `None` when every session is alive.
    pub fn rail(&self) -> (result: Option<&'static str>)
        ensures
            result == self.rail_token(),
    {
        self.rail
    }

    /// How bright the arrival flash is, if there is one: above zero and at most one.
    pub fn arrival(&self) -> (result: Option<Micros>)
        ensures
            result == self.flash(),
            result matches Some(x) ==> 0 < x <= MICRO,
    {
        proof {
            use_type_invariant(self);
        }
        self.arrival
    }

    /// What the row draws, in the slot that a folder leaves empty.
    pub fn words(&self) -> (result: String)
        ensures
            result@ == words_for(self.sessions()),
    {
        let mut out: String = text::write_decimal(self.count as u64);
        if self.count == 1 {
            out.append(" session");
        } else {
            out.append(" sessions");
        }
        out
    }

    /// What a screen reader hears: the confidence that the ink shows, in words.
    pub fn spoken(&self) -> (result: String)
        ensures
            result@ == words_for(self.sessions()) + if self.is_vouched() {
                " (reported by a shell)"@
            } else {
                " (inherited, not confirmed)"@
            },
    {
        let mut out: String = self.words();
        if self.vouched {
            out.append(" (reported by a shell)");
        } else {
            out.append(" (inherited, not confirmed)");
        }
        out
    }
}

/// A vouched mark and an inherited one never sound the same.
pub proof fn confidence_is_audible(count: nat)
    ensures
        words_for(count) + " (reported by a shell)"@ != words_for(count)
            + " (inherited, not confirmed)"@,
{
    reveal_strlit(" (reported by a shell)");
    reveal_strlit(" (inherited, not confirmed)");
    assert((words_for(count) + " (reported by a shell)"@).len() != (words_for(count)
        + " (inherited, not confirmed)"@).len());
}

/// This frame's marks, by corpus index. Its view is what was filed, in order.
#[derive(PartialEq, Eq, Debug)]
pub struct SessionMarks {
    by_index: Vec<(u64, SessionMark)>,
}

impl View for SessionMarks {
    type V = Seq<(u64, SessionMark)>;

    closed spec fn view(&self) -> Seq<(u64, SessionMark)> {
        self.by_index@
    }
}

/// The first mark filed under `index`.
pub open spec fn first_mark(marks: Seq<(u64, SessionMark)>, index: u64) -> Option<SessionMark>
    decreases marks.len(),
{
    if marks.len() == 0 {
        None
    } else if marks[0].0 == index {
        Some(marks[0].1)
    } else {
        first_mark(marks.drop_first(), index)
    }
}

/// No marks at all: what a caller that has never heard of a session draws.
pub fn no_marks() -> (result: SessionMarks)
    ensures
        result@ == Seq::<(u64, SessionMark)>::empty(),
{
    SessionMarks::new()
}

impl Default for SessionMarks {
    fn default() -> (result: Self)
        ensures
            result@ == Seq::<(u64, SessionMark)>::empty(),
    {
        SessionMarks { by_index: Vec::new() }
    }
}

impl Clone for SessionMarks {
    fn clone(&self) -> (result: Self)
        ensures
            result@ == self@,
    {
        let mut out: SessionMarks = SessionMarks::new();
        let mut i: usize = 0;
        while i < self.by_index.len()
            invariant
                i <= self@.len(),
                out@ == self@.take(i as int),
            decreases self@.len() - i,
        {
            let index: u64 = self.by_index[i].0;
            let mark: SessionMark = self.by_index[i].1.clone();
            out.insert(index, mark);
            i = i + 1;
            assert(out@ =~= self@.take(i as int));
        }
        assert(out@ =~= self@);
        out
    }
}

impl SessionMarks {
    /// No marks.
    pub fn new() -> (result: Self)
        ensures
            result@ == Seq::<(u64, SessionMark)>::empty(),
    {
        SessionMarks { by_index: Vec::new() }
    }

    /// Mark the row at `index`.
    pub fn insert(&mut self, index: u64, mark: SessionMark)
        ensures
            final(self)@ == old(self)@.push((index, mark)),
    {
        self.by_index.push((index, mark));
    }

    /// The mark for `index`, if it has one: the first that was filed.
    pub fn get(&self, index: u64) -> (result: Option<&SessionMark>)
        ensures
            result == match first_mark(self@, index) {
                Some(mark) => Some(&mark),
                None => None,
            },
    {
        let mut i: usize = 0;
        assert(self@.skip(0) =~= self@);
        while i < self.by_index.len()
            invariant
                i <= self@.len(),
                first_mark(self@, index) == first_mark(self@.skip(i as int), index),
            decreases self@.len() - i,
        {
            assert(self@.skip(i as int).drop_first() =~= self@.skip(i as int + 1));
            if self.by_index[i].0 == index {
                return Some(&self.by_index[i].1);
            }
            i = i + 1;
        }
        None
    }

    /// Whether nothing is marked.
    pub fn is_empty(&self) -> (result: bool)
        ensures
            result == (self@.len() == 0),
    {
        self.by_index.len() == 0
    }

    /// How many marks were filed.
    pub fn len(&self) -> (result: usize)
        ensures
            result == self@.len(),
    {
        self.by_index.len()
    }

    /// Empty it, keeping the allocation.
    pub fn clear(&mut self)
        ensures
            final(self)@ == Seq::<(u64, SessionMark)>::empty(),
    {
        self.by_index.clear();
    }
}

/// A mark answers for the index it was filed under unless an earlier mark already does, and
/// changes the answer for no other index.
pub proof fn marks_answer_for_their_index(
    marks: Seq<(u64, SessionMark)>,
    index: u64,
    mark: SessionMark,
    other: u64,
)
    ensures
        first_mark(marks.push((index, mark)), index) == match first_mark(marks, index) {
            Some(earlier) => Some(earlier),
            None => Some(mark),
        },
        other != index ==> first_mark(marks.push((index, mark)), other) == first_mark(marks, other),
    decreases marks.len(),
{
    let pushed = marks.push((index, mark));
    if marks.len() == 0 {
        assert(pushed.drop_first() =~= Seq::empty());
        assert(first_mark(pushed.drop_first(), other) is None);
    } else {
        assert(pushed.drop_first() =~= marks.drop_first().push((index, mark)));
        marks_answer_for_their_index(marks.drop_first(), index, mark, other);
    }
}

/// The words for a count can be read: a number in digits, which is the count, and after it a
/// word that is in the plural unless there is one session.
pub proof fn the_words_say_the_count(count: nat)
    ensures
        ({
            let words = words_for(count);
            let digits = words.len() - if count == 1 {
                8
            } else {
                9int
            };
            &&& 0 < digits
            &&& all_digits(words.take(digits))
            &&& value_of(words.take(digits)) == count
            &&& words.skip(digits) == if count == 1 {
                " session"@
            } else {
                " sessions"@
            }
        }),
{
    reveal_strlit(" session");
    reveal_strlit(" sessions");
    a_number_reads_back(count);
    let words = words_for(count);
    let digits = decimal(count).len() as int;
    assert(words.take(digits) =~= decimal(count));
    if count == 1 {
        assert(words.skip(digits) =~= " session"@);
    } else {
        assert(words.skip(digits) =~= " sessions"@);
    }
}

/// The mark of an index is one that was filed under it, and none filed earlier was; an index
/// without a mark is one that nothing was filed under.
pub proof fn the_first_that_was_filed_answers(marks: Seq<(u64, SessionMark)>, index: u64)
    ensures
        match first_mark(marks, index) {
            Some(mark) => exists|at: int|
                {
                    &&& 0 <= at < marks.len()
                    &&& #[trigger] marks[at] == (index, mark)
                    &&& forall|i: int| 0 <= i < at ==> (#[trigger] marks[i]).0 != index
                },
            None => forall|i: int| 0 <= i < marks.len() ==> (#[trigger] marks[i]).0 != index,
        },
    decreases marks.len(),
{
    if marks.len() > 0 && marks[0].0 != index {
        let rest = marks.drop_first();
        the_first_that_was_filed_answers(rest, index);
        if let Some(mark) = first_mark(rest, index) {
            let at = choose|at: int|
                {
                    &&& 0 <= at < rest.len()
                    &&& #[trigger] rest[at] == (index, mark)
                    &&& forall|i: int| 0 <= i < at ==> (#[trigger] rest[i]).0 != index
                };
            assert(marks[at + 1] == (index, mark));
            assert forall|i: int| 0 <= i < at + 1 implies (#[trigger] marks[i]).0 != index by {
                if i > 0 {
                    assert(marks[i] == rest[i - 1]);
                }
            }
        } else {
            assert forall|i: int| 0 <= i < marks.len() implies (#[trigger] marks[i]).0 != index by {
                if i > 0 {
                    assert(marks[i] == rest[i - 1]);
                }
            }
        }
    } else if marks.len() > 0 {
        assert(marks[0] == (index, marks[0].1));
    }
}

} // verus!
