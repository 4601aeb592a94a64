//! The sequence manager.
//!
//! A sequence is the ordered collection of segments that covers the
//! viewport. It is built once per game session with enough segments to
//! cover the viewport width, strictly alternating categories starting from
//! a traversable segment, and is then maintained by the scroll-driving
//! caller through `advance` (drop the front segment) and `extend` (append
//! a fresh opposite-category segment).

use vstd::prelude::*;

use crate::segment::{Category, Segment, segment_from_draws};

verus! {

/// The single failure of the sequence operations: `advance` or `extend`
/// called on a sequence that holds no segments.
#[derive(Clone, Copy, PartialEq, Eq, Structural, Debug)]
pub enum SequenceError {
    EmptySequence,
}

/// No two adjacent segments share a category.
pub open spec fn alternating(s: Seq<Segment>) -> bool {
    forall|i: int, j: int|
        #![trigger s[i].category, s[j].category]
        0 <= i && j == i + 1 && j < s.len() ==> s[i].category != s[j].category
}

/// Every segment's dimensions lie in the value sets of its category.
pub open spec fn all_valid(s: Seq<Segment>) -> bool {
    forall|i: int| 0 <= i && i < s.len() ==> s[i].valid()
}

/// The invariant of a sequence: strict alternation and valid dimensions.
/// Starting with a traversable segment is a construction rule only, not
/// part of the invariant: `advance` may leave a gap at the front.
pub open spec fn well_formed(s: Seq<Segment>) -> bool {
    alternating(s) && all_valid(s)
}

/// The cumulative horizontal extent of the segments, front to back.
pub open spec fn total_length(s: Seq<Segment>) -> int
    decreases s.len(),
{
    if s.len() == 0 {
        0
    } else {
        s[0].length + total_length(s.drop_first())
    }
}

proof fn lemma_total_length_push(s: Seq<Segment>, x: Segment)
    ensures
        total_length(s.push(x)) == total_length(s) + x.length,
    decreases s.len(),
{
    reveal_with_fuel(total_length, 2);
    if s.len() == 0 {
        assert(s.push(x).drop_first() =~= Seq::<Segment>::empty());
    } else {
        assert(s.push(x).drop_first() =~= s.drop_first().push(x));
        lemma_total_length_push(s.drop_first(), x);
    }
}

proof fn lemma_total_length_nonneg(s: Seq<Segment>)
    ensures
        total_length(s) >= 0,
    decreases s.len(),
{
    if s.len() > 0 {
        lemma_total_length_nonneg(s.drop_first());
    }
}

proof fn lemma_total_length_split(s: Seq<Segment>, i: int)
    requires
        0 <= i <= s.len(),
    ensures
        total_length(s) == total_length(s.subrange(0, i)) + total_length(
            s.subrange(i, s.len() as int),
        ),
    decreases i,
{
    if i == 0 {
        assert(s.subrange(0, 0) =~= Seq::<Segment>::empty());
        assert(s.subrange(0, s.len() as int) =~= s);
    } else {
        let t = s.drop_first();
        assert(s.subrange(0, i).drop_first() =~= t.subrange(0, i - 1));
        assert(s.subrange(i, s.len() as int) =~= t.subrange(i - 1, t.len() as int));
        lemma_total_length_split(t, i - 1);
        assert(s.subrange(0, i)[0] == s[0]);
    }
}

proof fn lemma_well_formed_push(s: Seq<Segment>, x: Segment)
    requires
        well_formed(s),
        x.valid(),
        s.len() > 0 ==> x.category != s.last().category,
    ensures
        well_formed(s.push(x)),
{
    let t = s.push(x);
    assert forall|i: int, j: int|
        #![trigger t[i].category, t[j].category]
        0 <= i && j == i + 1 && j < t.len() implies t[i].category != t[j].category by {
        if j < s.len() {
            assert(t[i] == s[i]);
            assert(t[j] == s[j]);
            assert(s[i].category != s[j].category);
        } else {
            assert(t[i] == s[i]);
            assert(s[i] == s.last());
            assert(t[j] == x);
        }
    }
    assert forall|i: int| 0 <= i && i < t.len() implies t[i].valid() by {
        if i < s.len() {
            assert(t[i] == s[i]);
        } else {
            assert(t[i] == x);
        }
    }
}

proof fn lemma_well_formed_drop_first(s: Seq<Segment>)
    requires
        s.len() > 0,
        well_formed(s),
    ensures
        well_formed(s.drop_first()),
{
    let t = s.drop_first();
    assert forall|i: int, j: int|
        #![trigger t[i].category, t[j].category]
        0 <= i && j == i + 1 && j < t.len() implies t[i].category != t[j].category by {
        assert(t[i] == s[i + 1]);
        assert(t[j] == s[j + 1]);
        assert(s[i + 1].category != s[i + 2].category);
    }
    assert forall|i: int| 0 <= i && i < t.len() implies t[i].valid() by {
        assert(t[i] == s[i + 1]);
    }
}

/// The ordered, exclusively owned collection of segments of one game
/// session.
pub struct Sequence {
    segments: Vec<Segment>,
}

impl View for Sequence {
    type V = Seq<Segment>;

    closed spec fn view(&self) -> Seq<Segment> {
        self.segments@
    }
}

impl Sequence {
    /// The sequence invariant: see `well_formed`.
    pub open spec fn wf(self) -> bool {
        well_formed(self@)
    }

    /// The number of segments currently held.
    pub fn len(&self) -> (n: usize)
        ensures
            n == self@.len(),
    {
        self.segments.len()
    }

    /// Read access to one segment, for rendering and inspection.
    pub fn get(&self, i: usize) -> (s: &Segment)
        requires
            i < self@.len(),
        ensures
            *s == self@[i as int],
    {
        &self.segments[i]
    }

    /// Builds the initial sequence for a viewport of the given width:
    /// factory-created segments, alternating categories starting from
    /// `Traversable`, appended until the accumulated length strictly
    /// exceeds the width. The final segment is kept in full even if it
    /// overshoots, and the build stops as soon as the threshold is
    /// crossed, never later: without the last segment the total is at most
    /// the width.
    pub fn initialize(viewport_width: u32) -> (s: Sequence)
        ensures
            s.wf(),
            s@.len() > 0,
            s@[0].category == Category::Traversable,
            total_length(s@) > viewport_width,
            total_length(s@.drop_last()) <= viewport_width,
    {
        let mut segments: Vec<Segment> = Vec::new();
        let mut total: u64 = 0;
        let mut next_category = Category::Traversable;
        while total <= viewport_width as u64
            invariant
                total == total_length(segments@),
                well_formed(segments@),
                segments@.len() == 0 ==> next_category == Category::Traversable && total == 0,
                segments@.len() > 0 ==> segments@[0].category == Category::Traversable,
                segments@.len() > 0 ==> next_category == segments@.last().category.spec_opposite(),
                segments@.len() > 0 ==> total_length(segments@.drop_last()) <= viewport_width,
            decreases (if total <= viewport_width { viewport_width + 1 - total } else { 0int }),
        {
            let seg = Segment::create(next_category);
            let ghost prev = segments@;
            proof {
                lemma_total_length_push(prev, seg);
                lemma_well_formed_push(prev, seg);
            }
            total = total + seg.length as u64;
            segments.push(seg);
            next_category = next_category.opposite();
            proof {
                assert(segments@.drop_last() =~= prev);
            }
        }
        Sequence { segments }
    }

    /// Builds the initial sequence as `initialize` does, but with every
    /// segment taking the two given draw indices instead of random ones,
    /// so that a caller can reproduce a sequence exactly. The result is
    /// fully determined: the segment at an even position is the
    /// traversable segment of those draws, the one at an odd position the
    /// gap segment.
    pub fn initialize_with_draws(viewport_width: u32, length_draw: usize, height_draw: usize) -> (s:
        Sequence)
        requires
            length_draw < 3,
            height_draw < 3,
        ensures
            s.wf(),
            s@.len() > 0,
            s@[0].category == Category::Traversable,
            total_length(s@) > viewport_width,
            total_length(s@.drop_last()) <= viewport_width,
            forall|i: int|
                0 <= i && i < s@.len() ==> s@[i] == segment_from_draws(
                    (if i % 2 == 0 {
                        Category::Traversable
                    } else {
                        Category::Gap
                    }),
                    length_draw as int,
                    height_draw as int,
                ),
    {
        let mut segments: Vec<Segment> = Vec::new();
        let mut total: u64 = 0;
        let mut next_category = Category::Traversable;
        while total <= viewport_width as u64
            invariant
                length_draw < 3,
                height_draw < 3,
                total == total_length(segments@),
                well_formed(segments@),
                segments@.len() == 0 ==> total == 0,
                segments@.len() > 0 ==> segments@[0].category == Category::Traversable,
                segments@.len() > 0 ==> next_category == segments@.last().category.spec_opposite(),
                segments@.len() > 0 ==> total_length(segments@.drop_last()) <= viewport_width,
                next_category == (if segments@.len() % 2 == 0 {
                    Category::Traversable
                } else {
                    Category::Gap
                }),
                forall|i: int|
                    0 <= i && i < segments@.len() ==> segments@[i] == segment_from_draws(
                        (if i % 2 == 0 {
                            Category::Traversable
                        } else {
                            Category::Gap
                        }),
                        length_draw as int,
                        height_draw as int,
                    ),
            decreases (if total <= viewport_width { viewport_width + 1 - total } else { 0int }),
        {
            let seg = Segment::from_draws(next_category, length_draw, height_draw);
            let ghost prev = segments@;
            proof {
                lemma_total_length_push(prev, seg);
                lemma_well_formed_push(prev, seg);
            }
            total = total + seg.length as u64;
            segments.push(seg);
            next_category = next_category.opposite();
            proof {
                assert(segments@.drop_last() =~= prev);
                assert forall|i: int|
                    0 <= i && i < segments@.len() implies segments@[i] == segment_from_draws(
                    (if i % 2 == 0 {
                        Category::Traversable
                    } else {
                        Category::Gap
                    }),
                    length_draw as int,
                    height_draw as int,
                ) by {
                    if i < prev.len() {
                        assert(segments@[i] == prev[i]);
                    } else {
                        assert(segments@[i] == seg);
                    }
                }
            }
        }
        Sequence { segments }
    }

    /// Removes and returns the front-most segment, the one that has
    /// scrolled fully past the viewport's leading edge. Fails with
    /// `EmptySequence`, changing nothing, when the sequence is empty.
    /// Restoring coverage is the caller's business: pair this with
    /// `extend`.
    pub fn advance(&mut self) -> (r: Result<Segment, SequenceError>)
        ensures
            old(self)@.len() == 0 ==> final(self)@ == old(self)@ && r == Err::<
                Segment,
                SequenceError,
            >(SequenceError::EmptySequence),
            old(self)@.len() > 0 ==> final(self)@ == old(self)@.drop_first() && r == Ok::<
                Segment,
                SequenceError,
            >(old(self)@[0]),
            old(self).wf() ==> final(self).wf(),
    {
        if self.segments.len() == 0 {
            Err(SequenceError::EmptySequence)
        } else {
            let seg = self.segments.remove(0);
            proof {
                assert(self.segments@ =~= old(self)@.drop_first());
                if old(self).wf() {
                    lemma_well_formed_drop_first(old(self)@);
                }
            }
            Ok(seg)
        }
    }

    /// Appends a factory-created segment whose category is the opposite of
    /// the current last segment's, preserving strict alternation. Fails
    /// with `EmptySequence`, changing nothing, when the sequence is empty:
    /// an empty sequence has no predecessor category to alternate from.
    pub fn extend(&mut self) -> (r: Result<Segment, SequenceError>)
        ensures
            old(self)@.len() == 0 ==> final(self)@ == old(self)@ && r == Err::<
                Segment,
                SequenceError,
            >(SequenceError::EmptySequence),
            old(self)@.len() > 0 ==> (r matches Ok(seg) && seg.valid() && seg.category == old(
                self,
            )@.last().category.spec_opposite() && final(self)@ == old(self)@.push(seg)),
            old(self).wf() ==> final(self).wf(),
    {
        let n = self.segments.len();
        if n == 0 {
            return Err(SequenceError::EmptySequence);
        }
        let last_category = self.segments[n - 1].category;
        let seg = Segment::create(last_category.opposite());
        proof {
            if old(self).wf() {
                lemma_well_formed_push(self.segments@, seg);
            }
        }
        self.segments.push(seg);
        Ok(seg)
    }

    /// Appends as `extend` does, but with the given draw indices instead
    /// of random ones, so the appended segment is fully determined by the
    /// current last segment's category and the draws.
    pub fn extend_with_draws(&mut self, length_draw: usize, height_draw: usize) -> (r: Result<
        Segment,
        SequenceError,
    >)
        requires
            length_draw < 3,
            height_draw < 3,
        ensures
            old(self)@.len() == 0 ==> final(self)@ == old(self)@ && r == Err::<
                Segment,
                SequenceError,
            >(SequenceError::EmptySequence),
            old(self)@.len() > 0 ==> (r matches Ok(seg) && seg == segment_from_draws(
                old(self)@.last().category.spec_opposite(),
                length_draw as int,
                height_draw as int,
            ) && final(self)@ == old(self)@.push(seg)),
            old(self).wf() ==> final(self).wf(),
    {
        let n = self.segments.len();
        if n == 0 {
            return Err(SequenceError::EmptySequence);
        }
        let last_category = self.segments[n - 1].category;
        let seg = Segment::from_draws(last_category.opposite(), length_draw, height_draw);
        proof {
            if old(self).wf() {
                lemma_well_formed_push(self.segments@, seg);
            }
        }
        self.segments.push(seg);
        Ok(seg)
    }

    /// The cumulative length of the segments currently held, the quantity
    /// the coverage property compares against the viewport width. The
    /// bound in the precondition is a machine limit: the sum must fit the
    /// result type.
    pub fn covered_length(&self) -> (t: u64)
        requires
            total_length(self@) <= u64::MAX,
        ensures
            t == total_length(self@),
    {
        let n = self.segments.len();
        let mut total: u64 = 0;
        let mut idx: usize = 0;
        while idx < n
            invariant
                n == self@.len(),
                idx <= n,
                total == total_length(self@.subrange(0, idx as int)),
                total_length(self@) <= u64::MAX,
            decreases n - idx,
        {
            proof {
                lemma_total_length_split(self@, idx as int + 1);
                lemma_total_length_nonneg(self@.subrange(idx as int + 1, n as int));
                assert(self@.subrange(0, idx as int + 1) =~= self@.subrange(0, idx as int).push(
                    self@[idx as int],
                ));
                lemma_total_length_push(self@.subrange(0, idx as int), self@[idx as int]);
            }
            total = total + self.segments[idx].length as u64;
            idx = idx + 1;
        }
        proof {
            assert(self@.subrange(0, n as int) =~= self@);
        }
        total
    }
}

/// One scroll tick is one `advance` followed by one `extend`. Stated over
/// the views that those operations' contracts give: on a sequence of at
/// least two segments, a tick keeps the cardinality unchanged, makes the
/// previous second segment the new first one, and gives the new last
/// segment the category opposite to the previous last one's.
pub proof fn lemma_tick_preserves_shape(
    before: Seq<Segment>,
    appended: Segment,
    after: Seq<Segment>,
)
    requires
        before.len() >= 2,
        appended.category == before.drop_first().last().category.spec_opposite(),
        after == before.drop_first().push(appended),
    ensures
        after.len() == before.len(),
        after[0] == before[1],
        after.last().category == before.last().category.spec_opposite(),
{
    assert(before.drop_first().last() == before.last());
}

/// In a strictly alternating sequence whose first segment is
/// `Traversable`, the category at every position is decided by the
/// position's parity alone: traversable at even positions, gap at odd
/// ones.
pub proof fn lemma_alternation_pattern(s: Seq<Segment>, i: int)
    requires
        alternating(s),
        s.len() > 0,
        s[0].category == Category::Traversable,
        0 <= i && i < s.len(),
    ensures
        s[i].category == (if i % 2 == 0 {
            Category::Traversable
        } else {
            Category::Gap
        }),
    decreases i,
{
    if i > 0 {
        lemma_alternation_pattern(s, i - 1);
        assert(s[i - 1].category != s[i].category);
    }
}

} // verus!
