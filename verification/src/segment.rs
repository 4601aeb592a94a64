//! Segments and the segment factory.
//!
//! A segment is one atomic unit of the level sequence: either a traversable
//! bridge, with a length and a height, or a gap between bridges, with a
//! length only. The factory draws each dimension uniformly from a fixed
//! three-value set per category.

use vstd::prelude::*;

verus! {

/// The two kinds of segment: a bridge that can be walked on, or the gap
/// between two bridges. The enumeration is closed by design.
#[derive(Clone, Copy, PartialEq, Eq, Structural, Debug)]
pub enum Category {
    Traversable,
    Gap,
}

impl Category {
    /// The other category: segments of a sequence strictly alternate.
    pub open spec fn spec_opposite(self) -> Category {
        match self {
            Category::Traversable => Category::Gap,
            Category::Gap => Category::Traversable,
        }
    }

    #[verifier::when_used_as_spec(spec_opposite)]
    pub fn opposite(self) -> (r: Category)
        ensures
            r == self.spec_opposite(),
    {
        match self {
            Category::Traversable => Category::Gap,
            Category::Gap => Category::Traversable,
        }
    }
}

/// One element of the level sequence. `height` is meaningful only for
/// `Traversable` segments and is always `0` for `Gap` segments.
#[derive(Clone, Copy, PartialEq, Eq, Structural, Debug)]
pub struct Segment {
    pub category: Category,
    pub length: u32,
    pub height: u32,
}

/// The traversable length drawn for a given draw index: the average is a
/// quarter of the 800-unit viewport width, ranging half of that either way.
pub open spec fn traversable_length(draw: int) -> u32 {
    if draw == 0 {
        100
    } else if draw == 1 {
        200
    } else {
        300
    }
}

/// The traversable height drawn for a given draw index: the average is a
/// quarter of the 400-unit viewport height, ranging half of that either way.
pub open spec fn traversable_height(draw: int) -> u32 {
    if draw == 0 {
        50
    } else if draw == 1 {
        100
    } else {
        150
    }
}

/// The gap length drawn for a given draw index: a small-variance range
/// around 150.
pub open spec fn gap_length(draw: int) -> u32 {
    if draw == 0 {
        100
    } else if draw == 1 {
        150
    } else {
        200
    }
}

/// The segment that the factory builds for a category from the two draw
/// indices. The height draw is ignored for gaps, whose height is always `0`.
pub open spec fn segment_from_draws(category: Category, length_draw: int, height_draw: int) -> Segment {
    match category {
        Category::Traversable => Segment {
            category,
            length: traversable_length(length_draw),
            height: traversable_height(height_draw),
        },
        Category::Gap => Segment { category, length: gap_length(length_draw), height: 0 },
    }
}

impl Segment {
    /// A segment is valid when its dimensions lie in the fixed value set of
    /// its category: traversable segments have `length` in {100, 200, 300}
    /// and `height` in {50, 100, 150}; gaps have `length` in {100, 150, 200}
    /// and `height == 0`. In particular `length > 0` always.
    pub open spec fn valid(self) -> bool {
        match self.category {
            Category::Traversable => (self.length == 100 || self.length == 200 || self.length
                == 300) && (self.height == 50 || self.height == 100 || self.height == 150),
            Category::Gap => (self.length == 100 || self.length == 150 || self.length == 200)
                && self.height == 0,
        }
    }

    /// Builds the segment for `category` from explicit draw indices. This is
    /// the deterministic core of the factory: `create` feeds it random
    /// draws, and a caller that wants reproducible sequences can feed it
    /// chosen ones.
    pub fn from_draws(category: Category, length_draw: usize, height_draw: usize) -> (s: Segment)
        requires
            length_draw < 3,
            height_draw < 3,
        ensures
            s == segment_from_draws(category, length_draw as int, height_draw as int),
            s.valid(),
            s.category == category,
    {
        match category {
            Category::Traversable => {
                let length: u32 = if length_draw == 0 {
                    100
                } else if length_draw == 1 {
                    200
                } else {
                    300
                };
                let height: u32 = if height_draw == 0 {
                    50
                } else if height_draw == 1 {
                    100
                } else {
                    150
                };
                Segment { category, length, height }
            },
            Category::Gap => {
                let length: u32 = if length_draw == 0 {
                    100
                } else if length_draw == 1 {
                    150
                } else {
                    200
                };
                Segment { category, length, height: 0 }
            },
        }
    }

    /// The factory: builds one segment of the requested category with
    /// dimensions drawn uniformly at random from its value sets. Every
    /// outcome is a valid segment; nothing more can be promised of a random
    /// draw.
    pub fn create(category: Category) -> (s: Segment)
        ensures
            s.category == category,
            s.valid(),
    {
        let length_draw = random_draw();
        let height_draw = random_draw();
        Segment::from_draws(category, length_draw, height_draw)
    }
}

/// Relies on `rand::thread_rng` and `rand::Rng::gen_range`: returns a value
/// drawn uniformly from `0..3`, so the result is always below 3.
#[verifier::external_body]
fn random_draw() -> (r: usize)
    ensures
        r < 3,
{
    rand::Rng::gen_range(&mut rand::thread_rng(), 0..3)
}

} // verus!
