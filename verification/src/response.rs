//! The datasets the backend serves and the viewer renders: graph
//! summaries for the legend, and the graphs' points.
//!
//! A point's value is carried in thousandths of the measured unit, so
//! the extrema below are exact.

use vstd::prelude::*;
use std::collections::HashMap;
use crate::date::Date;

verus! {

/// The legend: every dataset the backend offers.
#[derive(Debug)]
pub struct GraphList {
    pub graphs: Vec<GraphSummary>,
}

/// The datasets keyed by name.
#[derive(Debug)]
pub struct GraphIndex {
    pub graphs: HashMap<String, GraphSummary>,
}

/// An sRGB color.
#[derive(Clone, Copy, Debug, PartialEq, Eq, Structural)]
pub struct Color {
    pub r: u8,
    pub g: u8,
    pub b: u8,
}

/// What the legend shows of one dataset.
#[derive(Clone, Debug)]
pub struct GraphSummary {
    pub name: String,
    pub uri: String,
    pub description: String,
    pub color: Color,
}

/// A dataset held by the backend.
#[derive(Clone, Debug)]
pub struct Graph {
    pub name: String,
    pub description: String,
    pub color: Color,
    pub points: Vec<(Date, i64)>,
}

/// A dataset as served to the viewer.
#[derive(Clone, Debug)]
pub struct GraphData {
    pub name: String,
    pub color: Color,
    pub points: Vec<(Date, i64)>,
}

/// The largest value in the sequence, or the smallest machine value on
/// an empty sequence (the fold's seed).
pub open spec fn max_y_rec(s: Seq<(Date, i64)>) -> int
    decreases s.len(),
{
    if s.len() == 0 {
        i64::MIN as int
    } else {
        let rest = max_y_rec(s.drop_last());
        let y = s.last().1 as int;
        if rest >= y {
            rest
        } else {
            y
        }
    }
}

/// The smallest value in the sequence, or the largest machine value on
/// an empty sequence (the fold's seed).
pub open spec fn min_y_rec(s: Seq<(Date, i64)>) -> int
    decreases s.len(),
{
    if s.len() == 0 {
        i64::MAX as int
    } else {
        let rest = min_y_rec(s.drop_last());
        let y = s.last().1 as int;
        if rest <= y {
            rest
        } else {
            y
        }
    }
}

proof fn lemma_max_y_rec_ge(s: Seq<(Date, i64)>, j: int)
    requires
        0 <= j < s.len(),
    ensures
        s[j].1 as int <= max_y_rec(s),
    decreases s.len(),
{
    if j < s.len() - 1 {
        lemma_max_y_rec_ge(s.drop_last(), j);
    }
}

proof fn lemma_min_y_rec_le(s: Seq<(Date, i64)>, j: int)
    requires
        0 <= j < s.len(),
    ensures
        min_y_rec(s) <= s[j].1 as int,
    decreases s.len(),
{
    if j < s.len() - 1 {
        lemma_min_y_rec_le(s.drop_last(), j);
    }
}

impl GraphData {
    /// The date of the last point; datasets are served in time order,
    /// so it is the largest.  The epoch date stands in when there are
    /// no points.
    pub open spec fn spec_max_x(&self) -> Date {
        if self.points@.len() == 0 {
            Date { year: 1970, month: 1, day: 1 }
        } else {
            self.points@.last().0
        }
    }

    /// The date of the first point; see `spec_max_x`.
    pub open spec fn spec_min_x(&self) -> Date {
        if self.points@.len() == 0 {
            Date { year: 1970, month: 1, day: 1 }
        } else {
            self.points@[0].0
        }
    }

    /// The date of the last point, or the epoch date when empty.
    pub fn max_x(&self) -> (r: Date)
        ensures
            r == self.spec_max_x(),
    {
        if self.points.len() == 0 {
            Date { year: 1970, month: 1, day: 1 }
        } else {
            self.points[self.points.len() - 1].0
        }
    }

    /// The date of the first point, or the epoch date when empty.
    pub fn min_x(&self) -> (r: Date)
        ensures
            r == self.spec_min_x(),
    {
        if self.points.len() == 0 {
            Date { year: 1970, month: 1, day: 1 }
        } else {
            self.points[0].0
        }
    }

    /// The largest value of any point: no point lies above it, and it
    /// is the fold of the points with the smallest machine value.
    pub fn max_y(&self) -> (r: i64)
        ensures
            r as int == max_y_rec(self.points@),
            forall|j: int| 0 <= j < self.points@.len() ==> #[trigger] self.points@[j].1 <= r,
            self.points@.len() > 0 ==> exists|j: int|
                0 <= j < self.points@.len() && r == #[trigger] self.points@[j].1,
    {
        let mut acc: i64 = i64::MIN;
        let mut i: usize = 0;
        while i < self.points.len()
            invariant
                i <= self.points@.len(),
                acc as int == max_y_rec(self.points@.take(i as int)),
                i > 0 ==> exists|j: int| 0 <= j < i && acc == #[trigger] self.points@[j].1,
            decreases self.points@.len() - i,
        {
            proof {
                assert(self.points@.take(i + 1).drop_last() =~= self.points@.take(i as int));
                assert(self.points@.take(i + 1).last() == self.points@[i as int]);
            }
            let y = self.points[i].1;
            if y > acc {
                acc = y;
            }
            i = i + 1;
        }
        proof {
            assert(self.points@.take(self.points@.len() as int) =~= self.points@);
            assert forall|j: int| 0 <= j < self.points@.len() implies #[trigger] self.points@[
                j
            ].1 as int <= max_y_rec(self.points@) by {
                lemma_max_y_rec_ge(self.points@, j);
            }
        }
        acc
    }

    /// The smallest value of any point: no point lies below it, and it
    /// is the fold of the points with the largest machine value.
    pub fn min_y(&self) -> (r: i64)
        ensures
            r as int == min_y_rec(self.points@),
            forall|j: int| 0 <= j < self.points@.len() ==> r <= #[trigger] self.points@[j].1,
            self.points@.len() > 0 ==> exists|j: int|
                0 <= j < self.points@.len() && r == #[trigger] self.points@[j].1,
    {
        let mut acc: i64 = i64::MAX;
        let mut i: usize = 0;
        while i < self.points.len()
            invariant
                i <= self.points@.len(),
                acc as int == min_y_rec(self.points@.take(i as int)),
                i > 0 ==> exists|j: int| 0 <= j < i && acc == #[trigger] self.points@[j].1,
            decreases self.points@.len() - i,
        {
            proof {
                assert(self.points@.take(i + 1).drop_last() =~= self.points@.take(i as int));
                assert(self.points@.take(i + 1).last() == self.points@[i as int]);
            }
            let y = self.points[i].1;
            if y < acc {
                acc = y;
            }
            i = i + 1;
        }
        proof {
            assert(self.points@.take(self.points@.len() as int) =~= self.points@);
            assert forall|j: int| 0 <= j < self.points@.len() implies min_y_rec(self.points@)
                <= #[trigger] self.points@[j].1 as int by {
                lemma_min_y_rec_le(self.points@, j);
            }
        }
        acc
    }
}

} // verus!
