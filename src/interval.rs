//! Closed and open intervals of fixed-point scalars.
use vstd::prelude::*;
use crate::fixed::{self, LIMIT};

verus! {

/// The scalars from `min` to `max`.
#[derive(Clone, Copy, PartialEq, Eq, Structural, Debug)]
pub struct Interval {
    pub min: i64,
    pub max: i64,
}

impl Interval {
    pub fn new(min: i64, max: i64) -> (r: Interval)
        ensures
            r == (Interval { min, max }),
    {
        Interval { min, max }
    }

    /// The interval that holds nothing.
    pub fn empty() -> (r: Interval)
        ensures
            r.min == LIMIT && r.max == -LIMIT,
    {
        Interval { min: LIMIT, max: -LIMIT }
    }

    /// The interval that holds every value up to saturation.
    pub fn universe() -> (r: Interval)
        ensures
            r.min == -LIMIT && r.max == LIMIT,
    {
        Interval { min: -LIMIT, max: LIMIT }
    }

    /// `x` lies in the closed interval.
    pub fn contains(&self, x: i64) -> (r: bool)
        ensures
            r == (self.min <= x && x <= self.max),
    {
        self.min <= x && x <= self.max
    }

    /// `x` lies strictly inside the interval.
    pub fn surrounds(&self, x: i64) -> (r: bool)
        ensures
            r == (self.min < x && x < self.max),
    {
        self.min < x && x < self.max
    }

    /// `x` moved into the interval, which must not be empty.
    pub fn clamp(&self, x: i64) -> (r: i64)
        requires
            self.min <= self.max,
        ensures
            self.min <= r <= self.max,
            self.min <= x <= self.max ==> r == x,
            x < self.min ==> r == self.min,
            x > self.max ==> r == self.max,
    {
        fixed::min(fixed::max(x, self.min), self.max)
    }
}

} // verus!
