//! One axis of the view window and the affine map along it.
//!
//! The axis is generic over its number type. Contracts are stated through the
//! operator specifications of `vstd`, so they are exact for every type whose
//! `+`, `-` and `*` obey those specifications (the primitive integers), and
//! say nothing for a type whose operators are not specified.

use std::ops::{Add, Mul, Sub};
use vstd::prelude::*;
use vstd::std_specs::ops::{AddSpec, MulSpec, SubSpec};

verus! {

/// An interval `[min, max]` of one axis of the complex plane, with its extent
/// `range = max - min`.
#[derive(Clone, Copy, Debug)]
pub struct Axis<T> {
    pub max: T,
    pub min: T,
    pub range: T,
}

impl<T> Axis<T> where T: Copy, T: Add<Output = T>, T: Sub<Output = T>, T: Mul<Output = T> {
    /// The extent is the difference of the two bounds.
    pub open spec fn wf(&self) -> bool {
        self.range == self.max.sub_spec(self.min)
    }

    /// The axis from `min` to `max`.
    pub fn new(min: T, max: T) -> (axis: Self)
        requires
            T::obeys_sub_spec(),
            max.sub_req(min),
        ensures
            axis.min == min,
            axis.max == max,
            axis.wf(),
    {
        Axis { max, min, range: max - min }
    }

    /// The point `min + value * range`: `min` at 0, `max` at 1. An axis
    /// whose bounds coincide has no extent to map onto and is not accepted.
    pub fn map(&self, value: T) -> (point: T)
        requires
            self.wf(),
            self.max != self.min,
            T::obeys_mul_spec(),
            T::obeys_add_spec(),
            value.mul_req(self.range),
            self.min.add_req(value.mul_spec(self.range)),
        ensures
            point == self.min.add_spec(value.mul_spec(self.range)),
    {
        self.min + value * self.range
    }
}

/// On an axis of 64-bit integers with `max > min`, the mapper never decreases
/// as its input grows: `s <= t` gives `map(s) <= map(t)`, wherever both
/// points can be computed without overflow.
pub proof fn lemma_map_monotonic(axis: Axis<i64>, s: i64, t: i64)
    requires
        axis.wf(),
        axis.max.sub_req(axis.min),
        axis.max > axis.min,
        s <= t,
        s.mul_req(axis.range),
        t.mul_req(axis.range),
        axis.min.add_req(s.mul_spec(axis.range)),
        axis.min.add_req(t.mul_spec(axis.range)),
    ensures
        axis.min.add_spec(s.mul_spec(axis.range)) <= axis.min.add_spec(t.mul_spec(axis.range)),
        axis.min.add_spec(s.mul_spec(axis.range)) == axis.min + s * (axis.max - axis.min),
{
    let range = axis.max - axis.min;
    assert(s * range <= t * range) by (nonlinear_arith)
        requires
            s <= t,
            range > 0,
    ;
}

/// The mapper sends 0 to `min` and 1 to `max`.
pub proof fn lemma_map_endpoints(axis: Axis<i64>)
    requires
        axis.wf(),
        axis.max.sub_req(axis.min),
    ensures
        axis.min.add_spec(0i64.mul_spec(axis.range)) == axis.min,
        axis.min.add_spec(1i64.mul_spec(axis.range)) == axis.max,
{
}

} // verus!
