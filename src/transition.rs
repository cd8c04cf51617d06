//! Eased, time-boxed animations of element properties.

use vstd::prelude::*;
use crate::element::{FIXED_ONE, LayoutElemID, Property};

verus! {

/// How an animation's progress is eased: linearly, quadratically, or along
/// a curve sampled at evenly spaced points of its domain (progress values in
/// ten-thousandths, first to last).
#[derive(Clone, Debug)]
pub enum Easing {
    Linear,
    Quadratic,
    Sampled(Vec<u32>),
}

/// An animation of one property of one element.
#[derive(Clone, Copy, Debug, PartialEq, Eq, Structural)]
pub struct Transition {
    pub element_id: LayoutElemID,
    pub property: Property,
    pub start: i64,
    pub end: i64,
    pub time_frame_ms: u64,
    pub delay_ms: u64,
    /// The steps taken since the delay ran out.
    pub steps: u64,
    pub ongoing: bool,
}

/// The eased progress after `k` of `n` steps, in ten-thousandths.
pub open spec fn eased(easing: Easing, k: int, n: int) -> int {
    let lin = k * FIXED_ONE as int / n;
    match easing {
        Easing::Linear => lin,
        Easing::Quadratic => lin * lin / FIXED_ONE as int,
        Easing::Sampled(t) => if t@.len() == 0 {
            lin
        } else {
            let v = t@[k * (t@.len() - 1) / n] as int;
            if v > FIXED_ONE as int { FIXED_ONE as int } else { v }
        },
    }
}

/// The value at eased progress `p` on the way from `start` to `end`,
/// rounded toward `start`.
pub open spec fn interpolated(start: int, end: int, p: int) -> int {
    if end >= start {
        start + (end - start) * p / FIXED_ONE as int
    } else {
        start - (start - end) * p / FIXED_ONE as int
    }
}

/// The number of steps that an animation of `time_frame` takes at steps of
/// `delta`: at least one.
pub open spec fn intervals(time_frame: int, delta: int) -> int {
    if time_frame / delta < 1 { 1 } else { time_frame / delta }
}

/// A transition after one step of `delta` milliseconds.
pub open spec fn stepped(t: Transition, easing: Easing, delta: u64) -> Transition {
    if delta == 0 {
        t
    } else if t.delay_ms > 0 {
        Transition { delay_ms: if t.delay_ms > delta { (t.delay_ms - delta) as u64 } else { 0 }, ..t }
    } else {
        let n = intervals(t.time_frame_ms as int, delta as int);
        Transition {
            steps: if t.steps < u64::MAX { (t.steps + 1) as u64 } else { t.steps },
            ongoing: t.steps + 1 < n,
            ..t
        }
    }
}

/// The value that one step of `delta` milliseconds writes, where it writes one.
pub open spec fn step_value(t: Transition, easing: Easing, delta: u64) -> Option<int> {
    if delta == 0 || t.delay_ms > 0 {
        None
    } else {
        let n = intervals(t.time_frame_ms as int, delta as int);
        if t.steps + 1 >= n {
            Some(t.end as int)
        } else {
            Some(interpolated(t.start as int, t.end as int, eased(easing, t.steps as int, n)))
        }
    }
}

fn interpolate(start: i64, end: i64, p: u32) -> (r: i64)
    requires
        p <= FIXED_ONE,
    ensures
        r == interpolated(start as int, end as int, p as int),
{
    let one = FIXED_ONE as i128;
    if end >= start {
        let d = end as i128 - start as i128;
        proof {
            assert(0 <= d * (p as int) <= d * (FIXED_ONE as int)) by (nonlinear_arith) requires d >= 0, 0 <= p <= FIXED_ONE;
            assert(0 <= d * (p as int) / (FIXED_ONE as int) <= d) by (nonlinear_arith)
                requires d >= 0, 0 <= d * (p as int) <= d * (FIXED_ONE as int);
        }
        (start as i128 + d * p as i128 / one) as i64
    } else {
        let d = start as i128 - end as i128;
        proof {
            assert(0 <= d * (p as int) <= d * (FIXED_ONE as int)) by (nonlinear_arith) requires d >= 0, 0 <= p <= FIXED_ONE;
            assert(0 <= d * (p as int) / (FIXED_ONE as int) <= d) by (nonlinear_arith)
                requires d >= 0, 0 <= d * (p as int) <= d * (FIXED_ONE as int);
        }
        (start as i128 - d * p as i128 / one) as i64
    }
}

impl Easing {
    /// The eased progress after `k` of `n` steps, in ten-thousandths.
    pub fn progress(&self, k: u64, n: u64) -> (r: u32)
        requires
            k < n,
        ensures
            r == eased(*self, k as int, n as int),
            r <= FIXED_ONE,
    {
        let one = FIXED_ONE as u128;
        proof {
            assert(k * FIXED_ONE as int / n as int <= FIXED_ONE) by (nonlinear_arith)
                requires 0 <= k < n;
            assert(0 <= k * FIXED_ONE as int / n as int) by (nonlinear_arith)
                requires 0 <= k < n;
        }
        let lin = (k as u128 * one / n as u128) as u32;
        match self {
            Easing::Linear => lin,
            Easing::Quadratic => {
                proof {
                    assert(lin * lin <= FIXED_ONE * FIXED_ONE) by (nonlinear_arith) requires lin <= FIXED_ONE;
                    assert((lin * lin) as int / FIXED_ONE as int <= FIXED_ONE) by (nonlinear_arith)
                        requires lin * lin <= FIXED_ONE * FIXED_ONE;
                }
                (lin as u128 * lin as u128 / one) as u32
            },
            Easing::Sampled(t) => {
                if t.len() == 0 {
                    lin
                } else {
                    let m = (t.len() - 1) as u128;
                    proof {
                        assert(k * m / n as int <= m) by (nonlinear_arith) requires 0 <= k < n, m >= 0;
                        assert(k * m <= u64::MAX * u64::MAX) by (nonlinear_arith) requires 0 <= k <= u64::MAX, 0 <= m <= u64::MAX;
                    }
                    let v = t[(k as u128 * m / n as u128) as usize];
                    if v > FIXED_ONE { FIXED_ONE } else { v }
                }
            },
        }
    }
}

impl Transition {
    pub fn new(
        element_id: LayoutElemID,
        property: Property,
        value_origin: i64,
        value_dest: i64,
        time_frame_ms: u64,
        delay_ms: u64,
    ) -> (r: Transition)
        ensures
            r == (Transition {
                element_id,
                property,
                start: value_origin,
                end: value_dest,
                time_frame_ms,
                delay_ms,
                steps: 0,
                ongoing: true,
            }),
    {
        Transition { element_id, property, start: value_origin, end: value_dest, time_frame_ms, delay_ms, steps: 0, ongoing: true }
    }

    /// One step of `delta_ms` milliseconds: while a delay remains, it runs
    /// down and nothing is written; otherwise the value for the next point
    /// of the eased progression is returned, the end value exactly on the
    /// last step, after which the transition is no longer ongoing.
    pub fn next(&mut self, easing: &Easing, delta_ms: u64) -> (r: Option<i64>)
        ensures
            *final(self) == stepped(*old(self), *easing, delta_ms),
            r matches Some(v) ==> step_value(*old(self), *easing, delta_ms) == Some(v as int),
            r is None ==> step_value(*old(self), *easing, delta_ms) is None,
    {
        if delta_ms == 0 {
            return None;
        }
        if self.delay_ms > 0 {
            self.delay_ms = if self.delay_ms > delta_ms { self.delay_ms - delta_ms } else { 0 };
            return None;
        }
        let n = if self.time_frame_ms / delta_ms < 1 { 1 } else { self.time_frame_ms / delta_ms };
        let k = self.steps;
        let v = if k >= n - 1 {
            self.end
        } else {
            interpolate(self.start, self.end, easing.progress(k, n))
        };
        self.ongoing = k < n - 1;
        if self.steps < u64::MAX {
            self.steps = self.steps + 1;
        }
        Some(v)
    }

    pub fn is_ongoing(&self) -> (r: bool)
        ensures
            r == self.ongoing,
    {
        self.ongoing
    }
}

/// Motion at a constant rate.
#[derive(Clone, Copy, Debug, PartialEq, Eq, Structural)]
pub struct LinearInterpolator;

/// Motion that speeds up quadratically.
#[derive(Clone, Copy, Debug, PartialEq, Eq, Structural)]
pub struct QuadraticInterpolator;

/// Motion that slows down along the square of a sine, sampled.
#[derive(Clone, Debug)]
pub struct SineInterpolator {
    pub samples: Vec<u32>,
}

/// Motion along a logistic curve, sampled.
#[derive(Clone, Debug)]
pub struct SigmoidInterpolator {
    pub samples: Vec<u32>,
}

impl LinearInterpolator {
    pub fn easing(&self) -> (r: Easing)
        ensures
            r == Easing::Linear,
    {
        Easing::Linear
    }
}

impl QuadraticInterpolator {
    pub fn easing(&self) -> (r: Easing)
        ensures
            r == Easing::Quadratic,
    {
        Easing::Quadratic
    }
}

impl SineInterpolator {
    pub fn easing(self) -> (r: Easing)
        ensures
            r == Easing::Sampled(self.samples),
    {
        Easing::Sampled(self.samples)
    }
}

impl SigmoidInterpolator {
    pub fn easing(self) -> (r: Easing)
        ensures
            r == Easing::Sampled(self.samples),
    {
        Easing::Sampled(self.samples)
    }
}

} // verus!
