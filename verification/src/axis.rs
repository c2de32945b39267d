//! The value axis of a chart: a span of data points with its ticks and its
//! mapping to pixels.

use crate::arith::{
    floor_div, lemma_ceil_div_bounds, lemma_div_scaled, lemma_floor_div_bounds,
    lemma_quotient_at_least, lemma_quotient_below, lemma_round_div_between, mul_div, round_div,
    round_div_spec,
};
use crate::arith::wide_limit;
use crate::data::DataPoint;
use crate::fixed_point::{div_toward_zero, fits_i64};
use crate::ticks::{
    choose_step, chosen_step, count_ticks, first_index, last_index, lemma_chosen_step,
    lemma_size_in_range, size_in_range, tick_count, FINE,
};
use std::ops::Range;
use vstd::arithmetic::div_mod::{lemma_basic_div, lemma_div_is_ordered, lemma_fundamental_div_mod};
use vstd::prelude::*;

verus! {

/// A closed span of values, from `.0` up to `.1`.
#[derive(Clone, Copy, Debug)]
pub struct RangedDataPoint(pub DataPoint, pub DataPoint);

impl RangedDataPoint {
    /// A span runs upward.
    pub open spec fn wf(self) -> bool {
        self.0.bits() <= self.1.bits()
    }

    /// Whether both ends lie in the range of a 32.32 fixed-point number.
    pub open spec fn fits_fixed(self) -> bool {
        self.0.fits_fixed() && self.1.fits_fixed()
    }

    /// The smaller end of the span, as raw bits.
    pub open spec fn low_bits(self) -> int {
        if self.0.bits() <= self.1.bits() {
            self.0.bits()
        } else {
            self.1.bits()
        }
    }

    /// The larger end of the span, as raw bits.
    pub open spec fn high_bits(self) -> int {
        if self.0.bits() <= self.1.bits() {
            self.1.bits()
        } else {
            self.0.bits()
        }
    }

    /// The span from `low` up to `high`; none where `low` is the larger.
    pub fn new(low: DataPoint, high: DataPoint) -> (r: Option<RangedDataPoint>)
        ensures
            r == (if low.bits() <= high.bits() {
                Some(RangedDataPoint(low, high))
            } else {
                None
            }),
            r is Some ==> r->Some_0.wf(),
    {
        if low <= high {
            Some(RangedDataPoint(low, high))
        } else {
            None
        }
    }

    /// Whether both ends lie in the range of a 32.32 fixed-point number.
    pub fn in_fixed_range(&self) -> (r: bool)
        ensures
            r == self.fits_fixed(),
    {
        self.0.to_fixed_bits().is_some() && self.1.to_fixed_bits().is_some()
    }

    /// The text of the axis label for a value.
    pub fn format(value: &DataPoint) -> (text: String)
        ensures
            text@ == value.label_spec(),
    {
        value.label()
    }

    /// The two ends of the span.
    pub fn range(&self) -> (ends: Range<DataPoint>)
        ensures
            ends.start == self.0,
            ends.end == self.1,
    {
        self.0..self.1
    }
}

/// A pixel length times the part `n / d` of the span, plus a thousandth of a
/// pixel, rounded down.
pub open spec fn biased_floor(n: int, d: int, length: int) -> int {
    (1000 * length * n + d) / (1000 * d)
}

/// How far from the start of a pixel interval of the given signed length the
/// part `n / d` of the span lies. The rounding leans a thousandth of a pixel
/// toward the interval's end: down for a rising interval, up for a falling one.
pub open spec fn pixel_offset(n: int, d: int, length: int) -> int {
    if length >= 0 {
        biased_floor(n, d, length)
    } else {
        -biased_floor(n, d, -length)
    }
}

/// The nearest pixel coordinate that a machine integer holds.
pub open spec fn clamp_pixel(p: int) -> int {
    if p < i32::MIN {
        i32::MIN as int
    } else if p > i32::MAX {
        i32::MAX as int
    } else {
        p
    }
}

/// The middle of a pixel interval, rounded toward zero.
pub open spec fn midpoint(limit: (i32, i32)) -> int {
    div_toward_zero(limit.0 + limit.1, 2)
}

/// The bound below which a value's distance from the span's start, counted
/// in span lengths, is mapped exactly; beyond it the pixel is out of range
/// in any case.
pub const FAR: i128 = 0x2_0000_0000;

/// The biased floor for a positive pixel length, where the value lies less
/// than `FAR` span lengths from the span's start; none beyond.
fn offset_within(n: i128, d: i128, length: u32) -> (r: Option<i128>)
    requires
        0 < d <= wide_limit(),
        -wide_limit() <= n <= wide_limit(),
        length > 0,
    ensures
        match r {
            Some(f) => f == biased_floor(n as int, d as int, length as int) && -FAR * 0x1_0000_0000
                <= f <= FAR * 0x1_0000_0000,
            None => if n >= 0 {
                biased_floor(n as int, d as int, length as int) >= FAR
            } else {
                biased_floor(n as int, d as int, length as int) <= -FAR
            },
        },
{
    let m: u64 = 1000 * (length as u64);
    let ghost top: int = 1000 * length * n + d;
    assert(top == m * n + d) by (nonlinear_arith)
        requires
            top == 1000 * length * n + d,
            m == 1000 * length,
    ;
    if n >= 0 {
        let a: u128 = n as u128;
        if a / (d as u128) >= FAR as u128 {
            proof {
                lemma_fundamental_div_mod(a as int, d as int);
                let aq = a as int / d as int;
                let ar = a as int % d as int;
                assert(FAR * (1000 * d) <= top) by (nonlinear_arith)
                    requires
                        top == m * n + d,
                        n == d * aq + ar,
                        ar >= 0,
                        aq >= FAR,
                        m >= 1000,
                        d > 0,
                        FAR > 0,
                ;
                lemma_quotient_at_least(FAR as int, 1000 * d, top);
            }
            None
        } else {
            proof {
                lemma_fundamental_div_mod(a as int, d as int);
                let aq = a as int / d as int;
                let ar = a as int % d as int;
                assert(a * m < (FAR * m) * d) by (nonlinear_arith)
                    requires
                        a == d * aq + ar,
                        ar < d,
                        aq < FAR,
                        m >= 1000,
                        d > 0,
                ;
                lemma_quotient_below(a * m, d as int, FAR * m);
            }
            let qr = mul_div(a, m, d as u128);
            proof {
                lemma_fundamental_div_mod(a * m, d as int);
                assert(top == (qr.0 + 1) * d + qr.1) by (nonlinear_arith)
                    requires
                        top == m * n + d,
                        a * m == d * qr.0 + qr.1,
                        a == n,
                ;
                lemma_div_scaled(qr.0 + 1, qr.1 as int, d as int, 1000);
            }
            Some(floor_div((qr.0 as i128) + 1, 1000))
        }
    } else {
        let a: u128 = (-n) as u128;
        if a / (d as u128) >= FAR as u128 {
            proof {
                lemma_fundamental_div_mod(a as int, d as int);
                let aq = a as int / d as int;
                let ar = a as int % d as int;
                assert(top < (1 - FAR) * (1000 * d)) by (nonlinear_arith)
                    requires
                        top == m * n + d,
                        -n == d * aq + ar,
                        ar >= 0,
                        aq >= FAR,
                        m >= 1000,
                        d > 0,
                        FAR > 0,
                ;
                lemma_quotient_below(top, 1000 * d, 1 - FAR);
            }
            None
        } else {
            proof {
                lemma_fundamental_div_mod(a as int, d as int);
                let aq = a as int / d as int;
                let ar = a as int % d as int;
                assert(a * m < (FAR * m) * d) by (nonlinear_arith)
                    requires
                        a == d * aq + ar,
                        ar < d,
                        aq < FAR,
                        m >= 1000,
                        d > 0,
                ;
                lemma_quotient_below(a * m, d as int, FAR * m);
            }
            let qr = mul_div(a, m, d as u128);
            let whole: i128 = if qr.1 == 0 {
                1 - (qr.0 as i128)
            } else {
                -(qr.0 as i128)
            };
            proof {
                lemma_fundamental_div_mod(a * m, d as int);
                let rest: int = if qr.1 == 0 {
                    0
                } else {
                    d - qr.1
                };
                assert(top == whole * d + rest) by (nonlinear_arith)
                    requires
                        top == m * n + d,
                        a * m == d * qr.0 + qr.1,
                        a == -n,
                        qr.1 == 0 ==> whole == 1 - qr.0 && rest == 0,
                        qr.1 != 0 ==> whole == -qr.0 && rest == d - qr.1,
                ;
                lemma_div_scaled(whole as int, rest, d as int, 1000);
            }
            Some(floor_div(whole, 1000))
        }
    }
}

impl RangedDataPoint {
    /// The pixel of a value: the middle of the interval for a span of no
    /// length; else the interval's start plus the value's part of the span
    /// in pixels, kept within the range of a pixel coordinate. The part is
    /// the value's distance from `.0` over the distance from `.0` to `.1`,
    /// also where the span runs downward.
    pub open spec fn map_spec(self, value: DataPoint, limit: (i32, i32)) -> int {
        let from = self.0.bits();
        let to = self.1.bits();
        if from == to {
            midpoint(limit)
        } else if from < to {
            clamp_pixel(limit.0 + pixel_offset(value.bits() - from, to - from, limit.1 - limit.0))
        } else {
            clamp_pixel(limit.0 + pixel_offset(from - value.bits(), from - to, limit.1 - limit.0))
        }
    }

    /// Maps a value to its pixel on an axis drawn from `limit.0` to `limit.1`.
    pub fn map(&self, value: &DataPoint, limit: (i32, i32)) -> (pixel: i32)
        ensures
            pixel == self.map_spec(*value, limit),
    {
        let lo: i128 = self.0.scaled();
        let hi: i128 = self.1.scaled();
        let start: i64 = limit.0 as i64;
        let end: i64 = limit.1 as i64;
        if lo == hi {
            let sum: i64 = start + end;
            let half: i64 = if sum >= 0 {
                sum / 2
            } else {
                -((-sum) / 2)
            };
            return half as i32;
        }
        let n: i128 = if lo < hi {
            value.scaled() - lo
        } else {
            lo - value.scaled()
        };
        let d: i128 = if lo < hi {
            hi - lo
        } else {
            lo - hi
        };
        let length: i64 = end - start;
        if length == 0 {
            assert(biased_floor(n as int, d as int, 0) == 0) by {
                assert(1000 * 0 * n + d == d) by (nonlinear_arith);
                lemma_basic_div(d as int, 1000 * d);
            }
            return limit.1;
        }
        let far: i128 = if n >= 0 {
            FAR
        } else {
            -FAR
        };
        let pixel: i128 = if length > 0 {
            match offset_within(n, d, length as u32) {
                Some(f) => (start as i128) + f,
                None => (start as i128) + far,
            }
        } else {
            match offset_within(n, d, (-length) as u32) {
                Some(f) => (start as i128) - f,
                None => (start as i128) - far,
            }
        };
        if pixel > (i32::MAX as i128) {
            i32::MAX
        } else if pixel < (i32::MIN as i128) {
            i32::MIN
        } else {
            pixel as i32
        }
    }
}

/// On a span of some length the first end maps to the start of the pixel
/// interval and the second end to its end.
pub proof fn lemma_map_ends(span: RangedDataPoint, limit: (i32, i32))
    requires
        span.0.bits() != span.1.bits(),
    ensures
        span.map_spec(span.0, limit) == limit.0,
        span.map_spec(span.1, limit) == limit.1,
{
    let d = span.high_bits() - span.low_bits();
    let length = limit.1 - limit.0;
    let size: int = if length >= 0 {
        length
    } else {
        -length
    };
    assert(1000 * size * 0 + d == d) by (nonlinear_arith);
    lemma_basic_div(d, 1000 * d);
    assert(1000 * size * d + d == (1000 * size + 1) * d + 0) by (nonlinear_arith);
    lemma_div_scaled(1000 * size + 1, 0, d, 1000);
}

/// On a pixel interval that rises, a larger value never maps to a smaller pixel.
pub proof fn lemma_map_monotonic(
    span: RangedDataPoint,
    limit: (i32, i32),
    below: DataPoint,
    above: DataPoint,
)
    requires
        span.wf(),
        limit.0 < limit.1,
        below.bits() <= above.bits(),
    ensures
        span.map_spec(below, limit) <= span.map_spec(above, limit),
{
    if span.0.bits() < span.1.bits() {
        let d = span.1.bits() - span.0.bits();
        let length = limit.1 - limit.0;
        let n1 = below.bits() - span.0.bits();
        let n2 = above.bits() - span.0.bits();
        assert(1000 * length * n1 + d <= 1000 * length * n2 + d) by (nonlinear_arith)
            requires
                n1 <= n2,
                length > 0,
        ;
        lemma_div_is_ordered(
            1000 * length * n1 + d,
            1000 * length * n2 + d,
            1000 * d,
        );
    }
}

/// On a span of no length every value maps to the middle of the pixel interval.
pub proof fn lemma_map_degenerate(span: RangedDataPoint, limit: (i32, i32), value: DataPoint)
    requires
        span.0.bits() == span.1.bits(),
    ensures
        span.map_spec(value, limit) == midpoint(limit),
        limit.0 + limit.1 >= 0 ==> span.map_spec(value, limit) == (limit.0 + limit.1) / 2,
{
}

/// The tick with index `k` on a grid of the given step size: the `k`-th
/// multiple of the step, rounded to the nearest fixed-point number.
pub open spec fn tick_at(k: int, size: int) -> DataPoint {
    if k == 0 {
        DataPoint::Zero
    } else {
        DataPoint::Float(round_div_spec(k * size, FINE as int) as i64)
    }
}

/// Every multiple of the step within the span rounds to a fixed-point
/// number within the span.
pub proof fn lemma_tick_in_span(lo: int, hi: int, size: int, k: int)
    requires
        i64::MIN <= lo <= hi <= i64::MAX,
        size > 0,
        first_index(lo, size) <= k <= last_index(hi, size),
    ensures
        lo * FINE <= k * size <= hi * FINE,
        lo <= round_div_spec(k * size, FINE as int) <= hi,
        lo <= tick_at(k, size).bits() <= hi,
{
    let f = first_index(lo, size);
    let l = last_index(hi, size);
    lemma_ceil_div_bounds(lo * FINE, size);
    lemma_floor_div_bounds(hi * FINE, size);
    assert(f * size <= k * size <= l * size) by (nonlinear_arith)
        requires
            f <= k <= l,
            size > 0,
    ;
    lemma_round_div_between(k * size, FINE as int, lo, hi);
    if k == 0 {
        assert(k * size == 0);
        assert(lo <= 0 <= hi) by (nonlinear_arith)
            requires
                lo * FINE <= 0 <= hi * FINE,
                FINE == 10_000_000_000,
        ;
    }
}

/// Along a grid, a tick with a larger index is no smaller.
pub proof fn lemma_ticks_rise(size: int, below: int, above: int)
    requires
        size > 0,
        below <= above,
        fits_i64(round_div_spec(below * size, FINE as int)),
        fits_i64(round_div_spec(above * size, FINE as int)),
    ensures
        tick_at(below, size).bits() <= tick_at(above, size).bits(),
{
    assert(below * size <= above * size) by (nonlinear_arith)
        requires
            below <= above,
            size > 0,
    ;
    lemma_div_is_ordered(
        2 * (below * size) + FINE,
        2 * (above * size) + FINE,
        2 * FINE,
    );
    assert(0 * size == 0);
    lemma_basic_div(FINE as int, 2 * FINE);
}

impl RangedDataPoint {
    /// The ticks of the axis where it may show `max_points` of them at most:
    /// none for no points, the span's one value for a span of no length,
    /// else every multiple of the chosen step within the span, in rising order.
    pub open spec fn tick_plan(self, max_points: usize) -> Seq<DataPoint> {
        let lo = self.low_bits();
        let hi = self.high_bits();
        if max_points == 0 {
            Seq::empty()
        } else if lo == hi {
            seq![DataPoint::from_bits_spec(lo as i64)]
        } else {
            let size = chosen_step(lo, hi, max_points as int).size();
            let first = first_index(lo, size);
            Seq::new(tick_count(lo, hi, size) as nat, |i: int| tick_at(first + i, size))
        }
    }

    /// The ticks of the axis where it may show `max_points` of them at most.
    pub fn key_points(&self, max_points: usize) -> (ticks: Vec<DataPoint>)
        requires
            self.fits_fixed(),
        ensures
            ticks@ == self.tick_plan(max_points),
            ticks.len() <= max_points,
            forall|i: int|
                0 <= i < ticks.len() ==> self.low_bits() <= (#[trigger] ticks[i]).bits()
                    <= self.high_bits(),
    {
        if max_points == 0 {
            return Vec::new();
        }
        let from: i64 = self.0.scaled() as i64;
        let to: i64 = self.1.scaled() as i64;
        let lo: i64 = if from <= to {
            from
        } else {
            to
        };
        let hi: i64 = if from <= to {
            to
        } else {
            from
        };
        if lo == hi {
            let only = DataPoint::from_fixed_bits(lo);
            let ticks = vec![only];
            assert(ticks@ =~= self.tick_plan(max_points));
            return ticks;
        }
        let chosen = choose_step(lo, hi, max_points);
        let size: i128 = chosen.1;
        let counted = count_ticks(lo, hi, size);
        let first: i128 = counted.0;
        let count: usize = counted.1 as usize;
        proof {
            lemma_ceil_div_bounds(lo as int * FINE, size as int);
        }
        let mut ticks: Vec<DataPoint> = Vec::new();
        let mut i: usize = 0;
        let mut k: i128 = first;
        let mut at: i128 = first * size;
        while i < count
            invariant
                lo < hi,
                size_in_range(size as int),
                first == first_index(lo as int, size as int),
                count == tick_count(lo as int, hi as int, size as int),
                i <= count,
                k == first + i,
                at == k * size,
                lo * FINE <= at < hi * FINE + 2 * size,
                ticks@ == Seq::new(i as nat, |j: int| tick_at(first + j, size as int)),
                forall|j: int| 0 <= j < i ==> lo <= (#[trigger] ticks[j]).bits() <= hi,
            decreases count - i,
        {
            proof {
                lemma_tick_in_span(lo as int, hi as int, size as int, k as int);
            }
            let tick = if k == 0 {
                DataPoint::Zero
            } else {
                DataPoint::Float(round_div(at, FINE) as i64)
            };
            assert(tick == tick_at(k as int, size as int));
            ticks.push(tick);
            assert(ticks@ =~= Seq::new((i + 1) as nat, |j: int| tick_at(first + j, size as int)));
            assert((k + 1) * size == at + size) by (nonlinear_arith)
                requires
                    at == k * size,
            ;
            i = i + 1;
            k = k + 1;
            at = at + size;
        }
        ticks
    }
}

/// A tick plan never holds more ticks than it was allowed; every tick lies
/// within the span, and no tick is smaller than one before it.
pub proof fn lemma_tick_plan(span: RangedDataPoint, max_points: usize)
    requires
        span.fits_fixed(),
    ensures
        span.tick_plan(max_points).len() <= max_points,
        forall|i: int|
            0 <= i < span.tick_plan(max_points).len() ==> span.low_bits() <= (
            #[trigger] span.tick_plan(max_points)[i]).bits() <= span.high_bits(),
        forall|i: int, j: int|
            0 <= i <= j < span.tick_plan(max_points).len() ==> (
            #[trigger] span.tick_plan(max_points)[i]).bits() <= (
            #[trigger] span.tick_plan(max_points)[j]).bits(),
{
    let lo = span.low_bits();
    let hi = span.high_bits();
    if max_points > 0 && lo < hi {
        lemma_chosen_step(lo, hi, max_points as int);
        let size = chosen_step(lo, hi, max_points as int).size();
        lemma_size_in_range(chosen_step(lo, hi, max_points as int));
        assert forall|i: int| 0 <= i < span.tick_plan(max_points).len() implies lo <= (
        #[trigger] span.tick_plan(max_points)[i]).bits() <= hi by {
            lemma_tick_in_span(lo, hi, size, first_index(lo, size) + i);
        }
        assert forall|i: int, j: int| 0 <= i <= j < span.tick_plan(max_points).len() implies (
        #[trigger] span.tick_plan(max_points)[i]).bits() <= (
        #[trigger] span.tick_plan(max_points)[j]).bits() by {
            let first = first_index(lo, size);
            lemma_tick_in_span(lo, hi, size, first + i);
            lemma_tick_in_span(lo, hi, size, first + j);
            lemma_ticks_rise(size, first + i, first + j);
        }
    }
}

} // verus!
