//! Choice of a round step between axis ticks.
//!
//! All sizes are whole numbers of a fine unit: one raw bit of a 32.32
//! fixed-point number holds ten to the tenth fine units, so that every step
//! down to 10^-10 is a whole number of them.

use crate::arith::{
    ceil_div, ceil_div_spec, floor_div, lemma_ceil_div_bounds, lemma_floor_div_bounds,
};
use vstd::arithmetic::div_mod::{
    lemma_basic_div, lemma_div_is_ordered, lemma_fundamental_div_mod_converse,
};
use vstd::prelude::*;

verus! {

/// The number of fine units in one raw bit.
pub const FINE: i128 = 10_000_000_000;

/// The exponent of the smallest step that is ever tried.
pub const FINEST_EXPONENT: i32 = -10;

/// The exponent of the largest step that a span of fixed-point numbers can ask for.
pub const COARSEST_EXPONENT: i32 = 10;

/// The size of ten to the power of the finest exponent, in fine units: one
/// raw bit holds ten to the tenth of both.
pub const FINEST_DECADE: i128 = 0x1_0000_0000;

/// The size of ten to the power of the coarsest exponent, in fine units.
pub const COARSEST_DECADE: i128 = 429_496_729_600_000_000_000_000_000_000;

/// The size of ten to the power `e`, in fine units.
pub open spec fn decade(e: int) -> int
    decreases e - FINEST_EXPONENT,
{
    if e <= FINEST_EXPONENT {
        FINEST_DECADE as int
    } else {
        10 * decade(e - 1)
    }
}

/// A step of the form 1, 2 or 5 times a power of ten.
#[derive(Clone, Copy, Debug, PartialEq, Eq, Structural)]
pub struct NiceStep {
    pub mantissa: u8,
    pub exponent: i32,
}

impl NiceStep {
    /// The mantissa is 1, 2 or 5, and the exponent lies between the finest
    /// and the coarsest.
    pub open spec fn wf(self) -> bool {
        &&& self.mantissa == 1 || self.mantissa == 2 || self.mantissa == 5
        &&& FINEST_EXPONENT <= self.exponent <= COARSEST_EXPONENT
    }

    /// The step's size in fine units.
    pub open spec fn size(self) -> int {
        self.mantissa as int * decade(self.exponent as int)
    }

    /// The next smaller step: 1 is followed by 5 of the decade below, 5 by 2, 2 by 1.
    pub open spec fn finer(self) -> NiceStep {
        if self.mantissa == 1 {
            NiceStep { mantissa: 5, exponent: (self.exponent - 1) as i32 }
        } else if self.mantissa == 5 {
            NiceStep { mantissa: 2, exponent: self.exponent }
        } else {
            NiceStep { mantissa: 1, exponent: self.exponent }
        }
    }

    /// How many finer steps there are down to the finest.
    pub open spec fn rank(self) -> nat {
        let within: int = if self.mantissa == 5 {
            2
        } else if self.mantissa == 2 {
            1
        } else {
            0
        };
        (3 * (self.exponent - FINEST_EXPONENT) + within) as nat
    }

    /// Whether this is the smallest step that is ever tried.
    pub open spec fn is_finest(self) -> bool {
        self.mantissa == 1 && self.exponent == FINEST_EXPONENT
    }
}

/// The index of the first multiple of `size` at or above `lo` bits.
pub open spec fn first_index(lo: int, size: int) -> int {
    ceil_div_spec(lo * FINE, size)
}

/// The index of the last multiple of `size` at or below `hi` bits.
pub open spec fn last_index(hi: int, size: int) -> int {
    (hi * FINE) / size
}

/// The number of multiples of `size` from `lo` bits to `hi` bits.
pub open spec fn tick_count(lo: int, hi: int, size: int) -> int {
    last_index(hi, size) - first_index(lo, size) + 1
}

/// The exponent of the largest power of ten that is at most `span` fine
/// units, searched upward from `e`.
pub open spec fn base_exponent_from(span: int, e: int) -> int
    decreases COARSEST_EXPONENT - e,
{
    if e >= COARSEST_EXPONENT || decade(e + 1) > span {
        e
    } else {
        base_exponent_from(span, e + 1)
    }
}

/// The exponent of the largest power of ten that is at most `span` fine units.
pub open spec fn base_exponent(span: int) -> int {
    base_exponent_from(span, FINEST_EXPONENT as int)
}

/// The step that the search starts from: the largest power of ten within the
/// span, or ten times that where even this step could give too many ticks.
pub open spec fn initial_step(lo: int, hi: int, max_points: int) -> NiceStep {
    let span = (hi - lo) * FINE;
    let e = base_exponent(span);
    if 1 + span / decade(e) > max_points {
        NiceStep { mantissa: 1, exponent: (e + 1) as i32 }
    } else {
        NiceStep { mantissa: 1, exponent: e as i32 }
    }
}

/// Walks down from `step` through ever finer steps and stops before the
/// first one that would give more than `max_points` ticks, or at the finest.
pub open spec fn refine(lo: int, hi: int, max_points: int, step: NiceStep) -> NiceStep
    decreases step.rank(),
{
    if !step.wf() || step.is_finest() || tick_count(lo, hi, step.finer().size()) > max_points {
        step
    } else {
        refine(lo, hi, max_points, step.finer())
    }
}

/// The step between the ticks of an axis from `lo` bits to `hi` bits that may
/// show `max_points` ticks at most.
pub open spec fn chosen_step(lo: int, hi: int, max_points: int) -> NiceStep {
    refine(lo, hi, max_points, initial_step(lo, hi, max_points))
}

/// Each power of ten is ten times the one below.
pub proof fn lemma_decade_step(e: int)
    requires
        FINEST_EXPONENT < e,
    ensures
        decade(e) == 10 * decade(e - 1),
{
}

/// No power of ten is smaller than the finest one.
pub proof fn lemma_decade_floor(e: int)
    ensures
        FINEST_DECADE <= decade(e),
    decreases e - FINEST_EXPONENT,
{
    if e > FINEST_EXPONENT {
        lemma_decade_floor(e - 1);
    }
}

/// Powers of ten grow with the exponent.
pub proof fn lemma_decade_ordered(low: int, high: int)
    requires
        FINEST_EXPONENT <= low <= high,
    ensures
        FINEST_DECADE <= decade(low) <= decade(high),
        low < high ==> 10 * decade(low) <= decade(high),
    decreases high - low,
{
    lemma_decade_floor(low);
    if low < high {
        lemma_decade_ordered(low, high - 1);
    }
}

/// The size of the coarsest power of ten.
pub proof fn lemma_decade_top()
    ensures
        decade(COARSEST_EXPONENT as int) == COARSEST_DECADE,
        decade(COARSEST_EXPONENT + 1) == 10 * COARSEST_DECADE,
{
    reveal_with_fuel(decade, 22);
}

/// Between two bounds there are never more multiples of a step than the
/// distance holds steps, plus one; and never fewer than none.
pub proof fn lemma_tick_count_bound(lo: int, hi: int, size: int)
    requires
        lo <= hi,
        size > 0,
    ensures
        0 <= tick_count(lo, hi, size) <= ((hi - lo) * FINE) / size + 1,
{
    let a = lo * FINE;
    let b = hi * FINE;
    let f = first_index(lo, size);
    let l = last_index(hi, size);
    lemma_ceil_div_bounds(a, size);
    lemma_floor_div_bounds(b, size);
    assert(f <= l + 1) by (nonlinear_arith)
        requires
            f * size < a + size,
            b - size < l * size,
            a <= b,
            size > 0,
    ;
    assert((l - f) * size <= b - a) by (nonlinear_arith)
        requires
            a <= f * size,
            l * size <= b,
    ;
    lemma_div_is_ordered((l - f) * size, b - a, size);
    lemma_fundamental_div_mod_converse((l - f) * size, size, l - f, 0);
    assert(b - a == (hi - lo) * FINE) by (nonlinear_arith)
        requires
            a == lo * FINE,
            b == hi * FINE,
    ;
}

/// The search for the base exponent ends at the power of ten that the span
/// reaches and whose tenfold it does not.
pub proof fn lemma_base_exponent_from(span: int, e: int)
    requires
        FINEST_EXPONENT <= e <= COARSEST_EXPONENT,
        decade(e) <= span < decade(COARSEST_EXPONENT + 1),
    ensures
        e <= base_exponent_from(span, e) <= COARSEST_EXPONENT,
        decade(base_exponent_from(span, e)) <= span < decade(base_exponent_from(span, e) + 1),
    decreases COARSEST_EXPONENT - e,
{
    if e < COARSEST_EXPONENT && decade(e + 1) <= span {
        lemma_base_exponent_from(span, e + 1);
    }
}

/// A span between two different fixed-point numbers lies between the finest
/// power of ten and the coarsest.
pub proof fn lemma_span_bounds(lo: int, hi: int)
    requires
        i64::MIN <= lo < hi <= i64::MAX,
    ensures
        FINEST_DECADE <= (hi - lo) * FINE < COARSEST_DECADE,
        FINEST_EXPONENT <= base_exponent((hi - lo) * FINE) < COARSEST_EXPONENT,
        decade(base_exponent((hi - lo) * FINE)) <= (hi - lo) * FINE < decade(
            base_exponent((hi - lo) * FINE) + 1,
        ),
{
    let span = (hi - lo) * FINE;
    lemma_decade_top();
    assert(FINE <= span < COARSEST_DECADE) by (nonlinear_arith)
        requires
            span == (hi - lo) * FINE,
            1 <= hi - lo < 0x1_0000_0000_0000_0000,
            FINE == 10_000_000_000,
            COARSEST_DECADE == 429_496_729_600_000_000_000_000_000_000,
    ;
    lemma_base_exponent_from(span, FINEST_EXPONENT as int);
    let e = base_exponent(span);
    if e >= COARSEST_EXPONENT {
        lemma_decade_ordered(COARSEST_EXPONENT as int, e);
    }
}

/// The step that the search starts from never gives more ticks than allowed.
pub proof fn lemma_initial_step(lo: int, hi: int, max_points: int)
    requires
        i64::MIN <= lo < hi <= i64::MAX,
        max_points >= 1,
    ensures
        initial_step(lo, hi, max_points).wf(),
        tick_count(lo, hi, initial_step(lo, hi, max_points).size()) <= max_points,
{
    let span = (hi - lo) * FINE;
    let e = base_exponent(span);
    lemma_span_bounds(lo, hi);
    let step = initial_step(lo, hi, max_points);
    lemma_decade_floor(step.exponent as int);
    lemma_tick_count_bound(lo, hi, step.size());
    if 1 + span / decade(e) > max_points {
        lemma_basic_div(span, decade(e + 1));
    }
}

/// Below a step that is not the finest stands another well-formed step,
/// smaller in size.
pub proof fn lemma_finer(step: NiceStep)
    requires
        step.wf(),
        !step.is_finest(),
    ensures
        step.finer().wf(),
        step.finer().rank() < step.rank(),
        0 < step.finer().size() < step.size(),
        step.mantissa == 1 ==> 2 * step.finer().size() == step.size(),
        step.mantissa == 2 ==> 2 * step.finer().size() == step.size(),
        step.mantissa == 5 ==> 5 * step.finer().size() == 2 * step.size(),
{
    lemma_decade_floor(step.exponent as int);
    lemma_decade_floor(step.exponent - 1);
}

/// The chosen step is well formed and never gives more ticks than allowed.
pub proof fn lemma_refine(lo: int, hi: int, max_points: int, step: NiceStep)
    requires
        step.wf(),
        tick_count(lo, hi, step.size()) <= max_points,
    ensures
        refine(lo, hi, max_points, step).wf(),
        tick_count(lo, hi, refine(lo, hi, max_points, step).size()) <= max_points,
        refine(lo, hi, max_points, step).rank() <= step.rank(),
    decreases step.rank(),
{
    if !step.is_finest() && tick_count(lo, hi, step.finer().size()) <= max_points {
        lemma_finer(step);
        lemma_refine(lo, hi, max_points, step.finer());
    }
}

/// The chosen step either is the finest that is ever tried, or the next
/// finer step would give more ticks than allowed.
pub proof fn lemma_refine_stops(lo: int, hi: int, max_points: int, step: NiceStep)
    requires
        step.wf(),
    ensures
        ({
            let chosen = refine(lo, hi, max_points, step);
            chosen.is_finest() || tick_count(lo, hi, chosen.finer().size()) > max_points
        }),
    decreases step.rank(),
{
    if !step.is_finest() && tick_count(lo, hi, step.finer().size()) <= max_points {
        lemma_finer(step);
        lemma_refine_stops(lo, hi, max_points, step.finer());
    }
}

/// Tick generation never yields more than `max_points` ticks.
pub proof fn lemma_chosen_step(lo: int, hi: int, max_points: int)
    requires
        i64::MIN <= lo < hi <= i64::MAX,
        max_points >= 1,
    ensures
        chosen_step(lo, hi, max_points).wf(),
        0 <= tick_count(lo, hi, chosen_step(lo, hi, max_points).size()) <= max_points,
{
    lemma_initial_step(lo, hi, max_points);
    lemma_refine(lo, hi, max_points, initial_step(lo, hi, max_points));
    let chosen = chosen_step(lo, hi, max_points);
    lemma_decade_floor(chosen.exponent as int);
    lemma_tick_count_bound(lo, hi, chosen.size());
}

/// Whether a size lies within the sizes of well-formed steps.
pub open spec fn size_in_range(size: int) -> bool {
    0 < size <= 5 * COARSEST_DECADE
}

/// The size of a well-formed step lies within the sizes that the
/// executable functions compute with.
pub proof fn lemma_size_in_range(step: NiceStep)
    requires
        step.wf(),
    ensures
        size_in_range(step.size()),
{
    lemma_decade_top();
    lemma_decade_ordered(step.exponent as int, COARSEST_EXPONENT as int);
    assert(0 < step.mantissa * decade(step.exponent as int) <= 5 * COARSEST_DECADE)
        by (nonlinear_arith)
        requires
            1 <= step.mantissa <= 5,
            0 < decade(step.exponent as int) <= COARSEST_DECADE,
    ;
}

/// Counts the multiples of `size` from `lo` bits to `hi` bits, and finds the
/// index of the first.
pub fn count_ticks(lo: i64, hi: i64, size: i128) -> (r: (i128, i128))
    requires
        lo <= hi,
        size_in_range(size as int),
    ensures
        r.0 == first_index(lo as int, size as int),
        r.1 == tick_count(lo as int, hi as int, size as int),
        0 <= r.1,
{
    proof {
        lemma_tick_count_bound(lo as int, hi as int, size as int);
    }
    let first: i128 = ceil_div((lo as i128) * FINE, size);
    let last: i128 = floor_div((hi as i128) * FINE, size);
    (first, last - first + 1)
}

/// Chooses the step between the ticks of an axis from `lo` bits to `hi` bits
/// that may show `max_points` ticks at most. Returns the step and its size
/// in fine units.
pub fn choose_step(lo: i64, hi: i64, max_points: usize) -> (r: (NiceStep, i128))
    requires
        lo < hi,
        max_points >= 1,
    ensures
        r.0 == chosen_step(lo as int, hi as int, max_points as int),
        r.1 == r.0.size(),
        r.0.wf(),
        size_in_range(r.1 as int),
        0 <= tick_count(lo as int, hi as int, r.1 as int) <= max_points,
{
    let span: i128 = ((hi as i128) - (lo as i128)) * FINE;
    let mut e: i32 = FINEST_EXPONENT;
    let mut unit: i128 = FINEST_DECADE;
    proof {
        lemma_span_bounds(lo as int, hi as int);
        lemma_chosen_step(lo as int, hi as int, max_points as int);
        lemma_initial_step(lo as int, hi as int, max_points as int);
    }
    while e < COARSEST_EXPONENT && unit * 10 <= span
        invariant
            FINEST_EXPONENT <= e <= COARSEST_EXPONENT,
            unit == decade(e as int),
            0 < unit <= span < COARSEST_DECADE,
            base_exponent_from(span as int, e as int) == base_exponent(span as int),
        decreases COARSEST_EXPONENT - e,
    {
        unit = unit * 10;
        e = e + 1;
    }
    assert(e == base_exponent(span as int));
    if 1 + span / unit > max_points as i128 {
        unit = unit * 10;
        e = e + 1;
        proof {
            lemma_decade_step(e as int);
        }
    }
    let mut step = NiceStep { mantissa: 1, exponent: e };
    let mut size: i128 = unit;
    proof {
        assert(unit == decade(e as int));
        assert(1 * decade(e as int) == decade(e as int));
        lemma_size_in_range(step);
    }
    assert(step == initial_step(lo as int, hi as int, max_points as int));
    let mut refining: bool = true;
    while refining
        invariant
            lo < hi,
            step.wf(),
            size == step.size(),
            size_in_range(size as int),
            refining ==> refine(lo as int, hi as int, max_points as int, step) == chosen_step(
                lo as int,
                hi as int,
                max_points as int,
            ),
            !refining ==> step == chosen_step(lo as int, hi as int, max_points as int),
        decreases step.rank() + (if refining { 1nat } else { 0nat }),
    {
        if step.mantissa == 1 && step.exponent == FINEST_EXPONENT {
            refining = false;
        } else {
            proof {
                lemma_finer(step);
                lemma_size_in_range(step.finer());
            }
            let next = if step.mantissa == 1 {
                NiceStep { mantissa: 5, exponent: step.exponent - 1 }
            } else if step.mantissa == 5 {
                NiceStep { mantissa: 2, exponent: step.exponent }
            } else {
                NiceStep { mantissa: 1, exponent: step.exponent }
            };
            let next_size: i128 = if step.mantissa == 5 {
                size / 5 * 2
            } else {
                size / 2
            };
            assert(next == step.finer());
            assert(next_size == next.size());
            let counted = count_ticks(lo, hi, next_size);
            if counted.1 > max_points as i128 {
                refining = false;
            } else {
                step = next;
                size = next_size;
            }
        }
    }
    (step, size)
}

} // verus!
