//! Rescaling one series against the mean of another, instant by instant.

use crate::arith::{
    lemma_div_scaled, lemma_quotient_at_least, lemma_quotient_below, mul_div, round_div_spec,
};
use crate::data::{ArithmeticError, DataPoint};
use crate::fixed_point::{fits_i64, unit};
use crate::time::Timestamp;
use vstd::arithmetic::div_mod::lemma_fundamental_div_mod;
use vstd::prelude::*;

verus! {

/// The size of a whole number without its sign.
pub open spec fn magnitude(x: int) -> int {
    if x < 0 {
        -x
    } else {
        x
    }
}

/// The sum of the values of a series, added up in order from exact zero.
pub open spec fn series_sum(series: Seq<(Timestamp, DataPoint)>) -> Result<
    DataPoint,
    ArithmeticError,
>
    decreases series.len(),
{
    if series.len() == 0 {
        Ok(DataPoint::Zero)
    } else {
        match series_sum(series.drop_last()) {
            Err(e) => Err(e),
            Ok(sum) => sum.add_spec(series.last().1),
        }
    }
}

/// The value of the first point of a series at a given instant.
pub open spec fn first_at(series: Seq<(Timestamp, DataPoint)>, instant: Timestamp) -> Option<
    DataPoint,
>
    decreases series.len(),
{
    if series.len() == 0 {
        None
    } else {
        match first_at(series.drop_last(), instant) {
            Some(value) => Some(value),
            None => if series.last().0 == instant {
                Some(series.last().1)
            } else {
                None
            },
        }
    }
}

/// A value times the mean of a reference series, `total / count`, divided
/// by one reference value: the exact quotient, rounded to the nearest
/// fixed-point number, halves away from zero. A product of nothing is exact
/// zero.
pub open spec fn rescaled(
    value: DataPoint,
    total: DataPoint,
    count: int,
    reference: DataPoint,
) -> Result<DataPoint, ArithmeticError> {
    let top = value.bits() * total.bits();
    let bottom = count * reference.bits();
    if top == 0 {
        Ok(DataPoint::Zero)
    } else {
        let size = round_div_spec(magnitude(top), magnitude(bottom));
        let bits = if (top < 0) != (bottom < 0) {
            -size
        } else {
            size
        };
        if fits_i64(bits) {
            Ok(DataPoint::Float(bits as i64))
        } else {
            Err(ArithmeticError::Overflow)
        }
    }
}

/// The rescaled points for the first `upto` points of the reference series,
/// in that series' order. A reference point of size zero gives no point, nor
/// does one at whose instant the data holds no point.
pub open spec fn normalized_upto(
    data: Seq<(Timestamp, DataPoint)>,
    bench: Seq<(Timestamp, DataPoint)>,
    total: DataPoint,
    upto: int,
) -> Result<Seq<(Timestamp, DataPoint)>, ArithmeticError>
    decreases upto,
{
    if upto <= 0 {
        Ok(Seq::empty())
    } else {
        match normalized_upto(data, bench, total, upto - 1) {
            Err(e) => Err(e),
            Ok(points) => {
                let (instant, reference) = bench[upto - 1];
                if reference.bits() == 0 {
                    Ok(points)
                } else {
                    match first_at(data, instant) {
                        None => Ok(points),
                        Some(value) => match rescaled(value, total, bench.len() as int, reference) {
                            Err(e) => Err(e),
                            Ok(scaled) => Ok(points.push((instant, scaled))),
                        },
                    }
                }
            },
        }
    }
}

/// The data rescaled against the mean of the reference series.
pub open spec fn normalized(
    data: Seq<(Timestamp, DataPoint)>,
    bench: Seq<(Timestamp, DataPoint)>,
) -> Result<Seq<(Timestamp, DataPoint)>, ArithmeticError> {
    match series_sum(bench) {
        Err(e) => Err(e),
        Ok(total) => normalized_upto(data, bench, total, bench.len() as int),
    }
}

/// Rescaling gives at most one point for each point of the reference
/// series, and every point that it gives stands at an instant of the
/// reference series at which the data holds a point too.
pub proof fn lemma_normalized_points(
    data: Seq<(Timestamp, DataPoint)>,
    bench: Seq<(Timestamp, DataPoint)>,
    total: DataPoint,
    upto: int,
)
    requires
        0 <= upto <= bench.len(),
        normalized_upto(data, bench, total, upto) is Ok,
    ensures
        normalized_upto(data, bench, total, upto)->Ok_0.len() <= upto,
        forall|i: int|
            0 <= i < normalized_upto(data, bench, total, upto)->Ok_0.len() ==> {
                let instant = (#[trigger] normalized_upto(data, bench, total, upto)->Ok_0[i]).0;
                &&& first_at(data, instant) is Some
                &&& exists|j: int| 0 <= j < upto && bench[j].0 == instant && bench[j].1.bits() != 0
            },
    decreases upto,
{
    if upto > 0 {
        lemma_normalized_points(data, bench, total, upto - 1);
        let before = normalized_upto(data, bench, total, upto - 1)->Ok_0;
        let now = normalized_upto(data, bench, total, upto)->Ok_0;
        assert forall|i: int| 0 <= i < now.len() implies {
            let instant = (#[trigger] now[i]).0;
            &&& first_at(data, instant) is Some
            &&& exists|j: int| 0 <= j < upto && bench[j].0 == instant && bench[j].1.bits() != 0
        } by {
            if i < before.len() {
                assert(now[i] == before[i]);
                let instant = before[i].0;
                let j = choose|j: int|
                    0 <= j < upto - 1 && bench[j].0 == instant && bench[j].1.bits() != 0;
                assert(0 <= j < upto && bench[j].0 == instant && bench[j].1.bits() != 0);
            } else {
                assert(bench[upto - 1].0 == now[i].0 && bench[upto - 1].1.bits() != 0);
            }
        }
    }
}

/// Whether a sum shares the unit of one of the values that went into it.
pub open spec fn same_unit(total: DataPoint, part: DataPoint) -> bool {
    (part is Integer ==> total is Integer) && (part is Float ==> total is Float)
}

/// A sum is of the kind of every count or measurement that went into it.
pub proof fn lemma_sum_kind(series: Seq<(Timestamp, DataPoint)>, i: int)
    requires
        0 <= i < series.len(),
        series_sum(series) is Ok,
    ensures
        same_unit(series_sum(series)->Ok_0, series[i].1),
    decreases series.len(),
{
    let before = series.drop_last();
    if i < series.len() - 1 {
        assert(before[i] == series[i]);
        lemma_sum_kind(before, i);
    }
}

/// A point found among the first points of a series is the point found in
/// the whole.
pub proof fn lemma_first_at_prefix(
    series: Seq<(Timestamp, DataPoint)>,
    instant: Timestamp,
    k: int,
)
    requires
        0 <= k <= series.len(),
        first_at(series.take(k), instant) is Some,
    ensures
        first_at(series, instant) == first_at(series.take(k), instant),
    decreases series.len() - k,
{
    if k < series.len() {
        assert(series.take(k + 1).drop_last() =~= series.take(k));
        lemma_first_at_prefix(series, instant, k + 1);
    } else {
        assert(series.take(k) =~= series);
    }
}

/// Adds up the values of a series.
pub fn sum_values(series: &Vec<(Timestamp, DataPoint)>) -> (r: Result<DataPoint, ArithmeticError>)
    ensures
        r == series_sum(series@),
{
    let mut sum = DataPoint::Zero;
    let mut i: usize = 0;
    assert(series@.take(0) =~= Seq::empty());
    while i < series.len()
        invariant
            i <= series.len(),
            series_sum(series@.take(i as int)) == Ok::<DataPoint, ArithmeticError>(sum),
        decreases series.len() - i,
    {
        assert(series@.take(i + 1).drop_last() =~= series@.take(i as int));
        match sum.add(series[i].1) {
            Ok(next) => {
                sum = next;
            },
            Err(e) => {
                proof {
                    lemma_sum_fails(series@, i + 1);
                }
                return Err(e);
            },
        }
        i = i + 1;
    }
    assert(series@.take(series.len() as int) =~= series@);
    Ok(sum)
}

/// A sum that fails on the first points of a series fails the same way on
/// the whole.
pub proof fn lemma_sum_fails(series: Seq<(Timestamp, DataPoint)>, k: int)
    requires
        0 <= k <= series.len(),
        series_sum(series.take(k)) is Err,
    ensures
        series_sum(series) == series_sum(series.take(k)),
    decreases series.len() - k,
{
    if k < series.len() {
        assert(series.take(k + 1).drop_last() =~= series.take(k));
        lemma_sum_fails(series, k + 1);
    } else {
        assert(series.take(k) =~= series);
    }
}

/// Finds the value of the first point of a series at a given instant.
pub fn find_at(series: &Vec<(Timestamp, DataPoint)>, instant: Timestamp) -> (r: Option<DataPoint>)
    ensures
        r == first_at(series@, instant),
{
    let mut i: usize = 0;
    assert(series@.take(0) =~= Seq::empty());
    while i < series.len()
        invariant
            i <= series.len(),
            first_at(series@.take(i as int), instant) is None,
        decreases series.len() - i,
    {
        assert(series@.take(i + 1).drop_last() =~= series@.take(i as int));
        if series[i].0 == instant {
            proof {
                lemma_first_at_prefix(series@, instant, i + 1);
            }
            return Some(series[i].1);
        }
        i = i + 1;
    }
    assert(series@.take(series.len() as int) =~= series@);
    None
}

/// The size of a value in the unit of its own kind, and whether the value
/// is negative.
fn raw_size(value: DataPoint) -> (r: (u128, bool))
    ensures
        r.0 == magnitude(value.raw()),
        r.1 == (value.raw() < 0),
        r.0 <= u64::MAX,
{
    match value {
        DataPoint::Zero => (0, false),
        DataPoint::Float(b) => if b < 0 {
            ((-(b as i128)) as u128, true)
        } else {
            (b as u128, false)
        },
        DataPoint::Integer(n) => (n as u128, false),
    }
}

/// How many raw bits one step of a value's own unit holds.
pub open spec fn unit_of(value: DataPoint) -> int {
    if value is Integer {
        unit()
    } else {
        1
    }
}

/// Rounding a quotient of sizes that share a unit is rounding the quotient
/// of the numbers of units.
proof fn lemma_round_div_unit(top: int, bottom: int, shared: int)
    requires
        bottom > 0,
        shared > 0,
    ensures
        round_div_spec(top * shared, bottom * shared) == round_div_spec(top, bottom),
{
    assert(2 * (top * shared) + bottom * shared == (2 * top + bottom) * shared + 0)
        by (nonlinear_arith);
    assert(2 * (bottom * shared) == (2 * bottom) * shared) by (nonlinear_arith);
    lemma_div_scaled(2 * top + bottom, 0, shared, 2 * bottom);
}

/// Rounding to the nearest from a quotient and its remainder: upward from
/// half the divisor on.
proof fn lemma_round_div_parts(top: int, bottom: int, q: int, rem: int)
    requires
        bottom > 0,
        0 <= rem < bottom,
        top == bottom * q + rem,
    ensures
        round_div_spec(top, bottom) == if 2 * rem >= bottom {
            q + 1
        } else {
            q
        },
{
    if 2 * rem >= bottom {
        assert(2 * top + bottom == (2 * q + 2) * bottom + (2 * rem - bottom))
            by (nonlinear_arith)
            requires
                top == bottom * q + rem,
        ;
        lemma_div_scaled(2 * q + 2, 2 * rem - bottom, bottom, 2);
    } else {
        assert(2 * top + bottom == (2 * q + 1) * bottom + 2 * rem) by (nonlinear_arith)
            requires
                top == bottom * q + rem,
        ;
        lemma_div_scaled(2 * q + 1, 2 * rem, bottom, 2);
    }
}

/// Rescales one value: the value times `total`, divided by `count` times
/// the reference value.
pub fn rescale(value: DataPoint, total: DataPoint, count: usize, reference: DataPoint) -> (r:
    Result<DataPoint, ArithmeticError>)
    requires
        count > 0,
        reference.bits() != 0,
        same_unit(total, reference),
    ensures
        r == rescaled(value, total, count as int, reference),
{
    let v = raw_size(value);
    let t = raw_size(total);
    let f = raw_size(reference);
    let ghost top = value.bits() * total.bits();
    let ghost bottom = count * reference.bits();
    let ghost shared = unit_of(reference);
    let k: u64 = match value {
        DataPoint::Integer(_) => 0x1_0000_0000,
        _ => 1,
    };
    proof {
        assert(value.bits() == value.raw() * k);
        assert(total.bits() == total.raw() * shared);
        assert(reference.bits() == reference.raw() * shared);
        assert(top == (value.raw() * total.raw()) * k * shared) by (nonlinear_arith)
            requires
                top == value.bits() * total.bits(),
                value.bits() == value.raw() * k,
                total.bits() == total.raw() * shared,
        ;
        assert(bottom == (count * reference.raw()) * shared) by (nonlinear_arith)
            requires
                bottom == count * reference.bits(),
                reference.bits() == reference.raw() * shared,
        ;
    }
    if v.0 == 0 || t.0 == 0 {
        assert(top == 0) by (nonlinear_arith)
            requires
                top == (value.raw() * total.raw()) * k * shared,
                value.raw() == 0 || total.raw() == 0,
        ;
        return Ok(DataPoint::Zero);
    }
    assert(v.0 * t.0 <= 0xffff_ffff_ffff_ffff * 0xffff_ffff_ffff_ffff) by (nonlinear_arith)
        requires
            0 <= v.0 <= 0xffff_ffff_ffff_ffff,
            0 <= t.0 <= 0xffff_ffff_ffff_ffff,
    ;
    assert((count as u128) * f.0 <= 0xffff_ffff_ffff_ffff * 0xffff_ffff_ffff_ffff)
        by (nonlinear_arith)
        requires
            0 <= count <= 0xffff_ffff_ffff_ffff,
            0 <= f.0 <= 0xffff_ffff_ffff_ffff,
    ;
    let a: u128 = v.0 * t.0;
    let d: u128 = (count as u128) * f.0;
    let negative: bool = (v.1 != t.1) != f.1;
    proof {
        assert(a > 0 && d > 0) by (nonlinear_arith)
            requires
                a == v.0 * t.0,
                d == count * f.0,
                v.0 > 0,
                t.0 > 0,
                count > 0,
                f.0 > 0,
        ;
        assert(magnitude(top) == (a * k) * shared && top != 0 && ((top < 0) == (v.1 != t.1)))
            by (nonlinear_arith)
            requires
                top == (value.raw() * total.raw()) * k * shared,
                a == v.0 * t.0,
                v.0 == magnitude(value.raw()),
                t.0 == magnitude(total.raw()),
                v.1 == (value.raw() < 0),
                t.1 == (total.raw() < 0),
                v.0 > 0,
                t.0 > 0,
                k > 0,
                shared > 0,
        ;
        assert(magnitude(bottom) == d * shared && ((bottom < 0) == f.1)) by (nonlinear_arith)
            requires
                bottom == (count * reference.raw()) * shared,
                d == count * f.0,
                f.0 == magnitude(reference.raw()),
                f.1 == (reference.raw() < 0),
                f.0 > 0,
                count > 0,
                shared > 0,
        ;
        lemma_round_div_unit(a * k, d as int, shared);
        lemma_fundamental_div_mod(a as int, d as int);
    }
    let ghost size = round_div_spec(a * k, d as int);
    if a / d >= 0x1_0000_0000_0000_0000 {
        proof {
            let aq = a as int / d as int;
            let ar = a as int % d as int;
            assert(0x1_0000_0000_0000_0000 * (2 * d) <= 2 * (a * k) + d) by (nonlinear_arith)
                requires
                    a == d * aq + ar,
                    ar >= 0,
                    aq >= 0x1_0000_0000_0000_0000,
                    k >= 1,
                    d > 0,
            ;
            lemma_quotient_at_least(0x1_0000_0000_0000_0000, 2 * d, 2 * (a * k) + d);
        }
        return Err(ArithmeticError::Overflow);
    }
    proof {
        let aq = a as int / d as int;
        let ar = a as int % d as int;
        assert(a * k < 0x1_0000_0000_0000_0000_0000_0000 * d) by (nonlinear_arith)
            requires
                a == d * aq + ar,
                ar < d,
                aq < 0x1_0000_0000_0000_0000,
                1 <= k <= 0x1_0000_0000,
                d > 0,
        ;
        lemma_quotient_below(a * k, d as int, 0x1_0000_0000_0000_0000_0000_0000);
    }
    let parts = mul_div(a, k, d);
    proof {
        lemma_fundamental_div_mod(a * k, d as int);
        lemma_round_div_parts(a * k, d as int, parts.0 as int, parts.1 as int);
    }
    let rounded: u128 = if parts.1 >= d - parts.1 {
        parts.0 + 1
    } else {
        parts.0
    };
    assert(rounded == size);
    if negative {
        if rounded > 0x8000_0000_0000_0000 {
            Err(ArithmeticError::Overflow)
        } else {
            Ok(DataPoint::Float((-(rounded as i128)) as i64))
        }
    } else {
        if rounded > 0x7fff_ffff_ffff_ffff {
            Err(ArithmeticError::Overflow)
        } else {
            Ok(DataPoint::Float(rounded as i64))
        }
    }
}

/// The rescaled points stop at the first value that cannot be rescaled.
pub proof fn lemma_normalized_fails(
    data: Seq<(Timestamp, DataPoint)>,
    bench: Seq<(Timestamp, DataPoint)>,
    total: DataPoint,
    k: int,
)
    requires
        0 <= k <= bench.len(),
        normalized_upto(data, bench, total, k) is Err,
    ensures
        normalized_upto(data, bench, total, bench.len() as int) == normalized_upto(
            data,
            bench,
            total,
            k,
        ),
    decreases bench.len() - k,
{
    if k < bench.len() {
        lemma_normalized_fails(data, bench, total, k + 1);
    }
}

/// Rescales a series against a reference series: each value is multiplied
/// by the mean of the reference values and divided by the reference value
/// at the same instant. The result follows the order of the reference series.
pub fn normalize_data(data: Vec<(Timestamp, DataPoint)>, bench: Vec<(Timestamp, DataPoint)>) -> (r:
    Result<Vec<(Timestamp, DataPoint)>, ArithmeticError>)
    ensures
        match r {
            Ok(points) => normalized(data@, bench@) == Ok::<
                Seq<(Timestamp, DataPoint)>,
                ArithmeticError,
            >(points@),
            Err(e) => normalized(data@, bench@) == Err::<
                Seq<(Timestamp, DataPoint)>,
                ArithmeticError,
            >(e),
        },
{
    let total = match sum_values(&bench) {
        Ok(total) => total,
        Err(e) => {
            return Err(e);
        },
    };
    let count: usize = bench.len();
    let mut points: Vec<(Timestamp, DataPoint)> = Vec::new();
    let mut i: usize = 0;
    while i < count
        invariant
            i <= count,
            count == bench.len(),
            series_sum(bench@) == Ok::<DataPoint, ArithmeticError>(total),
            normalized_upto(data@, bench@, total, i as int) == Ok::<
                Seq<(Timestamp, DataPoint)>,
                ArithmeticError,
            >(points@),
        decreases count - i,
    {
        let instant: Timestamp = bench[i].0;
        let reference: DataPoint = bench[i].1;
        if reference.scaled() != 0 {
            match find_at(&data, instant) {
                Some(value) => {
                    proof {
                        lemma_sum_kind(bench@, i as int);
                    }
                    match rescale(value, total, count, reference) {
                        Ok(scaled) => {
                            points.push((instant, scaled));
                        },
                        Err(e) => {
                            proof {
                                lemma_normalized_fails(data@, bench@, total, i + 1);
                            }
                            return Err(e);
                        },
                    }
                },
                None => {},
            }
        }
        i = i + 1;
    }
    Ok(points)
}

} // verus!
