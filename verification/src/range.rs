//! The spans of a chart's two axes around the points to draw.

use crate::axis::RangedDataPoint;
use crate::data::{ArithmeticError, DataPoint};
use crate::fixed_point::unit;
use crate::time::Timestamp;
use std::ops::Range;
use vstd::prelude::*;

verus! {

/// The smallest value of a series; of several, the first.
pub open spec fn lowest_value(series: Seq<(Timestamp, DataPoint)>) -> DataPoint
    decreases series.len(),
{
    if series.len() <= 1 {
        series[0].1
    } else {
        let before = lowest_value(series.drop_last());
        if series.last().1.bits() < before.bits() {
            series.last().1
        } else {
            before
        }
    }
}

/// The largest value of a series; of several, the last.
pub open spec fn highest_value(series: Seq<(Timestamp, DataPoint)>) -> DataPoint
    decreases series.len(),
{
    if series.len() <= 1 {
        series[0].1
    } else {
        let before = highest_value(series.drop_last());
        if series.last().1.bits() >= before.bits() {
            series.last().1
        } else {
            before
        }
    }
}

/// The earliest instant of a series.
pub open spec fn earliest(series: Seq<(Timestamp, DataPoint)>) -> Timestamp
    decreases series.len(),
{
    if series.len() <= 1 {
        series[0].0
    } else {
        let before = earliest(series.drop_last());
        if series.last().0.key() < before.key() {
            series.last().0
        } else {
            before
        }
    }
}

/// The latest instant of a series.
pub open spec fn latest(series: Seq<(Timestamp, DataPoint)>) -> Timestamp
    decreases series.len(),
{
    if series.len() <= 1 {
        series[0].0
    } else {
        let before = latest(series.drop_last());
        if series.last().0.key() >= before.key() {
            series.last().0
        } else {
            before
        }
    }
}

/// The span from `low` to `high` with a margin of a tenth of its length on
/// either side. The margin below is cut so that it takes no more than `low`
/// itself: a span of counts never starts below zero.
pub open spec fn padded_span(low: DataPoint, high: DataPoint) -> Result<
    RangedDataPoint,
    ArithmeticError,
> {
    match high.sub_spec(low) {
        Err(e) => Err(e),
        Ok(length) => match length.div_spec(10) {
            Err(e) => Err(e),
            Ok(pad) => match low.sub_spec(pad.min_spec(low)) {
                Err(e) => Err(e),
                Ok(start) => match high.add_spec(pad) {
                    Err(e) => Err(e),
                    Ok(end) => Ok(RangedDataPoint(start, end)),
                },
            },
        },
    }
}

/// The time span and the padded value span of a series.
pub open spec fn data_range(series: Seq<(Timestamp, DataPoint)>) -> Result<
    (Range<Timestamp>, RangedDataPoint),
    ArithmeticError,
> {
    match padded_span(lowest_value(series), highest_value(series)) {
        Err(e) => Err(e),
        Ok(span) => Ok((Range { start: earliest(series), end: latest(series) }, span)),
    }
}

/// The lowest and the highest value of a series are values of the series
/// and bound all of them; likewise the earliest and the latest instant.
pub proof fn lemma_extremes(series: Seq<(Timestamp, DataPoint)>)
    requires
        series.len() > 0,
    ensures
        exists|i: int| 0 <= i < series.len() && series[i].1 == lowest_value(series),
        exists|i: int| 0 <= i < series.len() && series[i].1 == highest_value(series),
        exists|i: int| 0 <= i < series.len() && series[i].0 == earliest(series),
        exists|i: int| 0 <= i < series.len() && series[i].0 == latest(series),
        forall|i: int|
            0 <= i < series.len() ==> lowest_value(series).bits() <= (#[trigger] series[i]).1.bits()
                <= highest_value(series).bits(),
        forall|i: int|
            0 <= i < series.len() ==> earliest(series).key() <= (#[trigger] series[i]).0.key()
                <= latest(series).key(),
    decreases series.len(),
{
    if series.len() > 1 {
        let before = series.drop_last();
        lemma_extremes(before);
        let last = series.len() - 1;
        let a = choose|i: int| 0 <= i < before.len() && before[i].1 == lowest_value(before);
        let b = choose|i: int| 0 <= i < before.len() && before[i].1 == highest_value(before);
        let c = choose|i: int| 0 <= i < before.len() && before[i].0 == earliest(before);
        let d = choose|i: int| 0 <= i < before.len() && before[i].0 == latest(before);
        assert(series[a] == before[a] && series[b] == before[b]);
        assert(series[c] == before[c] && series[d] == before[d]);
        assert(series[last] == series.last());
        assert forall|i: int| 0 <= i < series.len() implies lowest_value(series).bits() <= (
        #[trigger] series[i]).1.bits() <= highest_value(series).bits() by {
            if i < last {
                assert(series[i] == before[i]);
            }
        }
        assert forall|i: int| 0 <= i < series.len() implies earliest(series).key() <= (
        #[trigger] series[i]).0.key() <= latest(series).key() by {
            if i < last {
                assert(series[i] == before[i]);
            }
        }
    } else {
        assert(series[0].1 == lowest_value(series));
    }
}

/// Around values that are not negative the padded span runs upward, holds
/// both values, and does not reach below zero.
pub proof fn lemma_padded_span(low: DataPoint, high: DataPoint)
    requires
        0 <= low.bits() <= high.bits(),
        padded_span(low, high) is Ok,
    ensures
        0 <= padded_span(low, high)->Ok_0.0.bits() <= low.bits(),
        high.bits() <= padded_span(low, high)->Ok_0.1.bits(),
        padded_span(low, high)->Ok_0.wf(),
{
    let length = high.sub_spec(low)->Ok_0;
    let pad = length.div_spec(10)->Ok_0;
    assert(0 <= length.bits());
    assert(0 <= pad.bits() <= length.bits()) by {
        match length {
            DataPoint::Zero => {},
            DataPoint::Float(b) => {},
            DataPoint::Integer(n) => {
                assert(0 <= (n as int / 10) * unit() <= n * unit()) by (nonlinear_arith)
                    requires
                        0 <= n as int / 10 <= n,
                ;
            },
        }
    }
}

/// Finds the time span of a series and its value span, the latter with a
/// margin of a tenth of its length on either side.
pub fn get_data_range(data: &Vec<(Timestamp, DataPoint)>) -> (r: Result<
    (Range<Timestamp>, RangedDataPoint),
    ArithmeticError,
>)
    requires
        data.len() > 0,
    ensures
        r == data_range(data@),
{
    let mut low: DataPoint = data[0].1;
    let mut high: DataPoint = data[0].1;
    let mut first: Timestamp = data[0].0;
    let mut last: Timestamp = data[0].0;
    let mut i: usize = 1;
    assert(data@.take(1).len() == 1);
    while i < data.len()
        invariant
            1 <= i <= data.len(),
            low == lowest_value(data@.take(i as int)),
            high == highest_value(data@.take(i as int)),
            first == earliest(data@.take(i as int)),
            last == latest(data@.take(i as int)),
        decreases data.len() - i,
    {
        let point = data[i];
        proof {
            assert(data@.take(i + 1).drop_last() =~= data@.take(i as int));
            assert(data@.take(i + 1).last() == point);
        }
        if point.1 < low {
            low = point.1;
        }
        if high <= point.1 {
            high = point.1;
        }
        if point.0.before(first) {
            first = point.0;
        }
        if !point.0.before(last) {
            last = point.0;
        }
        i = i + 1;
    }
    assert(data@.take(data.len() as int) =~= data@);
    let length = match high.sub(low) {
        Ok(v) => v,
        Err(e) => {
            return Err(e);
        },
    };
    let pad = match length.div(10) {
        Ok(v) => v,
        Err(e) => {
            return Err(e);
        },
    };
    let start = match low.sub(pad.min(low)) {
        Ok(v) => v,
        Err(e) => {
            return Err(e);
        },
    };
    let end = match high.add(pad) {
        Ok(v) => v,
        Err(e) => {
            return Err(e);
        },
    };
    Ok((first..last, RangedDataPoint(start, end)))
}

} // verus!
