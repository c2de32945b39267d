use analytics_plot::data::{DataPoint, RangedDataPoint};

const ONE: i64 = 1 << 32;

fn fixed(whole: i64) -> DataPoint {
    DataPoint::Float(whole * ONE)
}

#[test]
fn ticks_of_unit_span_step_by_a_fifth() {
    let span = RangedDataPoint(DataPoint::Zero, fixed(1));
    let ticks = span.key_points(10);
    assert_eq!(ticks.len(), 6);
    assert!(matches!(ticks[0], DataPoint::Zero));
    // Each tick is the decimal value rounded to the nearest multiple of 2^-32.
    let expected: [i64; 5] = [858993459, 1717986918, 2576980378, 3435973837, 4294967296];
    for i in 0..5 {
        match ticks[i + 1] {
            DataPoint::Float(bits) => assert_eq!(bits, expected[i]),
            _ => panic!("tick {} is not a fixed-point value", i + 1),
        }
    }
}

#[test]
fn ticks_of_degenerate_span_are_its_value() {
    let span = RangedDataPoint(DataPoint::Integer(5), DataPoint::Integer(5));
    for max_points in [1usize, 2, 10, 1000] {
        let ticks = span.key_points(max_points);
        assert_eq!(ticks.len(), 1);
        assert!(matches!(ticks[0], DataPoint::Float(b) if b == 5 * ONE));
        assert_eq!(ticks[0], DataPoint::Integer(5));
    }
}

#[test]
fn no_ticks_for_no_points() {
    let span = RangedDataPoint(DataPoint::Zero, fixed(1));
    assert!(span.key_points(0).is_empty());
    let point = RangedDataPoint(fixed(5), fixed(5));
    assert!(point.key_points(0).is_empty());
}

#[test]
fn ticks_never_exceed_the_budget() {
    let spans = [
        RangedDataPoint(DataPoint::Zero, fixed(1)),
        RangedDataPoint(DataPoint::Integer(9), DataPoint::Integer(21)),
        RangedDataPoint(fixed(-7), DataPoint::Float(3 * ONE + 12345)),
        RangedDataPoint(DataPoint::Float(1), DataPoint::Float(2)),
        RangedDataPoint(DataPoint::Float(i64::MIN), DataPoint::Float(i64::MAX)),
        RangedDataPoint(DataPoint::Integer(5), DataPoint::Integer(15)),
    ];
    for span in spans.iter() {
        for max_points in 0usize..40 {
            let ticks = span.key_points(max_points);
            assert!(ticks.len() <= max_points);
            for pair in ticks.windows(2) {
                assert!(pair[0] <= pair[1]);
            }
            for tick in ticks.iter() {
                assert!(span.0 <= *tick && *tick <= span.1);
            }
        }
    }
}

#[test]
fn ticks_of_count_span() {
    let span = RangedDataPoint(DataPoint::Integer(9), DataPoint::Integer(21));
    let ticks = span.key_points(10);
    let values: Vec<Option<u64>> = ticks.iter().map(|t| t.to_u64()).collect();
    assert_eq!(
        values,
        vec![Some(10), Some(12), Some(14), Some(16), Some(18), Some(20)]
    );
    // one tick only: steps of 100 and 50 hit nothing, a step of 20 hits once
    let coarse = span.key_points(1);
    assert_eq!(coarse.len(), 1);
    assert_eq!(coarse[0], DataPoint::Integer(20));
    // between 6 and 8.5 a step of 5 hits nothing and a step of 2 hits twice
    let gap = RangedDataPoint(fixed(6), DataPoint::Float(17 * ONE / 2));
    assert!(gap.key_points(1).is_empty());
    let three = span.key_points(3);
    assert_eq!(three.len(), 3);
    assert_eq!(three[0], DataPoint::Integer(10));
    assert_eq!(three[1], DataPoint::Integer(15));
    assert_eq!(three[2], DataPoint::Integer(20));
}

#[test]
fn map_scales_linearly() {
    let span = RangedDataPoint(DataPoint::Zero, DataPoint::Integer(100));
    assert_eq!(span.map(&DataPoint::Integer(50), (0, 200)), 100);
    assert_eq!(span.map(&DataPoint::Zero, (0, 200)), 0);
    assert_eq!(span.map(&DataPoint::Integer(0), (0, 200)), 0);
    assert_eq!(span.map(&DataPoint::Integer(100), (0, 200)), 200);
    assert_eq!(span.map(&fixed(50), (0, 200)), 100);
    assert_eq!(span.map(&DataPoint::Integer(33), (0, 200)), 66);
    assert_eq!(span.map(&DataPoint::Integer(1), (0, 3)), 0);
}

#[test]
fn map_on_falling_interval() {
    let span = RangedDataPoint(DataPoint::Zero, DataPoint::Integer(100));
    assert_eq!(span.map(&DataPoint::Zero, (800, 0)), 800);
    assert_eq!(span.map(&DataPoint::Integer(100), (800, 0)), 0);
    assert_eq!(span.map(&DataPoint::Integer(25), (800, 0)), 600);
    // 1/3 of -10 pixels is -3.33..; less a thousandth and rounded up gives -3.
    assert_eq!(span.map(&DataPoint::Integer(100), (10, 0)), 0);
    let thirds = RangedDataPoint(DataPoint::Zero, DataPoint::Integer(3));
    assert_eq!(thirds.map(&DataPoint::Integer(1), (10, 0)), 7);
    assert_eq!(thirds.map(&DataPoint::Integer(1), (0, 10)), 3);
}

#[test]
fn map_of_degenerate_span_is_the_midpoint() {
    let span = RangedDataPoint(fixed(5), DataPoint::Integer(5));
    for v in [DataPoint::Zero, DataPoint::Integer(5), fixed(-40), DataPoint::Integer(u64::MAX)] {
        assert_eq!(span.map(&v, (0, 200)), 100);
        assert_eq!(span.map(&v, (100, 300)), 200);
        assert_eq!(span.map(&v, (300, 100)), 200);
        assert_eq!(span.map(&v, (-3, 0)), -1);
        assert_eq!(span.map(&v, (i32::MAX, i32::MAX)), i32::MAX);
    }
}

#[test]
fn map_of_empty_interval_is_its_end() {
    let span = RangedDataPoint(DataPoint::Zero, DataPoint::Integer(100));
    assert_eq!(span.map(&DataPoint::Integer(70), (40, 40)), 40);
}

#[test]
fn map_far_outside_the_span_saturates() {
    let span = RangedDataPoint(DataPoint::Float(0), DataPoint::Float(1));
    assert_eq!(span.map(&DataPoint::Integer(u64::MAX), (0, 10)), i32::MAX);
    assert_eq!(span.map(&DataPoint::Float(i64::MIN), (0, 10)), i32::MIN);
    assert_eq!(span.map(&DataPoint::Integer(u64::MAX), (10, 0)), i32::MIN);
    assert_eq!(span.map(&DataPoint::Float(i64::MIN), (10, 0)), i32::MAX);
    let wide = RangedDataPoint(DataPoint::Zero, DataPoint::Integer(10));
    assert_eq!(wide.map(&DataPoint::Integer(20), (0, 100)), 200);
    assert_eq!(wide.map(&fixed(-10), (0, 100)), -100);
    assert_eq!(wide.map(&DataPoint::Integer(20), (i32::MAX - 100, i32::MAX)), i32::MAX);
}

#[test]
fn span_is_built_upward_only() {
    let span = RangedDataPoint::new(DataPoint::Integer(2), fixed(3)).unwrap();
    let ends = span.range();
    assert!(matches!(ends.start, DataPoint::Integer(2)));
    assert!(matches!(ends.end, DataPoint::Float(b) if b == 3 * ONE));
    assert!(RangedDataPoint::new(fixed(3), fixed(3)).is_some());
    assert!(RangedDataPoint::new(fixed(3), DataPoint::Integer(2)).is_none());
    assert!(RangedDataPoint::new(DataPoint::Zero, DataPoint::Float(-1)).is_none());
}

#[test]
fn span_within_fixed_range() {
    let top = DataPoint::Integer((1 << 31) - 1);
    assert!(RangedDataPoint(DataPoint::Float(i64::MIN), top).in_fixed_range());
    assert!(!RangedDataPoint(DataPoint::Zero, DataPoint::Integer(1 << 31)).in_fixed_range());
    assert!(!RangedDataPoint(DataPoint::Integer(u64::MAX), DataPoint::Zero).in_fixed_range());
}

#[test]
fn span_that_runs_downward() {
    let down = RangedDataPoint(DataPoint::Integer(100), DataPoint::Zero);
    assert_eq!(down.map(&DataPoint::Integer(100), (0, 200)), 0);
    assert_eq!(down.map(&DataPoint::Zero, (0, 200)), 200);
    assert_eq!(down.map(&DataPoint::Integer(75), (0, 200)), 50);
    assert_eq!(down.map(&DataPoint::Integer(150), (0, 200)), -100);
    let up = RangedDataPoint(DataPoint::Zero, DataPoint::Integer(100));
    let ticks = down.key_points(6);
    let same = up.key_points(6);
    assert_eq!(ticks.len(), 6);
    assert_eq!(ticks, same);
    assert_eq!(ticks[5], DataPoint::Integer(100));
}

#[test]
fn map_rises_with_the_value() {
    let span = RangedDataPoint(fixed(-3), DataPoint::Float(7 * ONE + 5));
    let mut last = i32::MIN;
    for step in -60..120 {
        let value = DataPoint::Float(step * ONE / 8);
        let pixel = span.map(&value, (-17, 1001));
        assert!(pixel >= last);
        last = pixel;
    }
    assert_eq!(span.map(&span.0, (-17, 1001)), -17);
    assert_eq!(span.map(&span.1, (-17, 1001)), 1001);
    assert_eq!(span.map(&span.0, (1001, -17)), 1001);
    assert_eq!(span.map(&span.1, (1001, -17)), -17);
    assert_eq!(span.map(&span.1, (i32::MIN, i32::MAX)), i32::MAX);
    assert_eq!(span.map(&span.0, (i32::MIN, i32::MAX)), i32::MIN);
    assert_eq!(span.map(&span.1, (i32::MAX, i32::MIN)), i32::MIN);
}

#[test]
fn ticks_of_a_span_one_bit_long() {
    // one bit is 2.33e-10: the finest step, 1e-10, hits at 3e-10 and 4e-10
    let span = RangedDataPoint(DataPoint::Float(1), DataPoint::Float(2));
    let ticks = span.key_points(5);
    assert_eq!(ticks.len(), 2);
    assert!(matches!(ticks[0], DataPoint::Float(1)));
    assert!(matches!(ticks[1], DataPoint::Float(2)));
    // the search stops at the finest step, whatever the budget
    let many = span.key_points(usize::MAX);
    assert_eq!(many.len(), 2);
}

#[test]
fn ticks_across_zero() {
    let span = RangedDataPoint(fixed(-1), fixed(1));
    let ticks = span.key_points(5);
    assert_eq!(ticks.len(), 5);
    let expected: [i64; 5] = [-ONE, -ONE / 2, 0, ONE / 2, ONE];
    for i in 0..5 {
        assert_eq!(ticks[i], DataPoint::Float(expected[i]));
    }
    assert!(matches!(ticks[2], DataPoint::Zero));
    assert!(matches!(ticks[0], DataPoint::Float(_)));
}
