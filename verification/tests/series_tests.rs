use analytics_plot::data::{get_data_range, ArithmeticError, DataPoint, RangedDataPoint};
use analytics_plot::plot::normalize_data;
use analytics_plot::series::{find_at, rescale, sum_values};
use analytics_plot::time::Timestamp;

const ONE: i64 = 1 << 32;

fn at(secs: i64) -> Timestamp {
    Timestamp { secs, nanos: 0 }
}

fn same(a: DataPoint, b: DataPoint) -> bool {
    match (a, b) {
        (DataPoint::Zero, DataPoint::Zero) => true,
        (DataPoint::Float(x), DataPoint::Float(y)) => x == y,
        (DataPoint::Integer(x), DataPoint::Integer(y)) => x == y,
        _ => false,
    }
}

fn same_span(a: RangedDataPoint, lo: DataPoint, hi: DataPoint) -> bool {
    same(a.0, lo) && same(a.1, hi)
}

#[test]
fn range_of_two_counts_is_padded_by_a_tenth() {
    let data = vec![(at(100), DataPoint::Integer(10)), (at(200), DataPoint::Integer(20))];
    let (dates, values) = get_data_range(&data).unwrap();
    assert_eq!(dates, at(100)..at(200));
    assert!(same_span(values, DataPoint::Integer(9), DataPoint::Integer(21)));
}

#[test]
fn range_padding_below_is_cut_at_zero() {
    let data = vec![(at(5), DataPoint::Integer(1)), (at(3), DataPoint::Integer(100))];
    let (dates, values) = get_data_range(&data).unwrap();
    assert_eq!(dates, at(3)..at(5));
    // the length is 99, a tenth of it 9, but only 1 can be taken below
    assert!(same_span(values, DataPoint::Integer(0), DataPoint::Integer(109)));
}

#[test]
fn range_of_one_point_has_no_length() {
    let data = vec![(Timestamp { secs: 7, nanos: 9 }, DataPoint::Float(5 * ONE))];
    let (dates, values) = get_data_range(&data).unwrap();
    assert_eq!(dates.start, Timestamp { secs: 7, nanos: 9 });
    assert_eq!(dates.end, Timestamp { secs: 7, nanos: 9 });
    assert!(same_span(values, DataPoint::Float(5 * ONE), DataPoint::Float(5 * ONE)));
}

#[test]
fn range_of_measurements() {
    let data = vec![
        (Timestamp { secs: 1, nanos: 500 }, DataPoint::Float(20 * ONE)),
        (Timestamp { secs: 1, nanos: 499 }, DataPoint::Float(10 * ONE)),
        (Timestamp { secs: 1, nanos: 501 }, DataPoint::Float(15 * ONE)),
    ];
    let (dates, values) = get_data_range(&data).unwrap();
    assert_eq!(dates.start, Timestamp { secs: 1, nanos: 499 });
    assert_eq!(dates.end, Timestamp { secs: 1, nanos: 501 });
    assert!(same_span(values, DataPoint::Float(9 * ONE), DataPoint::Float(21 * ONE)));
}

#[test]
fn range_with_exact_zero_low() {
    let data = vec![(at(1), DataPoint::Zero), (at(2), DataPoint::Integer(50))];
    let (_, values) = get_data_range(&data).unwrap();
    assert!(same_span(values, DataPoint::Zero, DataPoint::Integer(55)));
}

#[test]
fn range_of_mixed_kinds_is_refused() {
    let data = vec![(at(1), DataPoint::Integer(1)), (at(2), DataPoint::Float(50 * ONE))];
    assert!(matches!(get_data_range(&data), Err(ArithmeticError::MismatchedKinds)));
}

#[test]
fn range_overflow_is_reported() {
    let data = vec![(at(1), DataPoint::Integer(0)), (at(2), DataPoint::Integer(u64::MAX))];
    assert!(matches!(get_data_range(&data), Err(ArithmeticError::Overflow)));
}

#[test]
fn normalize_against_the_mean_of_the_reference() {
    let t1 = at(1000);
    let t2 = at(2000);
    let bench = vec![(t1, DataPoint::Integer(10)), (t2, DataPoint::Integer(30))];
    let data = vec![(t1, DataPoint::Integer(5)), (t2, DataPoint::Integer(5))];
    let out = normalize_data(data, bench).unwrap();
    assert_eq!(out.len(), 2);
    assert_eq!(out[0].0, t1);
    assert!(same(out[0].1, DataPoint::Float(10 * ONE)));
    assert_eq!(out[1].0, t2);
    // 5 * 40 / (2 * 30) = 3.3333.. to the nearest 2^-32
    assert!(same(out[1].1, DataPoint::Float(14316557653)));
}

#[test]
fn normalize_follows_the_order_of_the_reference() {
    let bench = vec![
        (at(3), DataPoint::Float(2 * ONE)),
        (at(1), DataPoint::Float(4 * ONE)),
        (at(2), DataPoint::Float(6 * ONE)),
    ];
    let data = vec![
        (at(1), DataPoint::Float(ONE)),
        (at(2), DataPoint::Float(ONE)),
        (at(3), DataPoint::Float(ONE)),
    ];
    let out = normalize_data(data, bench).unwrap();
    let order: Vec<i64> = out.iter().map(|p| p.0.secs).collect();
    assert_eq!(order, vec![3, 1, 2]);
    assert!(same(out[0].1, DataPoint::Float(2 * ONE)));
    assert!(same(out[1].1, DataPoint::Float(ONE)));
    assert!(same(out[2].1, DataPoint::Float(2863311531)));
}

#[test]
fn normalize_drops_instants_without_data() {
    let bench = vec![(at(1), DataPoint::Integer(10)), (at(2), DataPoint::Integer(30))];
    let data = vec![(Timestamp { secs: 2, nanos: 1 }, DataPoint::Integer(5)), (at(1), DataPoint::Integer(4))];
    let out = normalize_data(data, bench).unwrap();
    assert_eq!(out.len(), 1);
    assert_eq!(out[0].0, at(1));
    assert!(same(out[0].1, DataPoint::Float(8 * ONE)));
}

#[test]
fn normalize_skips_reference_points_of_size_zero() {
    let bench = vec![
        (at(1), DataPoint::Zero),
        (at(2), DataPoint::Integer(0)),
        (at(3), DataPoint::Integer(30)),
    ];
    let data = vec![
        (at(1), DataPoint::Integer(5)),
        (at(2), DataPoint::Integer(5)),
        (at(3), DataPoint::Integer(6)),
    ];
    let out = normalize_data(data, bench).unwrap();
    assert_eq!(out.len(), 1);
    assert_eq!(out[0].0, at(3));
    // the mean is 10; 6 * 10 / 30 = 2
    assert!(same(out[0].1, DataPoint::Float(2 * ONE)));
}

#[test]
fn normalize_with_empty_reference_is_empty() {
    let data = vec![(at(1), DataPoint::Integer(5))];
    assert!(normalize_data(data, vec![]).unwrap().is_empty());
    let bench = vec![(at(1), DataPoint::Integer(5))];
    assert!(normalize_data(vec![], bench).unwrap().is_empty());
}

#[test]
fn normalize_takes_the_first_point_at_an_instant() {
    let bench = vec![(at(1), DataPoint::Integer(2))];
    let data = vec![(at(1), DataPoint::Integer(3)), (at(1), DataPoint::Integer(9))];
    let out = normalize_data(data, bench).unwrap();
    assert_eq!(out.len(), 1);
    assert!(same(out[0].1, DataPoint::Float(3 * ONE)));
}

#[test]
fn normalize_of_nothing_is_exact_zero() {
    let bench = vec![(at(1), DataPoint::Integer(2))];
    let data = vec![(at(1), DataPoint::Float(0))];
    let out = normalize_data(data, bench).unwrap();
    assert!(matches!(out[0].1, DataPoint::Zero));
}

#[test]
fn normalize_reports_what_does_not_fit() {
    let bench = vec![(at(1), DataPoint::Integer(1)), (at(2), DataPoint::Integer(3))];
    let data = vec![(at(1), DataPoint::Integer(1 << 31))];
    assert!(matches!(normalize_data(data, bench), Err(ArithmeticError::Overflow)));
    let mixed = vec![(at(1), DataPoint::Integer(1)), (at(2), DataPoint::Float(3))];
    assert!(matches!(
        normalize_data(vec![], mixed),
        Err(ArithmeticError::MismatchedKinds)
    ));
    let huge = vec![(at(1), DataPoint::Integer(u64::MAX)), (at(2), DataPoint::Integer(1))];
    assert!(matches!(normalize_data(vec![], huge), Err(ArithmeticError::Overflow)));
}

#[test]
fn rescale_rounds_to_the_nearest() {
    // 1 * 1 / (2 * 1) bits: exactly half a bit rounds away from zero
    let half = rescale(DataPoint::Float(1), DataPoint::Float(1), 2, DataPoint::Float(1)).unwrap();
    assert!(same(half, DataPoint::Float(1)));
    let neg = rescale(DataPoint::Float(-1), DataPoint::Float(1), 2, DataPoint::Float(1)).unwrap();
    assert!(same(neg, DataPoint::Float(-1)));
    let third = rescale(DataPoint::Float(1), DataPoint::Float(1), 3, DataPoint::Float(1)).unwrap();
    assert!(same(third, DataPoint::Float(0)));
    let signs = rescale(DataPoint::Float(-6), DataPoint::Float(-2), 1, DataPoint::Float(-3)).unwrap();
    assert!(same(signs, DataPoint::Float(-4)));
    let lowest = rescale(
        DataPoint::Float(i64::MIN),
        DataPoint::Integer(7),
        1,
        DataPoint::Integer(7),
    )
    .unwrap();
    assert!(same(lowest, DataPoint::Float(i64::MIN)));
    // seven sixths of the lowest measurement lie below the range
    let beyond = rescale(
        DataPoint::Float(i64::MIN),
        DataPoint::Integer(7),
        1,
        DataPoint::Integer(6),
    );
    assert!(matches!(beyond, Err(ArithmeticError::Overflow)));
    let big = rescale(
        DataPoint::Integer(u64::MAX),
        DataPoint::Integer(1),
        usize::MAX,
        DataPoint::Integer(u64::MAX),
    )
    .unwrap();
    // 2^32 / (2^64 - 1) of a bit rounds to nothing
    assert!(same(big, DataPoint::Float(0)));
}

#[test]
fn sum_and_lookup() {
    let series = vec![(at(1), DataPoint::Integer(10)), (at(2), DataPoint::Zero), (at(3), DataPoint::Integer(5))];
    assert!(same(sum_values(&series).unwrap(), DataPoint::Integer(15)));
    assert!(matches!(sum_values(&vec![]).unwrap(), DataPoint::Zero));
    assert!(same(find_at(&series, at(3)).unwrap(), DataPoint::Integer(5)));
    assert!(find_at(&series, at(4)).is_none());
}
