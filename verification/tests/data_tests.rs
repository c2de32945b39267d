use analytics_plot::data::{
    ArithmeticError, DataParsingError, DataPoint, KpiParseError, KpiType, RangedDataPoint,
};

const ONE: i64 = 1 << 32;

fn is_zero(v: &DataPoint) -> bool {
    matches!(v, DataPoint::Zero)
}

fn same(a: DataPoint, b: DataPoint) -> bool {
    match (a, b) {
        (DataPoint::Zero, DataPoint::Zero) => true,
        (DataPoint::Float(x), DataPoint::Float(y)) => x == y,
        (DataPoint::Integer(x), DataPoint::Integer(y)) => x == y,
        _ => false,
    }
}

fn samples() -> Vec<DataPoint> {
    vec![
        DataPoint::Zero,
        DataPoint::Integer(0),
        DataPoint::Integer(7),
        DataPoint::Integer(u64::MAX),
        DataPoint::Float(0),
        DataPoint::Float(3 * ONE / 2),
        DataPoint::Float(-5 * ONE),
        DataPoint::Float(i64::MIN),
        DataPoint::Float(i64::MAX),
    ]
}

#[test]
fn zero_is_neutral_for_addition() {
    for a in samples() {
        assert!(same(a.add(DataPoint::Zero).unwrap(), a));
        assert!(same(DataPoint::Zero.add(a).unwrap(), a));
    }
}

#[test]
fn zero_absorbs_in_multiplication() {
    for a in samples() {
        assert!(is_zero(&a.mul(DataPoint::Zero).unwrap()));
        assert!(is_zero(&DataPoint::Zero.mul(a).unwrap()));
    }
}

#[test]
fn zero_is_neutral_for_subtraction_on_either_side() {
    for a in samples() {
        assert!(same(a.sub(DataPoint::Zero).unwrap(), a));
        assert!(same(DataPoint::Zero.sub(a).unwrap(), a));
    }
}

#[test]
fn arithmetic_on_counts() {
    let a = DataPoint::Integer(20);
    let b = DataPoint::Integer(6);
    assert!(same(a.add(b).unwrap(), DataPoint::Integer(26)));
    assert!(same(a.sub(b).unwrap(), DataPoint::Integer(14)));
    assert!(same(a.mul(b).unwrap(), DataPoint::Integer(120)));
    assert!(same(a.div(6).unwrap(), DataPoint::Integer(3)));
    assert!(same(DataPoint::Integer(7).div(2).unwrap(), DataPoint::Integer(3)));
}

#[test]
fn arithmetic_on_measurements() {
    let a = DataPoint::Float(3 * ONE / 2);
    let b = DataPoint::Float(5 * ONE / 2);
    assert!(same(a.add(b).unwrap(), DataPoint::Float(4 * ONE)));
    assert!(same(a.sub(b).unwrap(), DataPoint::Float(-ONE)));
    assert!(same(a.mul(b).unwrap(), DataPoint::Float(15 * ONE / 4)));
    assert!(same(b.div(2).unwrap(), DataPoint::Float(5 * ONE / 4)));
    assert!(same(a.sub(a).unwrap(), DataPoint::Float(0)));
}

#[test]
fn product_of_measurements_rounds_down() {
    assert!(same(DataPoint::Float(1).mul(DataPoint::Float(1)).unwrap(), DataPoint::Float(0)));
    assert!(same(DataPoint::Float(-1).mul(DataPoint::Float(1)).unwrap(), DataPoint::Float(-1)));
    assert!(same(
        DataPoint::Float(ONE + 1).mul(DataPoint::Float(ONE + 1)).unwrap(),
        DataPoint::Float(ONE + 2)
    ));
}

#[test]
fn quotient_of_measurement_rounds_toward_zero() {
    assert!(same(DataPoint::Float(-7).div(2).unwrap(), DataPoint::Float(-3)));
    assert!(same(DataPoint::Float(7).div(2).unwrap(), DataPoint::Float(3)));
    assert!(same(DataPoint::Float(i64::MIN).div(1).unwrap(), DataPoint::Float(i64::MIN)));
}

#[test]
fn mixed_kinds_are_refused() {
    let count = DataPoint::Integer(1);
    let measure = DataPoint::Float(ONE);
    assert_eq!(count.add(measure), Err(ArithmeticError::MismatchedKinds));
    assert_eq!(measure.add(count), Err(ArithmeticError::MismatchedKinds));
    assert_eq!(count.sub(measure), Err(ArithmeticError::MismatchedKinds));
    assert_eq!(measure.sub(count), Err(ArithmeticError::MismatchedKinds));
    assert_eq!(count.mul(measure), Err(ArithmeticError::MismatchedKinds));
    assert_eq!(measure.mul(count), Err(ArithmeticError::MismatchedKinds));
}

#[test]
fn overflow_is_reported() {
    let top = DataPoint::Integer(u64::MAX);
    assert_eq!(top.add(DataPoint::Integer(1)), Err(ArithmeticError::Overflow));
    assert_eq!(DataPoint::Integer(1).sub(DataPoint::Integer(2)), Err(ArithmeticError::Overflow));
    assert_eq!(top.mul(DataPoint::Integer(2)), Err(ArithmeticError::Overflow));
    let high = DataPoint::Float(i64::MAX);
    let low = DataPoint::Float(i64::MIN);
    assert_eq!(high.add(DataPoint::Float(1)), Err(ArithmeticError::Overflow));
    assert_eq!(low.sub(DataPoint::Float(1)), Err(ArithmeticError::Overflow));
    assert_eq!(high.mul(DataPoint::Float(2 * ONE)), Err(ArithmeticError::Overflow));
    assert!(same(high.mul(DataPoint::Float(ONE)).unwrap(), high));
    assert!(same(low.mul(DataPoint::Float(ONE)).unwrap(), low));
    assert_eq!(low.mul(DataPoint::Float(-ONE)), Err(ArithmeticError::Overflow));
}

#[test]
fn division_by_zero_is_reported() {
    assert_eq!(DataPoint::Integer(4).div(0), Err(ArithmeticError::DivisionByZero));
    assert_eq!(DataPoint::Float(4).div(0), Err(ArithmeticError::DivisionByZero));
    assert!(is_zero(&DataPoint::Zero.div(0).unwrap()));
    assert!(is_zero(&DataPoint::Zero.div(3).unwrap()));
}

#[test]
fn equality_goes_by_size() {
    assert_eq!(DataPoint::Zero, DataPoint::Integer(0));
    assert_eq!(DataPoint::Zero, DataPoint::Float(0));
    assert_eq!(DataPoint::Integer(5), DataPoint::Float(5 * ONE));
    assert_ne!(DataPoint::Integer(5), DataPoint::Float(5 * ONE + 1));
    assert_ne!(DataPoint::Integer(1), DataPoint::Float(1));
}

#[test]
fn order_goes_by_size() {
    assert!(DataPoint::Float(-1) < DataPoint::Zero);
    assert!(DataPoint::Zero < DataPoint::Integer(1));
    assert!(DataPoint::Float(ONE / 2) < DataPoint::Integer(1));
    assert!(!(DataPoint::Integer(1) < DataPoint::Float(ONE)));
    assert!(DataPoint::Integer(1) <= DataPoint::Float(ONE));
    assert!(DataPoint::Integer(1) >= DataPoint::Float(ONE));
    assert!(DataPoint::Integer(u64::MAX) > DataPoint::Float(i64::MAX));
    assert_eq!(
        DataPoint::Zero.partial_cmp(&DataPoint::Float(0)),
        Some(std::cmp::Ordering::Equal)
    );
    assert_eq!(
        DataPoint::Integer(2).partial_cmp(&DataPoint::Float(ONE)),
        Some(std::cmp::Ordering::Greater)
    );
    assert!(DataPoint::Integer(u64::MAX).scaled() == (u64::MAX as i128) << 32);
    assert!(same(DataPoint::Integer(3).min(DataPoint::Integer(2)), DataPoint::Integer(2)));
    assert!(same(DataPoint::Integer(0).min(DataPoint::Zero), DataPoint::Integer(0)));
    assert!(same(DataPoint::Zero.min(DataPoint::Integer(0)), DataPoint::Zero));
}

#[test]
fn whole_part_for_labels() {
    assert_eq!(DataPoint::Zero.to_u64(), Some(0));
    assert_eq!(DataPoint::Integer(12).to_u64(), Some(12));
    assert_eq!(DataPoint::Float(5 * ONE / 2).to_u64(), Some(2));
    assert_eq!(DataPoint::Float(ONE - 1).to_u64(), Some(0));
    assert_eq!(DataPoint::Float(-1).to_u64(), None);
    assert_eq!(DataPoint::Float(i64::MAX).to_u64(), Some((1 << 31) - 1));
}

#[test]
fn fixed_bits_of_values() {
    assert_eq!(DataPoint::Integer(3).to_fixed_bits(), Some(3 * ONE));
    assert_eq!(DataPoint::Integer((1 << 31) - 1).to_fixed_bits(), Some(((1i64 << 31) - 1) * ONE));
    assert_eq!(DataPoint::Integer(1 << 31).to_fixed_bits(), None);
    assert_eq!(DataPoint::Float(-9).to_fixed_bits(), Some(-9));
    assert_eq!(DataPoint::Zero.to_fixed_bits(), Some(0));
    assert!(is_zero(&DataPoint::from_fixed_bits(0)));
    assert!(same(DataPoint::from_fixed_bits(4), DataPoint::Float(4)));
    assert!(same(DataPoint::from(9u64), DataPoint::Integer(9)));
}

#[test]
fn parse_zero_text_is_exact_zero() {
    assert!(is_zero(&DataPoint::from_str("0").unwrap()));
}

#[test]
fn parse_counts() {
    assert!(same(DataPoint::from_str("12").unwrap(), DataPoint::Integer(12)));
    assert!(same(DataPoint::from_str("00").unwrap(), DataPoint::Integer(0)));
    assert!(same(DataPoint::from_str("007").unwrap(), DataPoint::Integer(7)));
    assert!(same(
        DataPoint::from_str("18446744073709551615").unwrap(),
        DataPoint::Integer(u64::MAX)
    ));
    assert_eq!(DataPoint::from_str("18446744073709551616"), Err(DataParsingError::CannotParse));
    assert_eq!(DataPoint::from_str(""), Err(DataParsingError::CannotParse));
}

#[test]
fn parse_measurements() {
    assert!(same(DataPoint::from_str("1.5").unwrap(), DataPoint::Float(3 * ONE / 2)));
    assert!(same(DataPoint::from_str("-0.25").unwrap(), DataPoint::Float(-ONE / 4)));
    assert!(same(DataPoint::from_str("0.1").unwrap(), DataPoint::Float(429496730)));
    assert!(same(DataPoint::from_str("0.0").unwrap(), DataPoint::Float(0)));
    assert!(same(DataPoint::from_str("+3").unwrap(), DataPoint::Float(3 * ONE)));
    assert!(same(DataPoint::from_str("-3").unwrap(), DataPoint::Float(-3 * ONE)));
}

#[test]
fn parse_rejects_other_text() {
    for text in ["abc", "1.2.3", " 1", "1 ", "--1", ".", "\u{0663}", "4294967296.5"] {
        assert_eq!(DataPoint::from_str(text), Err(DataParsingError::CannotParse), "{:?}", text);
    }
}

#[test]
fn parse_from_parts_follows_the_reader() {
    assert!(same(DataPoint::from_parts("1.5", Some(77)).unwrap(), DataPoint::Float(77)));
    assert_eq!(DataPoint::from_parts("1.5", None), Err(DataParsingError::CannotParse));
    assert!(is_zero(&DataPoint::from_parts("0", Some(77)).unwrap()));
    assert!(is_zero(&DataPoint::from_parts("0", None).unwrap()));
    assert!(same(DataPoint::from_parts("15", None).unwrap(), DataPoint::Integer(15)));
    assert!(same(DataPoint::from_parts("15", Some(1)).unwrap(), DataPoint::Integer(15)));
    assert_eq!(
        DataPoint::from_parts("99999999999999999999", Some(1)),
        Err(DataParsingError::CannotParse)
    );
}

#[test]
fn labels_of_counts_read_back() {
    for n in [0u64, 1, 9, 10, 11, 99, 100, 12345, 1 << 32, u64::MAX - 1, u64::MAX] {
        let text = DataPoint::Integer(n).label();
        assert_eq!(text, n.to_string());
        let back = DataPoint::from_str(&text).unwrap();
        assert_eq!(back, DataPoint::Integer(n));
        if n > 0 {
            assert!(same(back, DataPoint::Integer(n)));
        } else {
            assert!(is_zero(&back));
        }
    }
}

#[test]
fn labels_of_measurements() {
    let cases: [(i64, &str); 14] = [
        (858993459, "0.2"),
        (3 * ONE, "3.0"),
        (3 * ONE / 2, "1.5"),
        (-7 * ONE / 4, "-1.75"),
        (1, "0.0"),
        (-1, "0.0"),
        (0, "0.0"),
        (530242871, "0.12346"),
        (4294950116, "1.0"),
        (i64::MIN, "-2147483648.0"),
        (i64::MAX, "2147483648.0"),
        (ONE / 100000 + 1, "0.00001"),
        (10 * ONE + ONE / 2, "10.5"),
        (-(ONE / 8), "-0.125"),
    ];
    for (bits, text) in cases {
        assert_eq!(DataPoint::Float(bits).label(), text, "bits {}", bits);
        assert_eq!(RangedDataPoint::format(&DataPoint::Float(bits)), text);
    }
    assert_eq!(DataPoint::Zero.label(), "0");
    assert_eq!(RangedDataPoint::format(&DataPoint::Integer(42)), "42");
}

#[test]
fn parsing_error_has_a_message() {
    assert_eq!(
        DataParsingError::CannotParse.message(),
        "The provided string failed to parse as a data point!"
    );
}

#[test]
fn kpi_names_read_back() {
    let all = [
        (KpiType::DailyActiveUsers, "Daily Active Users"),
        (KpiType::MonthlyActiveUsers, "Monthly Active Users"),
        (KpiType::Visits, "Sessions"),
        (KpiType::TotalPlayTimeHours, "Playtime"),
        (KpiType::DailyRevenue, "Daily Revenue"),
        (KpiType::PayingUsers, "Paying Users"),
    ];
    for (kind, name) in all {
        assert_eq!(kind.to_string(), name);
        assert_eq!(KpiType::from_str(name), Ok(kind));
    }
    for other in ["DailyActiveUsers", "daily active users", "", "Visits", "Sessions "] {
        assert_eq!(KpiType::from_str(other), Err(KpiParseError::VariantNotFound));
    }
}
