use analytics_plot::data::{ArithmeticError, DataPoint, KpiType};
use analytics_plot::parse::AnalyticsData;
use analytics_plot::plot::{
    choose_backend, copy_points, find_series_by_prefix, flatten, plot_data, Backend, LineRole,
    PlottingError,
};
use analytics_plot::time::Timestamp;

const ONE: i64 = 1 << 32;

fn at(secs: i64) -> Timestamp {
    Timestamp { secs, nanos: 0 }
}

fn same(a: DataPoint, b: DataPoint) -> bool {
    match (a, b) {
        (DataPoint::Zero, DataPoint::Zero) => true,
        (DataPoint::Float(x), DataPoint::Float(y)) => x == y,
        (DataPoint::Integer(x), DataPoint::Integer(y)) => x == y,
        _ => false,
    }
}

fn sample(with_bench: bool) -> AnalyticsData {
    let mut data = vec![
        ("Other".to_string(), vec![(at(50), DataPoint::Integer(1000))]),
        (
            "Total users".to_string(),
            vec![(at(100), DataPoint::Integer(5)), (at(200), DataPoint::Integer(5))],
        ),
    ];
    if with_bench {
        data.push((
            "Benchmark 90th".to_string(),
            vec![(at(100), DataPoint::Integer(10)), (at(200), DataPoint::Integer(30))],
        ));
    }
    AnalyticsData { kpi_type: KpiType::Visits, universe_id: 4321, data }
}

#[test]
fn plan_without_benchmark() {
    let plan = plot_data(&sample(false), true, Some("png")).unwrap();
    assert_eq!(plan.backend, Backend::Bitmap);
    assert_eq!(plan.title, "Sessions for Experience ID 4321");
    assert!(plan.subtitle.is_none());
    assert!(plan.caption.is_none());
    assert_eq!(plan.lines.len(), 1);
    assert_eq!(plan.lines[0].role, LineRole::Analytics);
    assert_eq!(plan.lines[0].points.len(), 2);
    assert_eq!(plan.date_range, at(50)..at(200));
    // all series count for the axes: 5 to 1000, padded by 99, cut at 5 below
    assert!(same(plan.value_range.0, DataPoint::Integer(0)));
    assert!(same(plan.value_range.1, DataPoint::Integer(1099)));
}

#[test]
fn plan_with_benchmark_side_by_side() {
    let plan = plot_data(&sample(true), false, Some("svg")).unwrap();
    assert_eq!(plan.backend, Backend::Vector);
    assert_eq!(plan.subtitle.as_deref(), Some("Plotted with series \"Benchmark 90th\""));
    assert_eq!(plan.caption.as_deref(), Some("Benchmark 90th"));
    assert_eq!(plan.lines.len(), 2);
    assert_eq!(plan.lines[0].role, LineRole::Analytics);
    assert_eq!(plan.lines[1].role, LineRole::Benchmark);
    assert!(same(plan.lines[1].points[1].1, DataPoint::Integer(30)));
    assert_eq!(plan.date_range, at(50)..at(200));
}

#[test]
fn plan_with_normalized_series() {
    let plan = plot_data(&sample(true), true, Some("jpeg")).unwrap();
    assert_eq!(plan.backend, Backend::Bitmap);
    assert_eq!(plan.subtitle.as_deref(), Some("Normalized over series \"Benchmark 90th\""));
    assert_eq!(plan.lines.len(), 1);
    assert_eq!(plan.lines[0].role, LineRole::Normalized);
    let points = &plan.lines[0].points;
    assert_eq!(points.len(), 2);
    assert!(same(points[0].1, DataPoint::Float(10 * ONE)));
    assert!(same(points[1].1, DataPoint::Float(14316557653)));
    assert_eq!(plan.date_range, at(100)..at(200));
    // from 3.33.. to 10, padded by a tenth of the length
    let length: i64 = 10 * ONE - 14316557653;
    let pad = length / 10;
    assert!(same(plan.value_range.0, DataPoint::Float(14316557653 - pad)));
    assert!(same(plan.value_range.1, DataPoint::Float(10 * ONE + pad)));
}

#[test]
fn plan_faults() {
    let mut none = sample(true);
    none.data.remove(1);
    assert_eq!(plot_data(&none, false, Some("png")).unwrap_err(), PlottingError::SeriesMissing);
    assert_eq!(plot_data(&none, false, None).unwrap_err(), PlottingError::SeriesMissing);
    assert_eq!(plot_data(&sample(true), false, None).unwrap_err(), PlottingError::InvalidOutput);
    let mut apart = sample(true);
    apart.data[2].1 = vec![(at(7), DataPoint::Integer(10))];
    assert_eq!(plot_data(&apart, true, Some("png")).unwrap_err(), PlottingError::NoData);
    let mut mixed = sample(true);
    mixed.data[2].1[0].1 = DataPoint::Float(ONE);
    assert_eq!(
        plot_data(&mixed, true, Some("png")).unwrap_err(),
        PlottingError::Arithmetic(ArithmeticError::MismatchedKinds)
    );
    let empty = AnalyticsData {
        kpi_type: KpiType::Visits,
        universe_id: 1,
        data: vec![("Total".to_string(), vec![])],
    };
    assert_eq!(plot_data(&empty, false, Some("png")).unwrap_err(), PlottingError::NoData);
}

#[test]
fn first_series_with_the_prefix_is_taken() {
    let data = vec![
        ("Totals".to_string(), vec![(at(1), DataPoint::Integer(1))]),
        ("Total".to_string(), vec![(at(2), DataPoint::Integer(2))]),
        ("total".to_string(), vec![]),
        ("Tot".to_string(), vec![]),
    ];
    assert_eq!(find_series_by_prefix(&data, "Total"), Some(0));
    assert_eq!(find_series_by_prefix(&data, "Total "), None);
    assert_eq!(find_series_by_prefix(&data, "to"), Some(2));
    assert_eq!(find_series_by_prefix(&data, ""), Some(0));
    assert_eq!(find_series_by_prefix(&data, "Benchmark"), None);
    let all = flatten(&data);
    assert_eq!(all.len(), 2);
    assert_eq!(all[1].0, at(2));
    assert_eq!(copy_points(&all).len(), 2);
}

#[test]
fn backend_goes_by_extension() {
    assert_eq!(choose_backend(Some("svg")), Some(Backend::Vector));
    assert_eq!(choose_backend(Some("SVG")), Some(Backend::Bitmap));
    assert_eq!(choose_backend(Some("png")), Some(Backend::Bitmap));
    assert_eq!(choose_backend(Some("")), Some(Backend::Bitmap));
    assert_eq!(choose_backend(None), None);
}

#[test]
fn plotting_errors_have_messages() {
    assert_eq!(PlottingError::SeriesMissing.message(), "The analytics data series is missing!");
    assert_eq!(
        PlottingError::InvalidOutput.message(),
        "The provided output file path is invalid!"
    );
}
