//! What a chart of analytics data shows: the series, rescaled against a
//! benchmark where asked, and the axes around them.

pub use crate::series::normalize_data;

use crate::axis::RangedDataPoint;
use crate::data::{ArithmeticError, DataPoint, KpiType};
use crate::parse::{series_view, AnalyticsData, SeriesView};
use crate::range::{data_range, get_data_range};
use crate::series::normalized;
use crate::text::{decimal_text, has_prefix, push_decimal, same_text, starts_with};
use crate::time::Timestamp;
use std::ops::Range;
use vstd::prelude::*;
use vstd::string::StringExecFns;

verus! {

/// Why no chart can be drawn.
#[derive(Clone, Copy, Debug, PartialEq, Eq, Structural)]
pub enum PlottingError {
    /// No series is named as the analytics series.
    SeriesMissing,
    /// The output file has no extension to choose a drawing surface by.
    InvalidOutput,
    /// There is no point to draw.
    NoData,
    /// The values cannot be combined.
    Arithmetic(ArithmeticError),
}

impl PlottingError {
    /// The message for the user.
    pub open spec fn message_spec(self) -> Seq<char> {
        match self {
            PlottingError::SeriesMissing => "The analytics data series is missing!"@,
            PlottingError::InvalidOutput => "The provided output file path is invalid!"@,
            PlottingError::NoData => "The data series hold no points!"@,
            PlottingError::Arithmetic(_) => "The data points cannot be combined!"@,
        }
    }

    /// The message for the user.
    pub fn message(&self) -> (text: String)
        ensures
            text@ == self.message_spec(),
    {
        match self {
            PlottingError::SeriesMissing => "The analytics data series is missing!".to_owned(),
            PlottingError::InvalidOutput => "The provided output file path is invalid!".to_owned(),
            PlottingError::NoData => "The data series hold no points!".to_owned(),
            PlottingError::Arithmetic(_) => "The data points cannot be combined!".to_owned(),
        }
    }
}

/// The kind of surface that a chart is drawn on.
#[derive(Clone, Copy, Debug, PartialEq, Eq, Structural)]
pub enum Backend {
    Vector,
    Bitmap,
}

/// What a line of the chart stands for, which decides its colour and width.
#[derive(Clone, Copy, Debug, PartialEq, Eq, Structural)]
pub enum LineRole {
    /// The analytics series rescaled against the benchmark.
    Normalized,
    /// The analytics series as it is.
    Analytics,
    /// The benchmark series.
    Benchmark,
}

/// One line of the chart.
#[derive(Debug)]
pub struct PlotLine {
    pub role: LineRole,
    pub points: Vec<(Timestamp, DataPoint)>,
}

/// All that is decided about a chart before it is drawn.
#[derive(Debug)]
pub struct PlotPlan {
    pub backend: Backend,
    pub title: String,
    pub subtitle: Option<String>,
    pub caption: Option<String>,
    pub date_range: Range<Timestamp>,
    pub value_range: RangedDataPoint,
    pub lines: Vec<PlotLine>,
}

/// A plan with its texts and lines as sequences.
pub struct PlanView {
    pub backend: Backend,
    pub title: Seq<char>,
    pub subtitle: Option<Seq<char>>,
    pub caption: Option<Seq<char>>,
    pub date_range: Range<Timestamp>,
    pub value_range: RangedDataPoint,
    pub lines: Seq<(LineRole, Seq<(Timestamp, DataPoint)>)>,
}

impl View for PlotPlan {
    type V = PlanView;

    open spec fn view(&self) -> PlanView {
        PlanView {
            backend: self.backend,
            title: self.title@,
            subtitle: match self.subtitle {
                Some(text) => Some(text@),
                None => None,
            },
            caption: match self.caption {
                Some(text) => Some(text@),
                None => None,
            },
            date_range: self.date_range,
            value_range: self.value_range,
            lines: Seq::new(self.lines.len() as nat, |i: int| (self.lines[i].role, self.lines[i].points@)),
        }
    }
}

/// The place of the first series whose name begins with a prefix.
pub open spec fn find_prefixed(series: Seq<SeriesView>, prefix: Seq<char>) -> Option<int>
    decreases series.len(),
{
    if series.len() == 0 {
        None
    } else {
        match find_prefixed(series.drop_last(), prefix) {
            Some(at) => Some(at),
            None => if has_prefix(series.last().0, prefix) {
                Some(series.len() - 1)
            } else {
                None
            },
        }
    }
}

/// The surface for an output file with a given extension: a vector surface
/// for "svg", a bitmap for any other, none for a file without extension.
pub open spec fn backend_spec(extension: Option<Seq<char>>) -> Option<Backend> {
    match extension {
        None => None,
        Some(text) => if text == "svg"@ {
            Some(Backend::Vector)
        } else {
            Some(Backend::Bitmap)
        },
    }
}

/// The points of all series, one series after the other.
pub open spec fn flattened(series: Seq<SeriesView>) -> Seq<(Timestamp, DataPoint)>
    decreases series.len(),
{
    if series.len() == 0 {
        Seq::empty()
    } else {
        flattened(series.drop_last()) + series.last().1
    }
}

/// The title of a chart.
pub open spec fn title_spec(kind: KpiType, universe_id: u64) -> Seq<char> {
    kind.label_spec() + " for Experience ID "@ + decimal_text(universe_id as nat)
}

/// The line under the title, which names the benchmark series.
pub open spec fn subtitle_spec(normalize: bool, bench_name: Seq<char>) -> Seq<char> {
    if normalize {
        "Normalized over series \""@ + bench_name + "\""@
    } else {
        "Plotted with series \""@ + bench_name + "\""@
    }
}

/// The axes around the points to show, and the plan with them.
pub open spec fn plan_around(
    shown: Seq<(Timestamp, DataPoint)>,
    backend: Backend,
    title: Seq<char>,
    subtitle: Option<Seq<char>>,
    caption: Option<Seq<char>>,
    lines: Seq<(LineRole, Seq<(Timestamp, DataPoint)>)>,
) -> Result<PlanView, PlottingError> {
    if shown.len() == 0 {
        Err(PlottingError::NoData)
    } else {
        match data_range(shown) {
            Err(e) => Err(PlottingError::Arithmetic(e)),
            Ok(ranges) => Ok(
                PlanView {
                    backend,
                    title,
                    subtitle,
                    caption,
                    date_range: ranges.0,
                    value_range: ranges.1,
                    lines,
                },
            ),
        }
    }
}

/// What the chart of some analytics data shows. The analytics series is the
/// first whose name begins with "Total", the benchmark the first whose name
/// begins with "Benchmark". With a benchmark and `normalize`, the chart
/// holds the rescaled analytics series alone, and the axes span it; else it
/// holds the analytics series and the benchmark, if any, and the axes span
/// the points of all series.
pub open spec fn plot_spec(
    kind: KpiType,
    universe_id: u64,
    series: Seq<SeriesView>,
    normalize: bool,
    extension: Option<Seq<char>>,
) -> Result<PlanView, PlottingError> {
    match find_prefixed(series, "Total"@) {
        None => Err(PlottingError::SeriesMissing),
        Some(main) => match backend_spec(extension) {
            None => Err(PlottingError::InvalidOutput),
            Some(backend) => {
                let title = title_spec(kind, universe_id);
                match find_prefixed(series, "Benchmark"@) {
                    None => plan_around(
                        flattened(series),
                        backend,
                        title,
                        None,
                        None,
                        seq![(LineRole::Analytics, series[main].1)],
                    ),
                    Some(bench) => {
                        let subtitle = Some(subtitle_spec(normalize, series[bench].0));
                        let caption = Some(series[bench].0);
                        if normalize {
                            match normalized(series[main].1, series[bench].1) {
                                Err(e) => Err(PlottingError::Arithmetic(e)),
                                Ok(points) => plan_around(
                                    points,
                                    backend,
                                    title,
                                    subtitle,
                                    caption,
                                    seq![(LineRole::Normalized, points)],
                                ),
                            }
                        } else {
                            plan_around(
                                flattened(series),
                                backend,
                                title,
                                subtitle,
                                caption,
                                seq![
                                    (LineRole::Analytics, series[main].1),
                                    (LineRole::Benchmark, series[bench].1),
                                ],
                            )
                        }
                    },
                }
            },
        },
    }
}

/// A place found among the first series is the place found among all.
pub proof fn lemma_find_prefixed_prefix(series: Seq<SeriesView>, prefix: Seq<char>, k: int)
    requires
        0 <= k <= series.len(),
        find_prefixed(series.take(k), prefix) is Some,
    ensures
        find_prefixed(series, prefix) == find_prefixed(series.take(k), prefix),
    decreases series.len() - k,
{
    if k < series.len() {
        assert(series.take(k + 1).drop_last() =~= series.take(k));
        lemma_find_prefixed_prefix(series, prefix, k + 1);
    } else {
        assert(series.take(k) =~= series);
    }
}

/// Finds the first series whose name begins with a prefix.
pub fn find_series_by_prefix(data: &Vec<(String, Vec<(Timestamp, DataPoint)>)>, prefix: &str) -> (r:
    Option<usize>)
    ensures
        match r {
            Some(at) => find_prefixed(series_view(data@), prefix@) == Some(at as int) && at
                < data.len(),
            None => find_prefixed(series_view(data@), prefix@) is None,
        },
{
    let ghost series = series_view(data@);
    let mut i: usize = 0;
    assert(series.take(0) =~= Seq::empty());
    while i < data.len()
        invariant
            i <= data.len(),
            series == series_view(data@),
            find_prefixed(series.take(i as int), prefix@) is None,
        decreases data.len() - i,
    {
        assert(series.take(i + 1).drop_last() =~= series.take(i as int));
        if starts_with(data[i].0.as_str(), prefix) {
            proof {
                lemma_find_prefixed_prefix(series, prefix@, i + 1);
            }
            return Some(i);
        }
        i = i + 1;
    }
    assert(series.take(data.len() as int) =~= series);
    None
}

/// A copy of the points of a series.
pub fn copy_points(points: &Vec<(Timestamp, DataPoint)>) -> (copy: Vec<(Timestamp, DataPoint)>)
    ensures
        copy@ == points@,
{
    let mut copy: Vec<(Timestamp, DataPoint)> = Vec::new();
    let mut i: usize = 0;
    while i < points.len()
        invariant
            i <= points.len(),
            copy@ == points@.take(i as int),
        decreases points.len() - i,
    {
        copy.push(points[i]);
        assert(copy@ =~= points@.take(i + 1));
        i = i + 1;
    }
    assert(points@.take(points.len() as int) =~= points@);
    copy
}

/// The points of all series, one series after the other.
pub fn flatten(data: &Vec<(String, Vec<(Timestamp, DataPoint)>)>) -> (all: Vec<
    (Timestamp, DataPoint),
>)
    ensures
        all@ == flattened(series_view(data@)),
{
    let ghost series = series_view(data@);
    let mut all: Vec<(Timestamp, DataPoint)> = Vec::new();
    let mut i: usize = 0;
    assert(series.take(0) =~= Seq::empty());
    while i < data.len()
        invariant
            i <= data.len(),
            series == series_view(data@),
            all@ == flattened(series.take(i as int)),
        decreases data.len() - i,
    {
        let ghost before = all@;
        let mut j: usize = 0;
        while j < data[i].1.len()
            invariant
                i < data.len(),
                j <= data[i as int].1.len(),
                all@ == before + data[i as int].1@.take(j as int),
            decreases data[i as int].1.len() - j,
        {
            all.push(data[i].1[j]);
            assert(all@ =~= before + data[i as int].1@.take(j + 1));
            j = j + 1;
        }
        proof {
            assert(data[i as int].1@.take(data[i as int].1.len() as int) =~= data[i as int].1@);
            assert(series.take(i + 1).drop_last() =~= series.take(i as int));
            assert(series.take(i + 1).last().1 == data[i as int].1@);
        }
        i = i + 1;
    }
    assert(series.take(data.len() as int) =~= series);
    all
}

/// Chooses the drawing surface by the extension of the output file.
pub fn choose_backend(extension: Option<&str>) -> (r: Option<Backend>)
    ensures
        r == backend_spec(
            match extension {
                Some(text) => Some(text@),
                None => None,
            },
        ),
{
    match extension {
        None => None,
        Some(text) => if same_text(text, "svg") {
            Some(Backend::Vector)
        } else {
            Some(Backend::Bitmap)
        },
    }
}

/// Finds the axes around the points to show and completes the plan.
fn plan_with_axes(
    shown: &Vec<(Timestamp, DataPoint)>,
    backend: Backend,
    title: String,
    subtitle: Option<String>,
    caption: Option<String>,
    lines: Vec<PlotLine>,
) -> (r: Result<PlotPlan, PlottingError>)
    ensures
        match r {
            Ok(plan) => plan_around(
                shown@,
                backend,
                title@,
                match subtitle {
                    Some(text) => Some(text@),
                    None => None,
                },
                match caption {
                    Some(text) => Some(text@),
                    None => None,
                },
                Seq::new(lines.len() as nat, |i: int| (lines[i].role, lines[i].points@)),
            ) == Ok::<PlanView, PlottingError>(plan@),
            Err(e) => plan_around(
                shown@,
                backend,
                title@,
                match subtitle {
                    Some(text) => Some(text@),
                    None => None,
                },
                match caption {
                    Some(text) => Some(text@),
                    None => None,
                },
                Seq::new(lines.len() as nat, |i: int| (lines[i].role, lines[i].points@)),
            ) == Err::<PlanView, PlottingError>(e),
        },
{
    if shown.len() == 0 {
        return Err(PlottingError::NoData);
    }
    match get_data_range(shown) {
        Err(e) => Err(PlottingError::Arithmetic(e)),
        Ok(ranges) => Ok(
            PlotPlan {
                backend,
                title,
                subtitle,
                caption,
                date_range: ranges.0,
                value_range: ranges.1,
                lines,
            },
        ),
    }
}

/// Decides what the chart of some analytics data shows: which series, on
/// which axes, under which title, on which kind of surface.
pub fn plot_data(data: &AnalyticsData, normalize: bool, extension: Option<&str>) -> (r: Result<
    PlotPlan,
    PlottingError,
>)
    ensures
        match r {
            Ok(plan) => plot_spec(
                data.kpi_type,
                data.universe_id,
                series_view(data.data@),
                normalize,
                match extension {
                    Some(text) => Some(text@),
                    None => None,
                },
            ) == Ok::<PlanView, PlottingError>(plan@),
            Err(e) => plot_spec(
                data.kpi_type,
                data.universe_id,
                series_view(data.data@),
                normalize,
                match extension {
                    Some(text) => Some(text@),
                    None => None,
                },
            ) == Err::<PlanView, PlottingError>(e),
        },
{
    let ghost series = series_view(data.data@);
    let main: usize = match find_series_by_prefix(&data.data, "Total") {
        Some(at) => at,
        None => {
            return Err(PlottingError::SeriesMissing);
        },
    };
    let backend = match choose_backend(extension) {
        Some(backend) => backend,
        None => {
            return Err(PlottingError::InvalidOutput);
        },
    };
    let mut title = data.kpi_type.to_string();
    title.append(" for Experience ID ");
    push_decimal(&mut title, data.universe_id);
    let mut lines: Vec<PlotLine> = Vec::new();
    match find_series_by_prefix(&data.data, "Benchmark") {
        None => {
            let shown = flatten(&data.data);
            lines.push(PlotLine { role: LineRole::Analytics, points: copy_points(&data.data[main].1) });
            assert(Seq::new(lines.len() as nat, |i: int| (lines[i].role, lines[i].points@))
                =~= seq![(LineRole::Analytics, series[main as int].1)]);
            plan_with_axes(&shown, backend, title, None, None, lines)
        },
        Some(bench) => {
            let mut subtitle = if normalize {
                "Normalized over series \"".to_owned()
            } else {
                "Plotted with series \"".to_owned()
            };
            subtitle.append(data.data[bench].0.as_str());
            subtitle.append("\"");
            let caption = data.data[bench].0.clone();
            if normalize {
                let points = match normalize_data(
                    copy_points(&data.data[main].1),
                    copy_points(&data.data[bench].1),
                ) {
                    Ok(points) => points,
                    Err(e) => {
                        return Err(PlottingError::Arithmetic(e));
                    },
                };
                let shown = copy_points(&points);
                lines.push(PlotLine { role: LineRole::Normalized, points });
                assert(Seq::new(lines.len() as nat, |i: int| (lines[i].role, lines[i].points@))
                    =~= seq![(LineRole::Normalized, shown@)]);
                plan_with_axes(&shown, backend, title, Some(subtitle), Some(caption), lines)
            } else {
                let shown = flatten(&data.data);
                lines.push(
                    PlotLine { role: LineRole::Analytics, points: copy_points(&data.data[main].1) },
                );
                lines.push(
                    PlotLine { role: LineRole::Benchmark, points: copy_points(&data.data[bench].1) },
                );
                assert(Seq::new(lines.len() as nat, |i: int| (lines[i].role, lines[i].points@))
                    =~= seq![
                    (LineRole::Analytics, series[main as int].1),
                    (LineRole::Benchmark, series[bench as int].1),
                ]);
                plan_with_axes(&shown, backend, title, Some(subtitle), Some(caption), lines)
            }
        },
    }
}

} // verus!
