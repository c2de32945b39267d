//! Benchmarks of an experience against its peers: the request for them and
//! the reading of the answer.

use crate::data::{DataPoint, KpiParseError};
use crate::parse::TIMESTAMP_FORMAT;
use crate::text::{
    all_digits, chars_of, decimal_text, decimal_value, digits_value, is_digit, push_decimal,
    same_text,
};
use crate::time::{format_instant, formatted_instant, parse_instant, parsed_instant, Timestamp};
use vstd::prelude::*;
use vstd::string::StringExecFns;

verus! {

/// The kind of performance indicator that has benchmarks.
#[derive(Clone, Copy, Debug, PartialEq, Eq, Structural)]
pub enum KpiType {
    DailyActiveUsers,
    MonthlyActiveUsers,
    Visits,
    TotalPlayTimeHours,
}

impl KpiType {
    /// The name of the indicator as requests write it.
    pub open spec fn label_spec(self) -> Seq<char> {
        match self {
            KpiType::DailyActiveUsers => "DailyActiveUsers"@,
            KpiType::MonthlyActiveUsers => "MonthlyActiveUsers"@,
            KpiType::Visits => "Visits"@,
            KpiType::TotalPlayTimeHours => "TotalPlayTimeHours"@,
        }
    }

    /// The indicator that a text names, letter for letter.
    pub open spec fn named_by(text: Seq<char>) -> Option<KpiType> {
        if text == "DailyActiveUsers"@ {
            Some(KpiType::DailyActiveUsers)
        } else if text == "MonthlyActiveUsers"@ {
            Some(KpiType::MonthlyActiveUsers)
        } else if text == "Visits"@ {
            Some(KpiType::Visits)
        } else if text == "TotalPlayTimeHours"@ {
            Some(KpiType::TotalPlayTimeHours)
        } else {
            None
        }
    }

    /// The name of the indicator.
    pub fn to_string(&self) -> (text: String)
        ensures
            text@ == self.label_spec(),
    {
        match self {
            KpiType::DailyActiveUsers => "DailyActiveUsers".to_owned(),
            KpiType::MonthlyActiveUsers => "MonthlyActiveUsers".to_owned(),
            KpiType::Visits => "Visits".to_owned(),
            KpiType::TotalPlayTimeHours => "TotalPlayTimeHours".to_owned(),
        }
    }

    /// The indicator that a text names.
    pub fn from_str(text: &str) -> (r: Result<KpiType, KpiParseError>)
        ensures
            r == match KpiType::named_by(text@) {
                Some(kind) => Ok::<KpiType, KpiParseError>(kind),
                None => Err::<KpiType, KpiParseError>(KpiParseError::VariantNotFound),
            },
    {
        if same_text(text, "DailyActiveUsers") {
            Ok(KpiType::DailyActiveUsers)
        } else if same_text(text, "MonthlyActiveUsers") {
            Ok(KpiType::MonthlyActiveUsers)
        } else if same_text(text, "Visits") {
            Ok(KpiType::Visits)
        } else if same_text(text, "TotalPlayTimeHours") {
            Ok(KpiType::TotalPlayTimeHours)
        } else {
            Err(KpiParseError::VariantNotFound)
        }
    }
}

/// The name of every indicator reads back as that indicator.
pub proof fn lemma_kpi_name_reads_back(kind: KpiType)
    ensures
        KpiType::named_by(kind.label_spec()) == Some(kind),
{
    reveal_strlit("DailyActiveUsers");
    reveal_strlit("MonthlyActiveUsers");
    reveal_strlit("Visits");
    reveal_strlit("TotalPlayTimeHours");
    assert("DailyActiveUsers"@.len() == 16);
    assert("MonthlyActiveUsers"@.len() == 18);
    assert("Visits"@.len() == 6);
    assert("TotalPlayTimeHours"@.len() == 18);
    assert("MonthlyActiveUsers"@[0] == 'M');
    assert("TotalPlayTimeHours"@[0] == 'T');
}

/// The benchmark of one experience.
#[derive(Clone, Debug)]
pub struct Benchmark {
    pub benchmark_percentile: u64,
    pub universe_kpi_percentile: Option<u64>,
    pub data: Vec<(Timestamp, DataPoint)>,
}

/// `reqwest::Error`: the failure of a request, carried through unread.
#[verifier::external_type_specification]
#[verifier::external_body]
pub struct ExReqwestError(reqwest::Error);

/// Why no benchmark was had.
#[derive(Debug)]
pub enum AnalyticsFetchError {
    /// The request failed.
    Reqwest { source: reqwest::Error },
    /// The answer is not that of a benchmark.
    InvalidResponse,
    /// There is no cookie to sign the request with.
    Cookie,
}

impl AnalyticsFetchError {
    /// The message for the user; for a failed request that is left to the
    /// failure itself.
    pub fn message(&self) -> (text: Option<String>)
        ensures
            match self {
                AnalyticsFetchError::Reqwest { .. } => text is None,
                AnalyticsFetchError::InvalidResponse => text is Some && text->Some_0@
                    == "Roblox API returned an invalid response!"@,
                AnalyticsFetchError::Cookie => text is Some && text->Some_0@
                    == "Failed to fetch .ROBLOSECURITY cookie!"@,
            },
    {
        match self {
            AnalyticsFetchError::Reqwest { .. } => None,
            AnalyticsFetchError::InvalidResponse => Some(
                "Roblox API returned an invalid response!".to_owned(),
            ),
            AnalyticsFetchError::Cookie => Some("Failed to fetch .ROBLOSECURITY cookie!".to_owned()),
        }
    }
}

/// The address of a request for benchmarks, given the texts of the two
/// instants that bound it.
pub open spec fn url_spec(universe_id: u64, kind: KpiType, start: Seq<char>, end: Seq<char>) -> Seq<
    char,
> {
    "https://apis.roblox.com/developer-analytics-aggregations/v2/get-benchmarks?universeId="@
        + decimal_text(universe_id as nat) + "&kpiType="@ + kind.label_spec() + "&startTime="@
        + start + "&endTime="@ + end
}

/// The address of a request for the benchmarks of an experience between
/// two instants, given as their texts.
pub fn request_url(universe_id: u64, kpi_type: KpiType, start: &str, end: &str) -> (url: String)
    ensures
        url@ == url_spec(universe_id, kpi_type, start@, end@),
{
    let mut url =
        "https://apis.roblox.com/developer-analytics-aggregations/v2/get-benchmarks?universeId=".to_owned();
    push_decimal(&mut url, universe_id);
    url.append("&kpiType=");
    url.append(kpi_type.to_string().as_str());
    url.append("&startTime=");
    url.append(start);
    url.append("&endTime=");
    url.append(end);
    url
}

/// The address of a request for the benchmarks of an experience between
/// two instants; none where an instant cannot be written as a date.
pub fn benchmark_url(universe_id: u64, kpi_type: KpiType, start: Timestamp, end: Timestamp) -> (r:
    Option<String>)
    ensures
        match r {
            Some(url) => formatted_instant(start.secs, start.nanos, TIMESTAMP_FORMAT@) is Some
                && formatted_instant(end.secs, end.nanos, TIMESTAMP_FORMAT@) is Some && url@
                == url_spec(
                universe_id,
                kpi_type,
                formatted_instant(start.secs, start.nanos, TIMESTAMP_FORMAT@)->Some_0,
                formatted_instant(end.secs, end.nanos, TIMESTAMP_FORMAT@)->Some_0,
            ),
            None => formatted_instant(start.secs, start.nanos, TIMESTAMP_FORMAT@) is None
                || formatted_instant(end.secs, end.nanos, TIMESTAMP_FORMAT@) is None,
        },
{
    let from = match format_instant(start, TIMESTAMP_FORMAT) {
        Some(text) => text,
        None => {
            return None;
        },
    };
    let to = match format_instant(end, TIMESTAMP_FORMAT) {
        Some(text) => text,
        None => {
            return None;
        },
    };
    Some(request_url(universe_id, kpi_type, from.as_str(), to.as_str()))
}

/// The decimal digits of a text, in order.
pub open spec fn digits_in(text: Seq<char>) -> Seq<char>
    decreases text.len(),
{
    if text.len() == 0 {
        Seq::empty()
    } else if is_digit(text.last()) {
        digits_in(text.drop_last()).push(text.last())
    } else {
        digits_in(text.drop_last())
    }
}

/// The percentile that a text such as "90th" names: the number that its
/// digits write.
pub open spec fn percentile_spec(text: Seq<char>) -> Option<u64> {
    let digits = digits_in(text);
    if digits.len() > 0 && digits_value(digits) <= u64::MAX {
        Some(digits_value(digits) as u64)
    } else {
        None
    }
}

/// The digits of a text are digits.
pub proof fn lemma_digits_in(text: Seq<char>)
    ensures
        all_digits(digits_in(text)),
    decreases text.len(),
{
    if text.len() > 0 {
        lemma_digits_in(text.drop_last());
    }
}

/// Reads the percentile that a text names.
pub fn parse_percentile(text: &str) -> (r: Option<u64>)
    ensures
        r == percentile_spec(text@),
{
    let chars = chars_of(text);
    let mut digits: Vec<char> = Vec::new();
    let mut i: usize = 0;
    assert(chars@.take(0) =~= Seq::empty());
    while i < chars.len()
        invariant
            i <= chars.len(),
            digits@ == digits_in(chars@.take(i as int)),
        decreases chars.len() - i,
    {
        assert(chars@.take(i + 1).drop_last() =~= chars@.take(i as int));
        let c = chars[i];
        if '0' <= c && c <= '9' {
            digits.push(c);
        }
        i = i + 1;
    }
    proof {
        assert(chars@.take(chars.len() as int) =~= chars@);
        lemma_digits_in(text@);
    }
    decimal_value(&digits)
}

/// The instants of the answer's points, read from their texts; none where
/// one is not read.
pub open spec fn dated_upto(points: Seq<(Seq<char>, DataPoint)>, upto: int) -> Option<
    Seq<(Timestamp, DataPoint)>,
>
    decreases upto,
{
    if upto <= 0 {
        Some(Seq::empty())
    } else {
        match dated_upto(points, upto - 1) {
            None => None,
            Some(before) => match parsed_instant(points[upto - 1].0, TIMESTAMP_FORMAT@) {
                None => None,
                Some(instant) => Some(
                    before.push(
                        (Timestamp { secs: instant.0, nanos: instant.1 }, points[upto - 1].1),
                    ),
                ),
            },
        }
    }
}

/// The points of an answer, each with its date as a sequence of characters.
pub open spec fn points_view(points: Seq<(String, DataPoint)>) -> Seq<(Seq<char>, DataPoint)> {
    Seq::new(points.len(), |i: int| (points[i].0@, points[i].1))
}

/// Once a date is not read, none of the longer runs of points is dated.
pub proof fn lemma_dated_fails(points: Seq<(Seq<char>, DataPoint)>, k: int, upto: int)
    requires
        0 <= k <= upto,
        dated_upto(points, k) is None,
    ensures
        dated_upto(points, upto) is None,
    decreases upto - k,
{
    if k < upto {
        lemma_dated_fails(points, k, upto - 1);
    }
}

/// Builds a benchmark from the parts of an answer: every date must be
/// read, and the percentile text must hold a number.
pub fn read_benchmark(
    benchmark_percentile: &str,
    universe_kpi_percentile: Option<u64>,
    response_data: &Vec<(String, DataPoint)>,
) -> (r: Result<Benchmark, AnalyticsFetchError>)
    ensures
        match r {
            Ok(found) => dated_upto(points_view(response_data@), response_data.len() as int)
                == Some(found.data@) && percentile_spec(benchmark_percentile@) == Some(
                found.benchmark_percentile,
            ) && found.universe_kpi_percentile == universe_kpi_percentile,
            Err(e) => e is InvalidResponse && (dated_upto(
                points_view(response_data@),
                response_data.len() as int,
            ) is None || percentile_spec(benchmark_percentile@) is None),
        },
{
    let ghost points = points_view(response_data@);
    let mut data: Vec<(Timestamp, DataPoint)> = Vec::new();
    let mut i: usize = 0;
    while i < response_data.len()
        invariant
            i <= response_data.len(),
            points == points_view(response_data@),
            dated_upto(points, i as int) == Some(data@),
        decreases response_data.len() - i,
    {
        match parse_instant(response_data[i].0.as_str(), TIMESTAMP_FORMAT) {
            Ok(instant) => {
                data.push((instant, response_data[i].1));
            },
            Err(_) => {
                proof {
                    lemma_dated_fails(points, i + 1, response_data.len() as int);
                }
                return Err(AnalyticsFetchError::InvalidResponse);
            },
        }
        i = i + 1;
    }
    match parse_percentile(benchmark_percentile) {
        Some(percentile) => Ok(
            Benchmark { benchmark_percentile: percentile, universe_kpi_percentile, data },
        ),
        None => Err(AnalyticsFetchError::InvalidResponse),
    }
}

} // verus!
