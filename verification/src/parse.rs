//! Reading a file of analytics data: an identifier line, a header line that
//! names the indicator, and one record for each point of each series.

use crate::data::{DataPoint, KpiType};
use crate::fixed_point::parsed_fixed_bits;
use crate::text::{parse_u64, same_text, whole_number};
use crate::time::{parse_instant, parsed_instant, Timestamp};
use vstd::prelude::*;
use vstd::string::StringExecFns;

verus! {

/// The format in which analytics files write an instant.
pub const TIMESTAMP_FORMAT: &'static str = "%FT%T%.fZ";

/// The fields of one record.
pub type Row = Seq<Seq<char>>;

/// One named series: its points in the order in which the file holds them.
pub type SeriesView = (Seq<char>, Seq<(Timestamp, DataPoint)>);

/// The analytics data of one experience.
#[derive(Debug)]
pub struct AnalyticsData {
    pub kpi_type: KpiType,
    pub universe_id: u64,
    /// The series by name, in the order in which the file first names them.
    pub data: Vec<(String, Vec<(Timestamp, DataPoint)>)>,
}

/// Why a file holds no analytics data.
#[derive(Debug)]
pub enum AnalyticsParseError {
    /// The file, or a record of it, cannot be read.
    UnreadableFile,
    /// The header names an indicator that is not known.
    IncompatibleKpiType(String),
    /// The file holds no record, or none with a point.
    EmptyFile,
    /// The first record is not that of the identifier.
    MissingHeader,
    /// The identifier is no whole number.
    InvalidHeader,
    /// The second record is not the header of the data.
    MissingKpiType,
}

/// A parse error with its text as a sequence of characters.
pub enum ParseFailure {
    UnreadableFile,
    IncompatibleKpiType(Seq<char>),
    EmptyFile,
    MissingHeader,
    InvalidHeader,
    MissingKpiType,
}

impl View for AnalyticsParseError {
    type V = ParseFailure;

    open spec fn view(&self) -> ParseFailure {
        match self {
            AnalyticsParseError::UnreadableFile => ParseFailure::UnreadableFile,
            AnalyticsParseError::IncompatibleKpiType(name) => ParseFailure::IncompatibleKpiType(
                name@,
            ),
            AnalyticsParseError::EmptyFile => ParseFailure::EmptyFile,
            AnalyticsParseError::MissingHeader => ParseFailure::MissingHeader,
            AnalyticsParseError::InvalidHeader => ParseFailure::InvalidHeader,
            AnalyticsParseError::MissingKpiType => ParseFailure::MissingKpiType,
        }
    }
}

impl ParseFailure {
    /// The message for the user.
    pub open spec fn message(self) -> Seq<char> {
        match self {
            ParseFailure::UnreadableFile =>
                "The provided file was not able to be read as a CSV document!"@,
            ParseFailure::IncompatibleKpiType(name) => "The KPI \""@ + name
                + "\" does not support benchmarks!"@,
            ParseFailure::EmptyFile => "The provided file is empty!"@,
            ParseFailure::MissingHeader =>
                "The provided file does not have the Experience ID as its first line!"@,
            ParseFailure::InvalidHeader =>
                "The provided file does not have a valid Experience ID line!"@,
            ParseFailure::MissingKpiType =>
                "Unable to determine KPI type! Make sure the header line for the data is present and correct!"@,
        }
    }
}

impl AnalyticsParseError {
    /// The message for the user.
    pub fn message(&self) -> (text: String)
        ensures
            text@ == self@.message(),
    {
        match self {
            AnalyticsParseError::UnreadableFile =>
                "The provided file was not able to be read as a CSV document!".to_owned(),
            AnalyticsParseError::IncompatibleKpiType(name) => {
                let mut text = "The KPI \"".to_owned();
                text.append(name.as_str());
                text.append("\" does not support benchmarks!");
                text
            },
            AnalyticsParseError::EmptyFile => "The provided file is empty!".to_owned(),
            AnalyticsParseError::MissingHeader =>
                "The provided file does not have the Experience ID as its first line!".to_owned(),
            AnalyticsParseError::InvalidHeader =>
                "The provided file does not have a valid Experience ID line!".to_owned(),
            AnalyticsParseError::MissingKpiType =>
                "Unable to determine KPI type! Make sure the header line for the data is present and correct!".to_owned(),
        }
    }
}

/// The fields of a record as sequences of characters.
pub open spec fn row_of(record: Seq<String>) -> Row {
    Seq::new(record.len(), |i: int| record[i]@)
}

/// The record at a place, where the reader gave one there.
pub open spec fn row_at(records: Seq<Option<Row>>, at: int) -> Option<Row> {
    if 0 <= at < records.len() {
        records[at]
    } else {
        None
    }
}

/// The identifier that the first record holds: the record reads
/// "Experience ID" and then a whole number.
pub open spec fn universe_id_spec(first: Option<Row>) -> Result<u64, ParseFailure> {
    match first {
        None => Err(ParseFailure::EmptyFile),
        Some(row) => if row.len() < 1 || row[0] != "Experience ID"@ {
            Err(ParseFailure::MissingHeader)
        } else if row.len() < 2 {
            Err(ParseFailure::InvalidHeader)
        } else {
            match whole_number(row[1]) {
                Some(id) => Ok(id),
                None => Err(ParseFailure::InvalidHeader),
            }
        },
    }
}

/// The indicator that the second record names: the record reads "Breakdown"
/// and holds the indicator's name in its third field.
pub open spec fn kpi_type_spec(second: Option<Row>) -> Result<KpiType, ParseFailure> {
    match second {
        None => Err(ParseFailure::MissingKpiType),
        Some(row) => if row.len() < 1 || row[0] != "Breakdown"@ {
            Err(ParseFailure::MissingKpiType)
        } else if row.len() < 3 {
            Err(ParseFailure::MissingKpiType)
        } else {
            match KpiType::named_by(row[2]) {
                Some(kind) => Ok(kind),
                None => Err(ParseFailure::IncompatibleKpiType(row[2])),
            }
        },
    }
}

/// The point that a record holds: the name of its series, an instant and a
/// value. None where a field is missing or is not read.
pub open spec fn record_spec(row: Row) -> Option<(Seq<char>, (Timestamp, DataPoint))> {
    if row.len() < 3 {
        None
    } else {
        match parsed_instant(row[1], TIMESTAMP_FORMAT@) {
            None => None,
            Some(instant) => match DataPoint::parse_spec(row[2], parsed_fixed_bits(row[2])) {
                Err(_) => None,
                Ok(value) => Some(
                    (row[0], (Timestamp { secs: instant.0, nanos: instant.1 }, value)),
                ),
            },
        }
    }
}

/// Finds the identifier of the experience in the first record of a file.
pub fn get_universe_id(first: Option<&Vec<String>>) -> (r: Result<u64, AnalyticsParseError>)
    ensures
        match r {
            Ok(id) => universe_id_spec(
                match first {
                    Some(record) => Some(row_of(record@)),
                    None => None,
                },
            ) == Ok::<u64, ParseFailure>(id),
            Err(e) => universe_id_spec(
                match first {
                    Some(record) => Some(row_of(record@)),
                    None => None,
                },
            ) == Err::<u64, ParseFailure>(e@),
        },
{
    let record = match first {
        Some(record) => record,
        None => {
            return Err(AnalyticsParseError::EmptyFile);
        },
    };
    if record.len() < 1 || !same_text(record[0].as_str(), "Experience ID") {
        return Err(AnalyticsParseError::MissingHeader);
    }
    if record.len() < 2 {
        return Err(AnalyticsParseError::InvalidHeader);
    }
    match parse_u64(record[1].as_str()) {
        Some(id) => Ok(id),
        None => Err(AnalyticsParseError::InvalidHeader),
    }
}

/// Finds the indicator in the second record of a file.
pub fn get_kpi_type(second: Option<&Vec<String>>) -> (r: Result<KpiType, AnalyticsParseError>)
    ensures
        match r {
            Ok(kind) => kpi_type_spec(
                match second {
                    Some(record) => Some(row_of(record@)),
                    None => None,
                },
            ) == Ok::<KpiType, ParseFailure>(kind),
            Err(e) => kpi_type_spec(
                match second {
                    Some(record) => Some(row_of(record@)),
                    None => None,
                },
            ) == Err::<KpiType, ParseFailure>(e@),
        },
{
    let record = match second {
        Some(record) => record,
        None => {
            return Err(AnalyticsParseError::MissingKpiType);
        },
    };
    if record.len() < 1 || !same_text(record[0].as_str(), "Breakdown") {
        return Err(AnalyticsParseError::MissingKpiType);
    }
    if record.len() < 3 {
        return Err(AnalyticsParseError::MissingKpiType);
    }
    match KpiType::from_str(record[2].as_str()) {
        Ok(kind) => Ok(kind),
        Err(_) => Err(AnalyticsParseError::IncompatibleKpiType(record[2].clone())),
    }
}

/// Reads the point that a record holds.
pub fn parse_record(record: &Vec<String>) -> (r: Result<
    (String, (Timestamp, DataPoint)),
    AnalyticsParseError,
>)
    ensures
        match r {
            Ok(point) => record_spec(row_of(record@)) == Some((point.0@, point.1)),
            Err(e) => e@ == ParseFailure::UnreadableFile && record_spec(row_of(record@)) is None,
        },
{
    if record.len() < 3 {
        return Err(AnalyticsParseError::UnreadableFile);
    }
    let instant = match parse_instant(record[1].as_str(), TIMESTAMP_FORMAT) {
        Ok(instant) => instant,
        Err(_) => {
            return Err(AnalyticsParseError::UnreadableFile);
        },
    };
    let value = match DataPoint::from_str(record[2].as_str()) {
        Ok(value) => value,
        Err(_) => {
            return Err(AnalyticsParseError::UnreadableFile);
        },
    };
    Ok((record[0].clone(), (instant, value)))
}

/// The series, each with its name as a sequence of characters.
pub open spec fn series_view(data: Seq<(String, Vec<(Timestamp, DataPoint)>)>) -> Seq<
    SeriesView,
> {
    Seq::new(data.len(), |i: int| (data[i].0@, data[i].1@))
}

/// The records with their fields as sequences of characters; none where the
/// reader gave an error.
pub open spec fn rows_of(records: Seq<Option<Vec<String>>>) -> Seq<Option<Row>> {
    Seq::new(
        records.len(),
        |i: int|
            match records[i] {
                Some(record) => Some(row_of(record@)),
                None => None,
            },
    )
}

/// The place of the series with a given name.
pub open spec fn position(groups: Seq<SeriesView>, name: Seq<char>) -> Option<int>
    decreases groups.len(),
{
    if groups.len() == 0 {
        None
    } else {
        match position(groups.drop_last(), name) {
            Some(at) => Some(at),
            None => if groups.last().0 == name {
                Some(groups.len() - 1)
            } else {
                None
            },
        }
    }
}

/// The series with one more point: at the end of the series of that name,
/// or as the first point of a new series behind the others.
pub open spec fn add_point(groups: Seq<SeriesView>, name: Seq<char>, point: (Timestamp, DataPoint))
    -> Seq<SeriesView> {
    match position(groups, name) {
        Some(at) => groups.update(at, (name, groups[at].1.push(point))),
        None => groups.push((name, seq![point])),
    }
}

/// The series that the records before `upto` hold, the first two records
/// left aside. A record that the reader could not give, or that holds no
/// point, adds nothing.
pub open spec fn grouped_upto(records: Seq<Option<Row>>, upto: int) -> Seq<SeriesView>
    decreases upto,
{
    if upto <= 2 {
        Seq::empty()
    } else {
        let before = grouped_upto(records, upto - 1);
        match row_at(records, upto - 1) {
            None => before,
            Some(row) => match record_spec(row) {
                None => before,
                Some(point) => add_point(before, point.0, point.1),
            },
        }
    }
}

/// What a file's records hold: the indicator, the identifier and the
/// series, or the first fault found.
pub open spec fn analytics_spec(records: Seq<Option<Row>>) -> Result<
    (KpiType, u64, Seq<SeriesView>),
    ParseFailure,
> {
    match universe_id_spec(row_at(records, 0)) {
        Err(e) => Err(e),
        Ok(id) => match kpi_type_spec(row_at(records, 1)) {
            Err(e) => Err(e),
            Ok(kind) => {
                let series = grouped_upto(records, records.len() as int);
                if series.len() == 0 {
                    Err(ParseFailure::EmptyFile)
                } else {
                    Ok((kind, id, series))
                }
            },
        },
    }
}

/// No two series of a grouping share a name.
pub open spec fn distinct_names(groups: Seq<SeriesView>) -> bool {
    forall|i: int, j: int| 0 <= i < j < groups.len() ==> groups[i].0 != groups[j].0
}

/// Every series of a grouping holds a point.
pub open spec fn no_empty_series(groups: Seq<SeriesView>) -> bool {
    forall|i: int| 0 <= i < groups.len() ==> (#[trigger] groups[i]).1.len() > 0
}

impl AnalyticsData {
    /// Data as a file gives it: there is a series, no two series share a
    /// name, and every series holds a point.
    pub open spec fn wf(self) -> bool {
        &&& self.data.len() > 0
        &&& distinct_names(series_view(self.data@))
        &&& no_empty_series(series_view(self.data@))
    }
}

/// The place that `position` finds holds the name, and no place before it does.
pub proof fn lemma_position(groups: Seq<SeriesView>, name: Seq<char>)
    ensures
        match position(groups, name) {
            Some(at) => 0 <= at < groups.len() && groups[at].0 == name && forall|j: int|
                0 <= j < at ==> (#[trigger] groups[j]).0 != name,
            None => forall|j: int| 0 <= j < groups.len() ==> (#[trigger] groups[j]).0 != name,
        },
    decreases groups.len(),
{
    if groups.len() > 0 {
        let before = groups.drop_last();
        lemma_position(before, name);
        assert forall|j: int| 0 <= j < before.len() implies before[j] == groups[j] by {}
        match position(before, name) {
            Some(at) => {
                assert(groups[at] == before[at]);
                assert forall|j: int| 0 <= j < at implies (#[trigger] groups[j]).0 != name by {
                    assert(groups[j] == before[j]);
                }
            },
            None => {
                assert forall|j: int| 0 <= j < before.len() implies (#[trigger] groups[j]).0
                    != name by {
                    assert(groups[j] == before[j]);
                }
            },
        }
    }
}

/// Grouping never gives two series one name, nor a series without a point.
pub proof fn lemma_grouped_distinct(records: Seq<Option<Row>>, upto: int)
    ensures
        distinct_names(grouped_upto(records, upto)),
        no_empty_series(grouped_upto(records, upto)),
    decreases upto,
{
    if upto > 2 {
        lemma_grouped_distinct(records, upto - 1);
        let before = grouped_upto(records, upto - 1);
        match row_at(records, upto - 1) {
            None => {},
            Some(row) => match record_spec(row) {
                None => {},
                Some(point) => {
                    lemma_position(before, point.0);
                },
            },
        }
    }
}

/// Finds the place of the series with a given name.
fn find_series(data: &Vec<(String, Vec<(Timestamp, DataPoint)>)>, name: &String) -> (r: Option<
    usize,
>)
    ensures
        match r {
            Some(at) => position(series_view(data@), name@) == Some(at as int) && at < data.len(),
            None => position(series_view(data@), name@) is None,
        },
{
    let ghost groups = series_view(data@);
    let mut i: usize = 0;
    assert(groups.take(0) =~= Seq::empty());
    while i < data.len()
        invariant
            i <= data.len(),
            groups == series_view(data@),
            position(groups.take(i as int), name@) is None,
        decreases data.len() - i,
    {
        assert(groups.take(i + 1).drop_last() =~= groups.take(i as int));
        if data[i].0 == *name {
            proof {
                lemma_position_prefix(groups, name@, i + 1);
            }
            return Some(i);
        }
        i = i + 1;
    }
    assert(groups.take(data.len() as int) =~= groups);
    None
}

/// A place found among the first series is the place found among all.
pub proof fn lemma_position_prefix(groups: Seq<SeriesView>, name: Seq<char>, k: int)
    requires
        0 <= k <= groups.len(),
        position(groups.take(k), name) is Some,
    ensures
        position(groups, name) == position(groups.take(k), name),
    decreases groups.len() - k,
{
    if k < groups.len() {
        assert(groups.take(k + 1).drop_last() =~= groups.take(k));
        lemma_position_prefix(groups, name, k + 1);
    } else {
        assert(groups.take(k) =~= groups);
    }
}

/// Adds a point to the series of a given name: at the end of that series,
/// or as the first point of a new series behind the others.
pub fn push_point(
    data: &mut Vec<(String, Vec<(Timestamp, DataPoint)>)>,
    name: String,
    point: (Timestamp, DataPoint),
)
    ensures
        series_view(final(data)@) == add_point(series_view(old(data)@), name@, point),
{
    let ghost before = series_view(data@);
    match find_series(data, &name) {
        Some(at) => {
            data[at].1.push(point);
            assert(series_view(data@) =~= add_point(before, name@, point)) by {
                lemma_position(before, name@);
            }
        },
        None => {
            let mut points: Vec<(Timestamp, DataPoint)> = Vec::new();
            points.push(point);
            data.push((name, points));
            assert(series_view(data@) =~= add_point(before, name@, point));
        },
    }
}

/// Reads analytics data from the records of a file.
pub fn parse_analytics_records(records: &Vec<Option<Vec<String>>>) -> (r: Result<
    AnalyticsData,
    AnalyticsParseError,
>)
    ensures
        r is Ok ==> r->Ok_0.wf(),
        match r {
            Ok(found) => analytics_spec(rows_of(records@)) == Ok::<
                (KpiType, u64, Seq<SeriesView>),
                ParseFailure,
            >((found.kpi_type, found.universe_id, series_view(found.data@))),
            Err(e) => analytics_spec(rows_of(records@)) == Err::<
                (KpiType, u64, Seq<SeriesView>),
                ParseFailure,
            >(e@),
        },
{
    let ghost rows = rows_of(records@);
    let first: Option<&Vec<String>> = if records.len() > 0 {
        records[0].as_ref()
    } else {
        None
    };
    let universe_id = match get_universe_id(first) {
        Ok(id) => id,
        Err(e) => {
            return Err(e);
        },
    };
    let second: Option<&Vec<String>> = if records.len() > 1 {
        records[1].as_ref()
    } else {
        None
    };
    let kpi_type = match get_kpi_type(second) {
        Ok(kind) => kind,
        Err(e) => {
            return Err(e);
        },
    };
    let mut data: Vec<(String, Vec<(Timestamp, DataPoint)>)> = Vec::new();
    let mut i: usize = 2;
    assert(series_view(data@) =~= grouped_upto(rows, 2));
    while i < records.len()
        invariant
            2 <= i,
            rows == rows_of(records@),
            i <= records.len() ==> series_view(data@) == grouped_upto(rows, i as int),
            i > records.len() ==> records.len() < 2 && data.len() == 0,
        decreases records.len() - i,
    {
        match &records[i] {
            Some(record) => match parse_record(record) {
                Ok(point) => {
                    push_point(&mut data, point.0, point.1);
                },
                Err(_) => {},
            },
            None => {},
        }
        i = i + 1;
    }
    if data.len() == 0 {
        return Err(AnalyticsParseError::EmptyFile);
    }
    proof {
        lemma_grouped_distinct(rows, records.len() as int);
    }
    Ok(AnalyticsData { kpi_type, universe_id, data })
}

/// The records that `csv` finds in the bytes of a file, each as its fields;
/// none in the place of a record that it could not give.
pub uninterp spec fn csv_records(bytes: Seq<u8>, has_headers: bool, flexible: bool) -> Seq<
    Option<Seq<Seq<char>>>,
>;

/// `csv::Reader::into_records` over bytes in memory, with a reader built by
/// `csv::ReaderBuilder`: the records depend on the bytes and the two
/// settings alone.
#[verifier::external_body]
pub(crate) fn read_records(bytes: &[u8], has_headers: bool, flexible: bool) -> (records: Vec<
    Option<Vec<String>>,
>)
    ensures
        rows_of(records@) == csv_records(bytes@, has_headers, flexible),
{
    let mut builder = csv::ReaderBuilder::new();
    builder.has_headers(has_headers).flexible(flexible);
    let mut records = Vec::new();
    for record in builder.from_reader(bytes).into_records() {
        records.push(match record {
            Ok(fields) => Some(fields.iter().map(String::from).collect()),
            Err(_) => None,
        });
    }
    records
}

/// Reads analytics data from the bytes of a file in comma-separated form.
/// The file has no header record of its own, and its records may differ in
/// their number of fields.
pub fn parse_analytics_file(bytes: &[u8]) -> (r: Result<AnalyticsData, AnalyticsParseError>)
    ensures
        r is Ok ==> r->Ok_0.wf(),
        match r {
            Ok(found) => analytics_spec(csv_records(bytes@, false, true)) == Ok::<
                (KpiType, u64, Seq<SeriesView>),
                ParseFailure,
            >((found.kpi_type, found.universe_id, series_view(found.data@))),
            Err(e) => analytics_spec(csv_records(bytes@, false, true)) == Err::<
                (KpiType, u64, Seq<SeriesView>),
                ParseFailure,
            >(e@),
        },
{
    let records = read_records(bytes, false, true);
    parse_analytics_records(&records)
}

} // verus!
