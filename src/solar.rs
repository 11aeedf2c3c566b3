//! Stations, their hourly series, the feed's grammar and the nearest-station lookup.
use chrono::format::ParseError as ChronoParseError;
use vstd::prelude::*;

use crate::text::{
    fields_of, first_index_of, lemma_first_index_of, lines_of, split_fields, split_lines,
    split_once_char, views_of,
};

verus! {

#[verifier::external_type_specification]
#[verifier::external_body]
pub struct ExChronoParseError(ChronoParseError);

#[verifier::external_type_specification]
#[verifier::external_body]
pub struct ExParseFloatError(std::num::ParseFloatError);

#[verifier::external_type_specification]
#[verifier::external_body]
pub struct ExIoError(std::io::Error);

/// Pattern of the date and time in the header line.
pub const BASE_TIME_FORMAT: &'static str = "%Y/%m/%d %H:%M:%S";

/// Seconds in one hour: the step between two samples of a series.
pub const SECONDS_PER_HOUR: i128 = 3600;

/// A station's place. Each field holds the IEEE-754 bit pattern of a 32-bit
/// float: latitude and longitude in degrees.
#[derive(Clone, Copy, Debug, PartialEq, Eq)]
pub struct Coord {
    pub lat: u32,
    pub lon: u32,
}

/// One sample: the power (bit pattern of a 32-bit float) and its instant in
/// seconds since the Unix epoch, UTC.
#[derive(Clone, Copy, Debug, PartialEq, Eq)]
pub struct DataPoint {
    pub power: u32,
    pub timestamp: i128,
}

/// The entries of one feed, in the order of its body lines.
#[derive(Clone, Debug)]
pub struct SolarData {
    data: Vec<(Coord, Vec<DataPoint>)>,
}

/// Why a feed was rejected.
#[derive(Debug)]
pub enum ParseError {
    HeaderLineIsNotFound,
    HeaderLineIsNotValid,
    NonUtcZoneSupplied,
    InvalidBaseTime(ChronoParseError),
    InvalidValueInData(std::num::ParseFloatError),
    InvalidLineWasSupplied,
    IO(std::io::Error),
}

/// The header and the comma-separated fields of each body line, before the
/// fields are read as numbers.
#[derive(Clone, Debug)]
pub struct RawDocument {
    pub base_time: i64,
    pub rows: Vec<Vec<String>>,
}

/// Seconds since the Unix epoch, UTC, that chrono reads from `s` with the
/// pattern `fmt`, or `None` where `s` does not match it.
pub uninterp spec fn utc_seconds_of(s: Seq<char>, fmt: Seq<char>) -> Option<int>;

/// `s` without its trailing whitespace, as `str::trim_end` gives it.
pub uninterp spec fn trimmed_end_of(s: Seq<char>) -> Seq<char>;

/// Relies on `chrono::NaiveDateTime::parse_from_str` to read a date and time
/// with `fmt`, taken as UTC and counted in seconds since the Unix epoch.
#[verifier::external_body]
fn parse_utc_seconds(s: &str, fmt: &str) -> (r: Result<i64, ChronoParseError>)
    ensures
        match r {
            Ok(t) => utc_seconds_of(s@, fmt@) == Some(t as int),
            Err(_) => utc_seconds_of(s@, fmt@) is None,
        },
{
    chrono::NaiveDateTime::parse_from_str(s, fmt).map(|t| t.and_utc().timestamp())
}

/// Relies on `str::trim_end`: the header line without its trailing whitespace.
#[verifier::external_body]
fn trim_end(s: &str) -> (r: &str)
    ensures
        r@ == trimmed_end_of(s@),
{
    s.trim_end()
}

/// The text before the first comma of a header.
pub open spec fn header_time_text(t: Seq<char>) -> Seq<char> {
    t.subrange(0, first_index_of(t, ','))
}

/// The text after the first comma of a header.
pub open spec fn header_zone_text(t: Seq<char>) -> Seq<char> {
    t.subrange(first_index_of(t, ',') + 1, t.len() as int)
}

/// `r` is what reading `line` as a header gives.
pub open spec fn header_matches(line: Seq<char>, r: Result<i64, ParseError>) -> bool {
    let t = trimmed_end_of(line);
    if !t.contains(',') {
        r is Err && r->Err_0 is HeaderLineIsNotValid
    } else if header_zone_text(t) != "UTC"@ {
        r is Err && r->Err_0 is NonUtcZoneSupplied
    } else {
        match utc_seconds_of(header_time_text(t), BASE_TIME_FORMAT@) {
            Some(v) => r is Ok && r->Ok_0 as int == v,
            None => r is Err && r->Err_0 is InvalidBaseTime,
        }
    }
}

/// `z` is exactly `UTC`.
fn is_utc(z: &str) -> (r: bool)
    ensures
        r == (z@ == "UTC"@),
{
    proof {
        reveal_strlit("UTC");
    }
    if z.unicode_len() != 3 {
        return false;
    }
    let ok = z.get_char(0) == 'U' && z.get_char(1) == 'T' && z.get_char(2) == 'C';
    if ok {
        assert(z@ =~= "UTC"@);
    } else {
        assert(z@ != "UTC"@) by {
            if z@ == "UTC"@ {
                assert(z@[0] == 'U' && z@[1] == 'T' && z@[2] == 'C');
            }
        }
    }
    ok
}

/// Reads the header line: `<date> <time>,UTC`, the date and time in
/// [`BASE_TIME_FORMAT`]. Gives the base time in seconds since the Unix epoch.
pub fn parse_header(line: &str) -> (r: Result<i64, ParseError>)
    ensures
        header_matches(line@, r),
{
    let t = trim_end(line);
    match split_once_char(t, ',') {
        None => Err(ParseError::HeaderLineIsNotValid),
        Some((time, zone)) => {
            proof {
                lemma_first_index_of(time@, zone@, ',');
                assert(header_time_text(t@) =~= time@);
                assert(header_zone_text(t@) =~= zone@);
                assert(t@.contains(',')) by {
                    assert(t@[time@.len() as int] == ',');
                }
            }
            if !is_utc(zone) {
                return Err(ParseError::NonUtcZoneSupplied);
            }
            match parse_utc_seconds(time, BASE_TIME_FORMAT) {
                Ok(v) => Ok(v),
                Err(e) => Err(ParseError::InvalidBaseTime(e)),
            }
        },
    }
}

/// The lines of a document, each split at its commas.
pub open spec fn rows_of(lines: Seq<Seq<char>>) -> Seq<Seq<Seq<char>>> {
    lines.map_values(|l: Seq<char>| fields_of(l, ','))
}

/// The fields of each row.
pub open spec fn row_views(rows: Seq<Vec<String>>) -> Seq<Seq<Seq<char>>> {
    rows.map_values(|r: Vec<String>| views_of(r@))
}

/// Reads the header of `text` and splits every later line at its commas.
pub fn parse_document(text: &str) -> (r: Result<RawDocument, ParseError>)
    ensures
        lines_of(text@).len() == 0 ==> r is Err && r->Err_0 is HeaderLineIsNotFound,
        lines_of(text@).len() > 0 ==> match r {
            Ok(d) => header_matches(lines_of(text@)[0], Ok::<i64, ParseError>(d.base_time))
                && row_views(d.rows@) == rows_of(lines_of(text@).drop_first()),
            Err(e) => header_matches(lines_of(text@)[0], Err::<i64, ParseError>(e)),
        },
{
    let lines = split_lines(text);
    if lines.len() == 0 {
        return Err(ParseError::HeaderLineIsNotFound);
    }
    assert(views_of(lines@)[0] == lines@[0]@);
    let base_time = match parse_header(lines[0].as_str()) {
        Ok(t) => t,
        Err(e) => return Err(e),
    };
    let mut rows: Vec<Vec<String>> = Vec::new();
    let mut i: usize = 1;
    while i < lines.len()
        invariant
            1 <= i <= lines@.len(),
            views_of(lines@) == lines_of(text@),
            row_views(rows@) == rows_of(lines_of(text@).subrange(1, i as int)),
        decreases lines@.len() - i,
    {
        assert(views_of(lines@)[i as int] == lines@[i as int]@);
        let row = split_fields(lines[i].as_str(), ',');
        proof {
            let ghost next = rows@.push(row);
            assert(views_of(lines@).len() == lines@.len());
            assert(row_views(rows@).len() == rows@.len());
            assert(rows@.len() == i - 1);
            assert(row_views(next)[i - 1] == views_of(row@));
            assert(lines_of(text@)[i as int] == lines@[i as int]@);
            assert forall|m: int| 0 <= m < i - 1 implies #[trigger] row_views(next)[m] == row_views(
                rows@,
            )[m] by {}
            assert(row_views(next) =~= rows_of(lines_of(text@).subrange(1, i + 1)));
        }
        rows.push(row);
        i = i + 1;
    }
    assert(lines_of(text@).subrange(1, i as int) =~= lines_of(text@).drop_first());
    Ok(RawDocument { base_time, rows })
}

/// Every field of `row` was read as a number, and there are at least two.
pub open spec fn row_is_valid(row: Seq<Result<u32, std::num::ParseFloatError>>) -> bool {
    &&& forall|j: int| 0 <= j < row.len() ==> row[j] is Ok
    &&& row.len() >= 2
}

/// The numbers of a row whose fields were all read.
pub open spec fn values_of(row: Seq<Result<u32, std::num::ParseFloatError>>) -> Seq<u32> {
    row.map_values(|v: Result<u32, std::num::ParseFloatError>| v->Ok_0)
}

/// The series of `powers`, hour by hour from `base` (seconds since the epoch).
pub open spec fn series_of(base: int, powers: Seq<u32>) -> Seq<DataPoint> {
    Seq::new(
        powers.len(),
        |i: int| DataPoint { power: powers[i], timestamp: (base + SECONDS_PER_HOUR * i) as i128 },
    )
}

/// The entry that a valid row gives: its first two values place the station,
/// the others are its series.
pub open spec fn entry_of(base: int, row: Seq<Result<u32, std::num::ParseFloatError>>) -> (
    Coord,
    Seq<DataPoint>,
) {
    let v = values_of(row);
    (Coord { lat: v[0], lon: v[1] }, series_of(base, v.skip(2)))
}

/// `e` is the error that an invalid row gives: the first value that could not
/// be read, else the lack of a second value.
pub open spec fn row_error(row: Seq<Result<u32, std::num::ParseFloatError>>, e: ParseError) -> bool {
    if exists|j: int| 0 <= j < row.len() && row[j] is Err {
        exists|j: int|
            #![trigger row[j]]
            0 <= j < row.len() && row[j] is Err && (forall|i: int| 0 <= i < j ==> row[i] is Ok)
                && e == ParseError::InvalidValueInData(row[j]->Err_0)
    } else {
        e is InvalidLineWasSupplied
    }
}

/// The entries with each series as a sequence.
pub open spec fn entries_view(s: Seq<(Coord, Vec<DataPoint>)>) -> Seq<(Coord, Seq<DataPoint>)> {
    s.map_values(|e: (Coord, Vec<DataPoint>)| (e.0, e.1@))
}

impl SolarData {
    /// The entries, in the order of the body lines.
    pub closed spec fn view(&self) -> Seq<(Coord, Seq<DataPoint>)> {
        entries_view(self.data@)
    }

    /// Builds the entries from the base time of the header and the body's
    /// rows, each field already read as the bit pattern of a 32-bit float or
    /// the error that reading it gave. The first invalid row decides the error.
    pub fn try_new(base_time: i64, rows: Vec<Vec<Result<u32, std::num::ParseFloatError>>>) -> (r:
        Result<SolarData, ParseError>)
        ensures
            r is Ok <==> forall|k: int| 0 <= k < rows@.len() ==> row_is_valid(#[trigger] rows@[k]@),
            r matches Ok(d) ==> d.view() == Seq::new(
                rows@.len(),
                |k: int| entry_of(base_time as int, rows@[k]@),
            ),
            r matches Err(e) ==> exists|k: int|
                #![trigger rows@[k]]
                0 <= k < rows@.len() && !row_is_valid(rows@[k]@) && (forall|i: int|
                    0 <= i < k ==> row_is_valid(#[trigger] rows@[i]@)) && row_error(rows@[k]@, e),
    {
        match first_fault(&rows) {
            Some((k, Some(j))) => {
                let e = take_error(rows, k, j);
                proof {
                    assert(rows@[k as int]@[j as int] is Err);
                }
                Err(ParseError::InvalidValueInData(e))
            },
            Some((k, None)) => {
                proof {
                    assert(!exists|j: int|
                        0 <= j < rows@[k as int]@.len() && rows@[k as int]@[j] is Err);
                }
                Err(ParseError::InvalidLineWasSupplied)
            },
            None => Ok(SolarData { data: build_entries(base_time, &rows) }),
        }
    }
}

/// `i` is the first index whose distance is the least of all.
pub open spec fn is_nearest(distances: Seq<u32>, i: int) -> bool {
    &&& 0 <= i < distances.len()
    &&& forall|j: int| 0 <= j < distances.len() ==> distances[i] <= distances[j]
    &&& forall|j: int| 0 <= j < i ==> distances[i] < distances[j]
}

/// The first index with the least distance.
pub fn nearest_index(distances: &Vec<u32>) -> (r: usize)
    requires
        distances@.len() > 0,
    ensures
        is_nearest(distances@, r as int),
{
    let mut best: usize = 0;
    let mut i: usize = 1;
    while i < distances.len()
        invariant
            1 <= i <= distances@.len(),
            best < i,
            forall|j: int| 0 <= j < i ==> distances@[best as int] <= distances@[j],
            forall|j: int| 0 <= j < best ==> distances@[best as int] < distances@[j],
        decreases distances@.len() - i,
    {
        if distances[i] < distances[best] {
            best = i;
        }
        i = i + 1;
    }
    best
}

impl SolarData {
    /// The number of entries.
    pub fn len(&self) -> (r: usize)
        ensures
            r == self.view().len(),
    {
        self.data.len()
    }

    /// The place and the series of entry `i`.
    pub fn entry(&self, i: usize) -> (r: (Coord, &[DataPoint]))
        requires
            i < self.view().len(),
        ensures
            r.0 == self.view()[i as int].0,
            r.1@ == self.view()[i as int].1,
    {
        let e = &self.data[i];
        (e.0, e.1.as_slice())
    }

    /// The places of all entries, in order.
    pub fn coords(&self) -> (r: Vec<Coord>)
        ensures
            r@.len() == self.view().len(),
            forall|i: int| 0 <= i < r@.len() ==> r@[i] == #[trigger] self.view()[i].0,
    {
        let mut out: Vec<Coord> = Vec::new();
        let mut i: usize = 0;
        while i < self.data.len()
            invariant
                i <= self.data@.len(),
                out@.len() == i,
                forall|j: int| 0 <= j < i ==> out@[j] == #[trigger] self.view()[j].0,
            decreases self.data@.len() - i,
        {
            out.push(self.data[i].0);
            i = i + 1;
        }
        out
    }

    /// The entry nearest to a place. `distances[i]` is the distance from that
    /// place to entry `i`, as the bit pattern of a non-negative 32-bit float,
    /// whose order as an unsigned integer is the order of the distances. On a
    /// tie the earliest entry wins.
    pub fn nearest_series_data(&self, distances: &Vec<u32>) -> (r: (Coord, &[DataPoint]))
        requires
            self.view().len() > 0,
            distances@.len() == self.view().len(),
        ensures
            exists|i: int|
                is_nearest(distances@, i) && r.0 == #[trigger] self.view()[i].0 && r.1@
                    == self.view()[i].1,
    {
        let i = nearest_index(distances);
        self.entry(i)
    }
}

/// A series holds one sample per value, in order: the first at the base time,
/// each later one exactly one hour after the one before.
pub proof fn lemma_series_is_hourly(base: int, powers: Seq<u32>)
    requires
        i64::MIN <= base <= i64::MAX,
        powers.len() <= usize::MAX,
    ensures
        series_of(base, powers).len() == powers.len(),
        forall|i: int| 0 <= i < powers.len() ==> #[trigger] series_of(base, powers)[i].power == powers[i],
        powers.len() > 0 ==> series_of(base, powers)[0].timestamp == base,
        forall|i: int|
            0 <= i < powers.len() - 1 ==> #[trigger] series_of(base, powers)[i + 1].timestamp
                == series_of(base, powers)[i].timestamp + SECONDS_PER_HOUR,
{
    assert forall|i: int| 0 <= i < powers.len() implies #[trigger] series_of(base, powers)[i].timestamp
        == base + SECONDS_PER_HOUR * i by {
        assert(0 <= SECONDS_PER_HOUR * i <= 3600 * usize::MAX) by (nonlinear_arith)
            requires
                0 <= i <= usize::MAX,
                SECONDS_PER_HOUR == 3600,
        ;
    }
    assert forall|i: int| 0 <= i < powers.len() - 1 implies #[trigger] series_of(base, powers)[i
        + 1].timestamp == series_of(base, powers)[i].timestamp + SECONDS_PER_HOUR by {
        assert(SECONDS_PER_HOUR * (i + 1) == SECONDS_PER_HOUR * i + SECONDS_PER_HOUR) by (
        nonlinear_arith);
    }
}

/// A feed that is read gives one entry per body line, in the order of the
/// lines, and the series of each entry holds one sample per value after the
/// place.
pub proof fn lemma_one_entry_per_body_line(
    text: Seq<char>,
    doc: RawDocument,
    values: Seq<Vec<Result<u32, std::num::ParseFloatError>>>,
    d: SolarData,
)
    requires
        lines_of(text).len() > 0,
        row_views(doc.rows@) == rows_of(lines_of(text).drop_first()),
        values.len() == doc.rows@.len(),
        forall|k: int| 0 <= k < values.len() ==> #[trigger] values[k]@.len() == doc.rows@[k]@.len(),
        forall|k: int| 0 <= k < values.len() ==> row_is_valid(#[trigger] values[k]@),
        d.view() == Seq::new(values.len(), |k: int| entry_of(doc.base_time as int, values[k]@)),
    ensures
        d.view().len() == lines_of(text).len() - 1,
        forall|k: int|
            0 <= k < d.view().len() ==> (#[trigger] d.view()[k]).1.len() == fields_of(
                lines_of(text)[k + 1],
                ',',
            ).len() - 2,
{
    assert(row_views(doc.rows@).len() == doc.rows@.len());
    assert(rows_of(lines_of(text).drop_first()).len() == lines_of(text).len() - 1);
    assert forall|k: int| 0 <= k < d.view().len() implies (#[trigger] d.view()[k]).1.len()
        == fields_of(lines_of(text)[k + 1], ',').len() - 2 by {
        assert(row_views(doc.rows@)[k] == views_of(doc.rows@[k]@));
        assert(rows_of(lines_of(text).drop_first())[k] == fields_of(lines_of(text)[k + 1], ','));
        assert(views_of(doc.rows@[k]@).len() == doc.rows@[k]@.len());
    }
}

/// Where the first invalid row stands, and in it the first value that could
/// not be read, if any.
fn first_fault(rows: &Vec<Vec<Result<u32, std::num::ParseFloatError>>>) -> (r: Option<
    (usize, Option<usize>),
>)
    ensures
        r is None <==> forall|k: int| 0 <= k < rows@.len() ==> row_is_valid(#[trigger] rows@[k]@),
        r matches Some((k, jo)) ==> {
            &&& k < rows@.len()
            &&& !row_is_valid(rows@[k as int]@)
            &&& forall|i: int| 0 <= i < k ==> row_is_valid(#[trigger] rows@[i]@)
            &&& match jo {
                Some(j) => j < rows@[k as int]@.len() && rows@[k as int]@[j as int] is Err && (
                forall|i: int| 0 <= i < j ==> rows@[k as int]@[i] is Ok),
                None => forall|i: int| 0 <= i < rows@[k as int]@.len() ==> rows@[k as int]@[i] is Ok,
            }
        },
{
    let mut k: usize = 0;
    while k < rows.len()
        invariant
            k <= rows@.len(),
            forall|i: int| 0 <= i < k ==> row_is_valid(#[trigger] rows@[i]@),
        decreases rows@.len() - k,
    {
        let n = rows[k].len();
        let mut j: usize = 0;
        while j < n
            invariant
                k < rows@.len(),
                n == rows@[k as int]@.len(),
                j <= n,
                forall|i: int| 0 <= i < k ==> row_is_valid(#[trigger] rows@[i]@),
                forall|i: int| 0 <= i < j ==> rows@[k as int]@[i] is Ok,
            decreases n - j,
        {
            if rows[k][j].is_err() {
                assert(!row_is_valid(rows@[k as int]@));
                return Some((k, Some(j)));
            }
            j = j + 1;
        }
        if n < 2 {
            return Some((k, None));
        }
        k = k + 1;
    }
    None
}

/// The entries of rows that are all valid.
fn build_entries(base_time: i64, rows: &Vec<Vec<Result<u32, std::num::ParseFloatError>>>) -> (r: Vec<
    (Coord, Vec<DataPoint>),
>)
    requires
        forall|k: int| 0 <= k < rows@.len() ==> row_is_valid(#[trigger] rows@[k]@),
    ensures
        entries_view(r@) == Seq::new(rows@.len(), |k: int| entry_of(base_time as int, rows@[k]@)),
{
    let mut data: Vec<(Coord, Vec<DataPoint>)> = Vec::new();
    let mut k: usize = 0;
    while k < rows.len()
        invariant
            k <= rows@.len(),
            forall|i: int| 0 <= i < rows@.len() ==> row_is_valid(#[trigger] rows@[i]@),
            entries_view(data@) == Seq::new(k as nat, |i: int| entry_of(base_time as int, rows@[i]@)),
        decreases rows@.len() - k,
    {
        assert(row_is_valid(rows@[k as int]@));
        let n = rows[k].len();
        let mut values: Vec<u32> = Vec::new();
        let mut j: usize = 0;
        while j < n
            invariant
                k < rows@.len(),
                n == rows@[k as int]@.len(),
                j <= n,
                row_is_valid(rows@[k as int]@),
                values@ == values_of(rows@[k as int]@).take(j as int),
            decreases n - j,
        {
            let v = ok_value(&rows[k][j]);
            values.push(v);
            proof {
                assert(values@ =~= values_of(rows@[k as int]@).take(j + 1));
            }
            j = j + 1;
        }
        assert(values@ =~= values_of(rows@[k as int]@));
        let mut series: Vec<DataPoint> = Vec::new();
        let mut i: usize = 2;
        while i < n
            invariant
                2 <= i <= n,
                n == values@.len(),
                series@ =~= series_of(base_time as int, values@.skip(2)).take(i - 2),
            decreases n - i,
        {
            let offset = (i - 2) as i128;
            let timestamp = base_time as i128 + SECONDS_PER_HOUR * offset;
            series.push(DataPoint { power: values[i], timestamp });
            proof {
                assert(series@ =~= series_of(base_time as int, values@.skip(2)).take(i - 1));
            }
            i = i + 1;
        }
        let entry = (Coord { lat: values[0], lon: values[1] }, series);
        proof {
            assert(series@ =~= series_of(base_time as int, values@.skip(2)));
            let ghost next = data@.push(entry);
            assert(entries_view(data@).len() == data@.len());
            assert(data@.len() == k);
            assert(entries_view(next)[k as int] == entry_of(base_time as int, rows@[k as int]@));
            assert forall|m: int| 0 <= m < k implies #[trigger] entries_view(next)[m] == entries_view(
                data@,
            )[m] by {}
            assert(entries_view(data@.push(entry)) =~= Seq::new(
                (k + 1) as nat,
                |i: int| entry_of(base_time as int, rows@[i]@),
            ));
        }
        data.push(entry);
        k = k + 1;
    }
    data
}

fn ok_value(v: &Result<u32, std::num::ParseFloatError>) -> (r: u32)
    requires
        v is Ok,
    ensures
        r == v->Ok_0,
{
    match v {
        Ok(x) => *x,
        Err(_) => 0,
    }
}


/// The error held at field `j` of row `k`.
fn take_error(rows: Vec<Vec<Result<u32, std::num::ParseFloatError>>>, k: usize, j: usize) -> (e: std::num::ParseFloatError)
    requires
        k < rows@.len(),
        j < rows@[k as int]@.len(),
        rows@[k as int]@[j as int] is Err,
    ensures
        e == rows@[k as int]@[j as int]->Err_0,
{
    let mut rest = rows;
    let mut row = rest.swap_remove(k);
    row.swap_remove(j).unwrap_err()
}
} // verus!
