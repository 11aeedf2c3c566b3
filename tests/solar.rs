use amecs_solar::solar::{
    nearest_index, parse_document, parse_header, Coord, DataPoint, ParseError, RawDocument,
    SolarData,
};
use amecs_solar::text::{split_fields, split_lines};

fn read_values(doc: &RawDocument) -> Vec<Vec<Result<u32, std::num::ParseFloatError>>> {
    doc.rows
        .iter()
        .map(|row| row.iter().map(|t| t.parse::<f32>().map(f32::to_bits)).collect())
        .collect()
}

fn parse(text: &str) -> Result<SolarData, ParseError> {
    let doc = parse_document(text)?;
    let values = read_values(&doc);
    SolarData::try_new(doc.base_time, values)
}

fn coord(lat: f32, lon: f32) -> Coord {
    Coord { lat: lat.to_bits(), lon: lon.to_bits() }
}

fn distance_keys(data: &SolarData, at: Coord) -> Vec<u32> {
    let (lat, lon) = (f32::from_bits(at.lat), f32::from_bits(at.lon));
    data.coords()
        .iter()
        .map(|c| {
            let dlat = f32::from_bits(c.lat) - lat;
            let dlon = f32::from_bits(c.lon) - lon;
            (dlat * dlat + dlon * dlon).sqrt().to_bits()
        })
        .collect()
}

const JAN_1_2024: i128 = 1_704_067_200;

#[test]
fn header_without_comma_is_not_valid() {
    assert!(matches!(parse("not-a-header"), Err(ParseError::HeaderLineIsNotValid)));
}

#[test]
fn header_with_other_zone_is_refused() {
    assert!(matches!(
        parse("2024/01/01 00:00:00,JST"),
        Err(ParseError::NonUtcZoneSupplied)
    ));
}

#[test]
fn header_with_other_date_pattern_is_invalid_base_time() {
    assert!(matches!(parse("2024-01-01,UTC"), Err(ParseError::InvalidBaseTime(_))));
}

#[test]
fn empty_input_has_no_header() {
    assert!(matches!(parse(""), Err(ParseError::HeaderLineIsNotFound)));
}

#[test]
fn unreadable_value_is_invalid_value() {
    let r = parse("2024/01/01 00:00:00,UTC\n35.0,x");
    assert!(matches!(r, Err(ParseError::InvalidValueInData(_))));
}

#[test]
fn single_value_line_is_invalid_line() {
    let r = parse("2024/01/01 00:00:00,UTC\n35.0");
    assert!(matches!(r, Err(ParseError::InvalidLineWasSupplied)));
}

#[test]
fn empty_body_line_is_invalid_value() {
    let r = parse("2024/01/01 00:00:00,UTC\n35.0,139.0\n\n36.0,140.0");
    assert!(matches!(r, Err(ParseError::InvalidValueInData(_))));
}

#[test]
fn first_bad_line_decides_the_error() {
    let r = parse("2024/01/01 00:00:00,UTC\n35.0\n35.0,x");
    assert!(matches!(r, Err(ParseError::InvalidLineWasSupplied)));
    let r = parse("2024/01/01 00:00:00,UTC\n35.0,x\n35.0");
    assert!(matches!(r, Err(ParseError::InvalidValueInData(_))));
}

#[test]
fn end_to_end_single_entry() {
    let text = "2024/01/01 00:00:00,UTC\n35.0,139.0,100.5,200.25\n";
    let data = parse(text).unwrap();
    assert_eq!(data.len(), 1);
    let (c, series) = data.entry(0);
    assert_eq!(c, coord(35.0, 139.0));
    assert_eq!(
        series,
        &[
            DataPoint { power: 100.5f32.to_bits(), timestamp: JAN_1_2024 },
            DataPoint { power: 200.25f32.to_bits(), timestamp: JAN_1_2024 + 3600 },
        ][..]
    );
    let query = coord(35.0, 139.0);
    let (found, found_series) = data.nearest_series_data(&distance_keys(&data, query));
    assert_eq!(found, c);
    assert_eq!(found_series, series);
}

#[test]
fn entries_follow_line_order() {
    let text = "2024/01/01 00:00:00,UTC\n35.0,139.0,1\n36.0,140.0\n34.0,138.0,1,2,3";
    let data = parse(text).unwrap();
    assert_eq!(data.len(), 3);
    assert_eq!(data.entry(0).0, coord(35.0, 139.0));
    assert_eq!(data.entry(1).0, coord(36.0, 140.0));
    assert_eq!(data.entry(2).0, coord(34.0, 138.0));
    assert_eq!(data.entry(0).1.len(), 1);
    assert!(data.entry(1).1.is_empty());
    assert_eq!(data.entry(2).1.len(), 3);
}

#[test]
fn series_is_hourly_from_base_time() {
    let text = "2024/03/10 05:00:00,UTC\n35.0,139.0,1,2,3,4";
    let data = parse(text).unwrap();
    let series = data.entry(0).1;
    let base: i128 = 1_710_046_800;
    assert_eq!(series[0].timestamp, base);
    for (i, w) in series.windows(2).enumerate() {
        assert_eq!(w[1].timestamp - w[0].timestamp, 3600, "step {i}");
    }
    assert_eq!(series[3].power, 4.0f32.to_bits());
}

#[test]
fn header_gives_base_time() {
    assert_eq!(parse_header("2024/01/01 00:00:00,UTC").unwrap(), 1_704_067_200);
    assert_eq!(parse_header("1970/01/02 00:00:01,UTC  ").unwrap(), 86_401);
    assert!(matches!(parse_header("2024/01/01 00:00:00,UTC,x"), Err(ParseError::NonUtcZoneSupplied)));
    assert!(matches!(parse_header("2024/13/01 00:00:00,UTC"), Err(ParseError::InvalidBaseTime(_))));
}

#[test]
fn carriage_returns_are_dropped() {
    let data = parse("2024/01/01 00:00:00,UTC\r\n35.0,139.0,7\r\n").unwrap();
    assert_eq!(data.len(), 1);
    assert_eq!(data.entry(0).1[0].power, 7.0f32.to_bits());
}

#[test]
fn lines_split_like_bufread() {
    assert_eq!(split_lines("a\r\nb\n\nc"), vec!["a", "b", "", "c"]);
    assert_eq!(split_lines("a\n"), vec!["a"]);
    assert!(split_lines("").is_empty());
    assert_eq!(split_lines("a\r"), vec!["a\r"]);
}

#[test]
fn fields_keep_empty_pieces() {
    assert_eq!(split_fields("1,,2,", ','), vec!["1", "", "2", ""]);
    assert_eq!(split_fields("", ','), vec![""]);
}

#[test]
fn nearest_prefers_least_distance_then_first() {
    assert_eq!(nearest_index(&vec![5, 3, 4, 3]), 1);
    assert_eq!(nearest_index(&vec![7]), 0);
    assert_eq!(nearest_index(&vec![2, 2, 2]), 0);
}

#[test]
fn nearest_entry_of_several() {
    let text = "2024/01/01 00:00:00,UTC\n35.0,139.0,1\n34.0,135.0,2\n34.0,135.0,3";
    let data = parse(text).unwrap();
    let (c, series) = data.nearest_series_data(&distance_keys(&data, coord(34.1, 135.2)));
    assert_eq!(c, coord(34.0, 135.0));
    assert_eq!(series[0].power, 2.0f32.to_bits());
}

#[test]
fn planar_distance_is_symmetric() {
    let data = parse("2024/01/01 00:00:00,UTC\n35.0,139.0\n36.5,137.25").unwrap();
    let a = data.entry(0).0;
    let b = data.entry(1).0;
    let ab = distance_keys(&data, a)[1];
    let ba = distance_keys(&data, b)[0];
    assert_eq!(ab, ba);
    assert_eq!(distance_keys(&data, a)[0], 0.0f32.to_bits());
}
