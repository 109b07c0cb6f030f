use csv::StringRecord;
use locate_points::coord::Point;
use locate_points::finder::PolygonFinder;
use locate_points::geometry::Placement;
use locate_points::join::{
    coordinate_fields, fill_error_row, header_row, join_row, record_size, spatial_polygons_join,
    Joined, Outcome, ProcessStats, Row,
};

const SQUARES: &str = r#"{
  "type": "FeatureCollection",
  "features": [
    {"type": "Feature", "properties": {"a": "x"},
     "geometry": {"type": "Polygon", "coordinates": [[[0, 0], [1, 0], [1, 1], [0, 1], [0, 0]]]}},
    {"type": "Feature", "properties": {"a": "y", "b": 7},
     "geometry": {"type": "Polygon", "coordinates": [[[2, 0], [3, 0], [3, 1], [2, 1], [2, 0]]]}}
  ]
}"#;

/// Every feature is a candidate, in the order of the index; the squares do
/// not overlap, so the exact test is the test of the rectangle.
fn all(finder: &PolygonFinder, latitude: Option<f64>, longitude: Option<f64>) -> Vec<usize> {
    match (latitude, longitude) {
        (Some(lat), Some(lon)) => {
            let p = Point { x: lon.to_bits(), y: lat.to_bits() };
            let mut near: Vec<usize> = (0..finder.len()).collect();
            near.sort_by_key(|&i| !finder.feature(i).bbox().contains_point(&p));
            near
        }
        _ => Vec::new(),
    }
}

fn row(finder: &PolygonFinder, fields: Vec<&str>, latitude_idx: usize, longitude_idx: usize) -> Row {
    let record = StringRecord::from(fields);
    let (latitude, longitude) = coordinate_fields(&record, latitude_idx, longitude_idx);
    let latitude = latitude.and_then(|v| v.parse::<f64>().ok());
    let longitude = longitude.and_then(|v| v.parse::<f64>().ok());
    Row {
        candidates: all(finder, latitude, longitude),
        latitude: latitude.map(f64::to_bits),
        longitude: longitude.map(f64::to_bits),
        record: Some(record),
    }
}

fn exact(_: usize, _: &Point) -> Placement {
    Placement::Inside
}

fn fields(joined: &Joined) -> Vec<String> {
    joined.record.as_ref().unwrap().iter().map(String::from).collect()
}

#[test]
fn a_missing_property_gets_the_sentinel() {
    let finder = PolygonFinder::new(SQUARES).unwrap();
    let joined = join_row(&finder, &row(&finder, vec!["id1", "0.5", "0.5"], 1, 2), &vec!["a", "b"], false, &exact);
    assert_eq!(joined.outcome, Outcome::Found);
    assert_eq!(fields(&joined), vec!["id1", "0.5", "0.5", "x", "-"]);

    let joined = join_row(&finder, &row(&finder, vec!["id2", "0.5", "2.5"], 1, 2), &vec!["a", "b"], true, &exact);
    assert_eq!(joined.outcome, Outcome::Found);
    assert_eq!(fields(&joined), vec!["id2", "0.5", "2.5", "y", "7", "success"]);
}

#[test]
fn a_coordinate_that_is_no_number_is_an_error() {
    let finder = PolygonFinder::new(SQUARES).unwrap();
    let input = row(&finder, vec!["foo", "bar", "notanum", "5.0"], 2, 3);
    assert_eq!(input.latitude, None);
    assert_eq!(input.longitude, Some(5.0f64.to_bits()));
    let properties = vec!["a", "b"];
    let joined = join_row(&finder, &input, &properties, true, &exact);
    assert_eq!(joined.outcome, Outcome::InvalidCoordinates);
    assert_eq!(fields(&joined), vec!["foo", "bar", "notanum", "5.0", "", "", "error"]);

    let (rows, stats) = spatial_polygons_join(&finder, &vec![input], &properties, true, &exact);
    assert_eq!(stats, ProcessStats { total_lines: 1, error_lines: 1 });
    assert_eq!(fields(&rows[0]), vec!["foo", "bar", "notanum", "5.0", "", "", "error"]);

    // without a status the row gets the empty fields alone
    let input = row(&finder, vec!["foo", "bar", "notanum", "5.0"], 2, 3);
    let joined = join_row(&finder, &input, &properties, false, &exact);
    assert_eq!(fields(&joined), vec!["foo", "bar", "notanum", "5.0", "", ""]);

    // a row that lacks the field is an error too
    let input = row(&finder, vec!["0.5"], 0, 4);
    assert_eq!(input.longitude, None);
    let joined = join_row(&finder, &input, &properties, true, &exact);
    assert_eq!(joined.outcome, Outcome::InvalidCoordinates);
    assert_eq!(fields(&joined), vec!["0.5", "", "", "error"]);
}

#[test]
fn a_miss_passes_the_row_through_unless_a_status_is_written() {
    let finder = PolygonFinder::new(SQUARES).unwrap();
    let properties = vec!["a"];
    let joined = join_row(&finder, &row(&finder, vec!["5", "5"], 0, 1), &properties, false, &exact);
    assert_eq!(joined.outcome, Outcome::NotFound);
    assert_eq!(fields(&joined), vec!["5", "5"]);

    let joined = join_row(&finder, &row(&finder, vec!["5", "5"], 0, 1), &properties, true, &exact);
    assert_eq!(joined.outcome, Outcome::NotFound);
    assert_eq!(fields(&joined), vec!["5", "5", "", "error"]);
}

#[test]
fn the_point_of_a_row_has_the_longitude_as_x() {
    let finder = PolygonFinder::new(SQUARES).unwrap();
    // latitude 0.5, longitude 2.5 lies in the second square; the other way
    // round it lies in none
    let joined = join_row(&finder, &row(&finder, vec!["0.5", "2.5"], 0, 1), &vec!["a"], false, &exact);
    assert_eq!(fields(&joined), vec!["0.5", "2.5", "y"]);
    let joined = join_row(&finder, &row(&finder, vec!["0.5", "2.5"], 1, 0), &vec!["a"], false, &exact);
    assert_eq!(joined.outcome, Outcome::NotFound);
}

#[test]
fn the_exact_test_decides_among_the_rectangles() {
    let finder = PolygonFinder::new(SQUARES).unwrap();
    let input = row(&finder, vec!["0.5", "0.5"], 0, 1);
    let joined = join_row(&finder, &input, &vec!["a"], true, &|_: usize, _: &Point| Placement::Outside);
    assert_eq!(joined.outcome, Outcome::NotFound);
    assert_eq!(fields(&joined), vec!["0.5", "0.5", "", "error"]);
}

#[test]
fn rows_keep_their_order_and_are_all_counted() {
    let finder = PolygonFinder::new(SQUARES).unwrap();
    let rows = vec![
        row(&finder, vec!["r0", "0.5", "0.5"], 1, 2),
        Row { record: None, latitude: None, longitude: None, candidates: Vec::new() },
        row(&finder, vec!["r2", "0.5", "9"], 1, 2),
        row(&finder, vec!["r3", "0.25", "2.75"], 1, 2),
        row(&finder, vec!["r4", "", "2.75"], 1, 2),
        row(&finder, vec!["r5"], 1, 2),
    ];
    let (joined, stats) = spatial_polygons_join(&finder, &rows, &vec!["b", "a"], true, &exact);
    assert_eq!(joined.len(), rows.len());
    let outcomes: Vec<Outcome> = joined.iter().map(|j| j.outcome).collect();
    assert_eq!(
        outcomes,
        vec![
            Outcome::Found,
            Outcome::Unreadable,
            Outcome::NotFound,
            Outcome::Found,
            Outcome::InvalidCoordinates,
            Outcome::InvalidCoordinates,
        ]
    );
    assert_eq!(fields(&joined[0]), vec!["r0", "0.5", "0.5", "-", "x", "success"]);
    assert!(joined[1].record.is_none());
    assert_eq!(fields(&joined[2]), vec!["r2", "0.5", "9", "", "", "error"]);
    assert_eq!(fields(&joined[3]), vec!["r3", "0.25", "2.75", "7", "y", "success"]);
    assert_eq!(fields(&joined[4]), vec!["r4", "", "2.75", "", "", "error"]);
    assert_eq!(fields(&joined[5]), vec!["r5", "", "", "error"]);
    assert_eq!(stats, ProcessStats { total_lines: 6, error_lines: 4 });
    assert!(stats.error_lines <= stats.total_lines);

    let (joined, stats) = spatial_polygons_join(&finder, &Vec::new(), &vec!["a"], true, &exact);
    assert!(joined.is_empty());
    assert_eq!(stats, ProcessStats { total_lines: 0, error_lines: 0 });
}

#[test]
fn the_header_gets_the_keys_and_the_status() {
    let header = StringRecord::from(vec!["id", "lat", "lon"]);
    let with_status = header_row(&header, &vec!["a", "b"], true);
    assert_eq!(with_status, vec!["id", "lat", "lon", "a", "b", "status"]);
    let without = header_row(&header, &vec!["a", "b"], false);
    assert_eq!(without, vec!["id", "lat", "lon", "a", "b"]);
    let bare = header_row(&StringRecord::new(), &Vec::new(), false);
    assert_eq!(bare.len(), 0);
}

#[test]
fn an_error_row_gets_empty_fields_and_the_status() {
    let mut record = StringRecord::from(vec!["1", "2"]);
    fill_error_row(&vec!["a", "b", "c"], "COORDINATES_NOT_FOUND", &mut record);
    assert_eq!(record, vec!["1", "2", "", "", "", "error"]);
    let mut record = StringRecord::new();
    fill_error_row(&Vec::new(), "", &mut record);
    assert_eq!(record, vec!["error"]);
}

#[test]
fn the_size_of_a_row_is_the_sum_of_its_fields_in_bytes() {
    assert_eq!(record_size(&StringRecord::from(vec!["foo", "", "ab"])), 5);
    assert_eq!(record_size(&StringRecord::from(vec!["é", "日本"])), 8);
    assert_eq!(record_size(&StringRecord::new()), 0);
}

#[test]
fn the_counts_follow_the_outcomes() {
    let mut stats = ProcessStats::new();
    assert_eq!(stats, ProcessStats { total_lines: 0, error_lines: 0 });
    stats.count(Outcome::Found);
    stats.count(Outcome::NotFound);
    stats.count(Outcome::Unreadable);
    stats.count(Outcome::InvalidCoordinates);
    stats.count(Outcome::Found);
    assert_eq!(stats, ProcessStats { total_lines: 5, error_lines: 3 });
}

#[test]
fn the_coordinate_fields_are_those_at_the_given_places() {
    let record = StringRecord::from(vec!["a", "19.5", "-103.25"]);
    assert_eq!(coordinate_fields(&record, 1, 2), (Some("19.5"), Some("-103.25")));
    assert_eq!(coordinate_fields(&record, 2, 0), (Some("-103.25"), Some("a")));
    assert_eq!(coordinate_fields(&record, 3, 1), (None, Some("19.5")));
}
