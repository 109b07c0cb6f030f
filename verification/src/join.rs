//! The join of rows against the index: each row gets the properties of the
//! feature that holds its point.

use vstd::prelude::*;

use crate::coord::Point;
use crate::finder::{search_ends, FinderView, PolygonFinder, Probe};
use crate::geometry::Placement;
use crate::properties::PropertyMap;
use crate::record::{copy_of, field, field_count, fields, push_field};

verus! {

/// How many rows a join has seen, and how many of them got no properties.
#[derive(Clone, Copy, Debug, PartialEq, Eq, Structural)]
pub struct ProcessStats {
    pub total_lines: u32,
    pub error_lines: u32,
}

/// What became of a row.
#[derive(Clone, Copy, Debug, PartialEq, Eq, Structural)]
pub enum Outcome {
    /// The row could not be read.
    Unreadable,
    /// The latitude or the longitude is missing or is no number.
    InvalidCoordinates,
    /// No feature holds the point.
    NotFound,
    /// A feature holds the point.
    Found,
}

impl Outcome {
    /// The row counts as an error: it is anything but `Found`.
    pub open spec fn is_error(self) -> bool {
        self != Outcome::Found
    }
}

/// How many of the outcomes are errors.
pub open spec fn errors(outcomes: Seq<Outcome>) -> nat
    decreases outcomes.len(),
{
    if outcomes.len() == 0 {
        0
    } else {
        errors(outcomes.drop_last()) + if outcomes.last().is_error() { 1nat } else { 0nat }
    }
}

/// No more rows are errors than there are rows.
pub proof fn lemma_errors_bounded(outcomes: Seq<Outcome>)
    ensures
        errors(outcomes) <= outcomes.len(),
    decreases outcomes.len(),
{
    if outcomes.len() > 0 {
        lemma_errors_bounded(outcomes.drop_last());
    }
}

impl ProcessStats {
    /// No more rows are errors than were seen.
    pub open spec fn wf(self) -> bool {
        self.error_lines <= self.total_lines
    }

    /// The counts of the given outcomes, one for each row seen.
    pub open spec fn counts(self, outcomes: Seq<Outcome>) -> bool {
        self.total_lines == outcomes.len() && self.error_lines == errors(outcomes)
    }

    /// No row seen yet.
    pub fn new() -> (stats: ProcessStats)
        ensures
            stats.counts(Seq::empty()),
            stats.wf(),
    {
        ProcessStats { total_lines: 0, error_lines: 0 }
    }

    /// Counts one more row, and one more error unless the row was `Found`.
    pub fn count(&mut self, outcome: Outcome)
        requires
            old(self).wf(),
            old(self).total_lines < u32::MAX,
        ensures
            final(self).total_lines == old(self).total_lines + 1,
            final(self).error_lines == old(self).error_lines + if outcome.is_error() {
                1int
            } else {
                0int
            },
            final(self).wf(),
            forall|seen: Seq<Outcome>|
                old(self).counts(seen) ==> final(self).counts(seen.push(outcome)),
    {
        self.total_lines = self.total_lines + 1;
        match outcome {
            Outcome::Found => {},
            _ => {
                self.error_lines = self.error_lines + 1;
            },
        }
        proof {
            assert forall|seen: Seq<Outcome>| old(self).counts(seen) implies self.counts(
                seen.push(outcome),
            ) by {
                assert(seen.push(outcome).drop_last() =~= seen);
            }
        }
    }
}

/// The texts of the keys.
pub open spec fn texts(keys: Seq<&str>) -> Seq<Seq<char>> {
    keys.map_values(|k: &str| k@)
}

/// As many empty fields as asked for.
pub open spec fn blanks(n: nat) -> Seq<Seq<char>> {
    Seq::new(n, |i: int| ""@)
}

/// The value of each key in the properties, `-` for a key that they lack.
pub open spec fn values(properties: Map<Seq<char>, Seq<char>>, keys: Seq<Seq<char>>) -> Seq<
    Seq<char>,
> {
    keys.map_values(
        |k: Seq<char>|
            if properties.dom().contains(k) {
                properties[k]
            } else {
                "-"@
            },
    )
}

/// The status field, where one is asked for.
pub open spec fn status(write_status: bool, text: Seq<char>) -> Seq<Seq<char>> {
    if write_status {
        seq![text]
    } else {
        Seq::empty()
    }
}

/// The header of the output: the header of the input, the keys, and
/// `status` where a status is asked for.
pub open spec fn header_fields(
    header: Seq<Seq<char>>,
    keys: Seq<Seq<char>>,
    write_status: bool,
) -> Seq<Seq<char>> {
    header + keys + status(write_status, "status"@)
}

/// The fields of a row whose coordinates are missing or are no numbers: the
/// row, an empty field for each key, and `error` where a status is asked for.
pub open spec fn invalid_fields(
    row: Seq<Seq<char>>,
    keys: Seq<Seq<char>>,
    write_status: bool,
) -> Seq<Seq<char>> {
    row + blanks(keys.len()) + status(write_status, "error"@)
}

/// The fields of a row whose point no feature holds: with a status, the row,
/// an empty field for each key and `error`; without one, the row as it came.
pub open spec fn missed_fields(
    row: Seq<Seq<char>>,
    keys: Seq<Seq<char>>,
    write_status: bool,
) -> Seq<Seq<char>> {
    if write_status {
        row + blanks(keys.len()) + seq!["error"@]
    } else {
        row
    }
}

/// The fields of a row whose point a feature holds: the row, the value of
/// each key, and `success` where a status is asked for.
pub open spec fn found_fields(
    row: Seq<Seq<char>>,
    properties: Map<Seq<char>, Seq<char>>,
    keys: Seq<Seq<char>>,
    write_status: bool,
) -> Seq<Seq<char>> {
    row + values(properties, keys) + status(write_status, "success"@)
}

/// The sum of the lengths of the fields of a row, in bytes.
pub open spec fn row_bytes(row: Seq<Seq<char>>) -> nat
    decreases row.len(),
{
    if row.len() == 0 {
        0
    } else {
        row_bytes(row.drop_last()) + vstd::utf8::encode_utf8(row.last()).len()
    }
}

/// The size of a row for the progress report: the sum of the lengths of its
/// fields in bytes, or the greatest `u64` where the sum is beyond it.
pub fn record_size(record: &csv::StringRecord) -> (size: u64)
    ensures
        size == if row_bytes(fields(*record)) <= u64::MAX {
            row_bytes(fields(*record))
        } else {
            u64::MAX as nat
        },
{
    let n: usize = field_count(record);
    let mut size: u64 = 0;
    let mut i: usize = 0;
    while i < n
        invariant
            i <= n,
            n == fields(*record).len(),
            size == if row_bytes(fields(*record).take(i as int)) <= u64::MAX {
                row_bytes(fields(*record).take(i as int))
            } else {
                u64::MAX as nat
            },
        decreases n - i,
    {
        proof {
            let upto = fields(*record).take(i + 1);
            assert(upto.drop_last() =~= fields(*record).take(i as int));
            assert(upto.last() == fields(*record)[i as int]);
        }
        match field(record, i) {
            Some(text) => {
                let len: u64 = text.as_bytes().len() as u64;
                size = if len <= u64::MAX - size {
                    size + len
                } else {
                    u64::MAX
                };
            },
            None => {},
        }
        i = i + 1;
    }
    proof {
        assert(fields(*record).take(n as int) =~= fields(*record));
    }
    size
}

/// Adds an empty field for each key.
fn push_blanks(properties: &Vec<&str>, new_record: &mut csv::StringRecord)
    ensures
        fields(*final(new_record)) == fields(*old(new_record)) + blanks(properties@.len()),
{
    let mut i: usize = 0;
    while i < properties.len()
        invariant
            i <= properties@.len(),
            fields(*new_record) == fields(*old(new_record)) + blanks(i as nat),
        decreases properties@.len() - i,
    {
        push_field(new_record, "");
        assert(fields(*new_record) =~= fields(*old(new_record)) + blanks((i + 1) as nat));
        i = i + 1;
    }
}

/// Marks a row as an error: adds an empty field for each key, and the status
/// `error`.
pub fn fill_error_row(
    properties: &Vec<&str>,
    _err_message: &str,
    new_record: &mut csv::StringRecord,
)
    ensures
        fields(*final(new_record)) == fields(*old(new_record)) + blanks(properties@.len()) + seq![
            "error"@,
        ],
{
    push_blanks(properties, new_record);
    push_field(new_record, "error");
    assert(fields(*new_record) =~= fields(*old(new_record)) + blanks(properties@.len()) + seq![
        "error"@,
    ]);
}

/// The header of the output: the header of the input, the keys, and
/// `status` where a status is asked for.
pub fn header_row(header: &csv::StringRecord, properties: &Vec<&str>, write_status: bool) -> (r:
    csv::StringRecord)
    ensures
        fields(r) == header_fields(fields(*header), texts(properties@), write_status),
{
    let mut new_header = copy_of(header);
    let mut i: usize = 0;
    while i < properties.len()
        invariant
            i <= properties@.len(),
            fields(new_header) == fields(*header) + texts(properties@).take(i as int),
        decreases properties@.len() - i,
    {
        push_field(&mut new_header, properties[i]);
        assert(fields(new_header) =~= fields(*header) + texts(properties@).take(i + 1));
        i = i + 1;
    }
    assert(texts(properties@).take(properties@.len() as int) =~= texts(properties@));
    if write_status {
        push_field(&mut new_header, "status");
    }
    assert(fields(new_header) =~= header_fields(fields(*header), texts(properties@), write_status));
    new_header
}

/// Adds the value of each key in the properties, `-` for a key that they
/// lack.
fn push_values(properties: &Vec<&str>, found: &PropertyMap, new_record: &mut csv::StringRecord)
    ensures
        fields(*final(new_record)) == fields(*old(new_record)) + values(found@, texts(properties@)),
{
    let ghost keys = texts(properties@);
    let mut i: usize = 0;
    while i < properties.len()
        invariant
            i <= properties@.len(),
            keys == texts(properties@),
            fields(*new_record) == fields(*old(new_record)) + values(found@, keys).take(i as int),
        decreases properties@.len() - i,
    {
        assert(keys[i as int] == properties@[i as int]@);
        match found.get(properties[i]) {
            Some(value) => {
                push_field(new_record, value.as_str());
            },
            None => {
                push_field(new_record, "-");
            },
        }
        assert(fields(*new_record) =~= fields(*old(new_record)) + values(found@, keys).take(i + 1));
        i = i + 1;
    }
    assert(values(found@, keys).take(properties@.len() as int) =~= values(found@, keys));
}

/// A row of the input, with what was read off it.
#[derive(Debug)]
pub struct Row {
    /// The row, or nothing where it could not be read.
    pub record: Option<csv::StringRecord>,
    /// The latitude as the bits of a double, or nothing where the field is
    /// missing or is no number.
    pub latitude: Option<u64>,
    /// The longitude, in the same way.
    pub longitude: Option<u64>,
    /// The positions in the index of the features nearest to the point of the
    /// row, nearest bounding rectangle first.
    pub candidates: Vec<usize>,
}

/// A row of the output.
#[derive(Debug)]
pub struct Joined {
    /// The row to write, or nothing where the row could not be read.
    pub record: Option<csv::StringRecord>,
    /// What became of the row.
    pub outcome: Outcome,
}

/// The outcome of each row.
pub open spec fn outcomes(joined: Seq<Joined>) -> Seq<Outcome> {
    joined.map_values(|j: Joined| j.outcome)
}

/// `joined` is the row of the output for `row`.
///
/// A row that could not be read gives no row. A row without latitude or
/// longitude gives `invalid_fields`. Any other row is searched for, at the
/// point whose `x` is its longitude and whose `y` is its latitude: a hit gives
/// `found_fields` with the properties of the feature, a miss `missed_fields`.
pub open spec fn row_joins<F: Fn(usize, &Point) -> Placement>(
    finder: FinderView,
    within: F,
    row: Row,
    keys: Seq<Seq<char>>,
    write_status: bool,
    joined: Joined,
) -> bool {
    match row.record {
        None => joined.record is None && joined.outcome == Outcome::Unreadable,
        Some(record) => {
            &&& joined.record is Some
            &&& if row.latitude is None || row.longitude is None {
                &&& joined.outcome == Outcome::InvalidCoordinates
                &&& fields(joined.record->0) == invalid_fields(fields(record), keys, write_status)
            } else {
                exists|probe: Probe|
                    {
                        &&& search_ends(
                            finder,
                            within,
                            row.candidates@,
                            Point { x: row.longitude->0, y: row.latitude->0 },
                            probe,
                        )
                        &&& match probe.hit {
                            Some(c) => {
                                &&& joined.outcome == Outcome::Found
                                &&& fields(joined.record->0) == found_fields(
                                    fields(record),
                                    finder.features[c as int].properties,
                                    keys,
                                    write_status,
                                )
                            },
                            None => {
                                &&& joined.outcome == Outcome::NotFound
                                &&& fields(joined.record->0) == missed_fields(
                                    fields(record),
                                    keys,
                                    write_status,
                                )
                            },
                        }
                    }
            }
        },
    }
}

/// The fields of a row that hold its latitude and its longitude, each where
/// the row has a field at that place.
pub fn coordinate_fields<'a>(
    record: &'a csv::StringRecord,
    latitude_idx: usize,
    longitude_idx: usize,
) -> (r: (Option<&'a str>, Option<&'a str>))
    ensures
        match r.0 {
            Some(text) => latitude_idx < fields(*record).len() && text@ == fields(
                *record,
            )[latitude_idx as int],
            None => latitude_idx >= fields(*record).len(),
        },
        match r.1 {
            Some(text) => longitude_idx < fields(*record).len() && text@ == fields(
                *record,
            )[longitude_idx as int],
            None => longitude_idx >= fields(*record).len(),
        },
{
    (field(record, latitude_idx), field(record, longitude_idx))
}

/// Joins one row against the index. `within` is the exact test that
/// `PolygonFinder::probe` describes.
pub fn join_row<F: Fn(usize, &Point) -> Placement>(
    geo_finder: &PolygonFinder,
    row: &Row,
    properties: &Vec<&str>,
    write_status: bool,
    within: &F,
) -> (joined: Joined)
    requires
        forall|c: usize, p: &Point| within.requires((c, p)),
    ensures
        row_joins(geo_finder@, *within, *row, texts(properties@), write_status, joined),
{
    let record = match &row.record {
        Some(record) => record,
        None => {
            return Joined { record: None, outcome: Outcome::Unreadable };
        },
    };
    let ghost keys = texts(properties@);
    let mut new_record = copy_of(record);
    let (latitude, longitude) = match (row.latitude, row.longitude) {
        (Some(latitude), Some(longitude)) => (latitude, longitude),
        _ => {
            push_blanks(properties, &mut new_record);
            if write_status {
                push_field(&mut new_record, "error");
            }
            assert(fields(new_record) =~= invalid_fields(fields(*record), keys, write_status));
            return Joined { record: Some(new_record), outcome: Outcome::InvalidCoordinates };
        },
    };
    let ghost point = Point { x: longitude, y: latitude };
    let found = geo_finder.find(latitude, longitude, &row.candidates, within);
    let ghost probe = choose|probe: Probe|
        {
            &&& search_ends(geo_finder@, *within, row.candidates@, point, probe)
            &&& match found {
                Some(found) => {
                    &&& probe.hit is Some
                    &&& found.props@ == geo_finder@.features[probe.hit->0 as int].properties
                    &&& found.distance == 0
                },
                None => probe.hit is None,
            }
        };
    let outcome = match found {
        Some(find_result) => {
            push_values(properties, find_result.props, &mut new_record);
            if write_status {
                push_field(&mut new_record, "success");
            }
            assert(fields(new_record) =~= found_fields(
                fields(*record),
                geo_finder@.features[probe.hit->0 as int].properties,
                keys,
                write_status,
            ));
            Outcome::Found
        },
        None => {
            if write_status {
                fill_error_row(properties, "", &mut new_record);
            }
            assert(fields(new_record) =~= missed_fields(fields(*record), keys, write_status));
            Outcome::NotFound
        },
    };
    Joined { record: Some(new_record), outcome }
}

/// Joins the rows against the index, in their order.
///
/// The output has one row for each row of the input, at the same place, and
/// the counts are those of the outcomes: every row is counted, and every row
/// that is not `Found` is counted as an error.
pub fn spatial_polygons_join<F: Fn(usize, &Point) -> Placement>(
    geo_finder: &PolygonFinder,
    rows: &Vec<Row>,
    properties: &Vec<&str>,
    write_status: bool,
    within: &F,
) -> (r: (Vec<Joined>, ProcessStats))
    requires
        rows@.len() <= u32::MAX,
        forall|c: usize, p: &Point| within.requires((c, p)),
    ensures
        r.0@.len() == rows@.len(),
        forall|i: int|
            0 <= i < rows@.len() ==> row_joins(
                geo_finder@,
                *within,
                #[trigger] rows@[i],
                texts(properties@),
                write_status,
                r.0@[i],
            ),
        r.1.counts(outcomes(r.0@)),
        r.1.total_lines == rows@.len(),
        r.1.error_lines <= r.1.total_lines,
{
    let mut out: Vec<Joined> = Vec::new();
    let mut stats = ProcessStats::new();
    let mut i: usize = 0;
    assert(outcomes(out@) =~= Seq::empty());
    while i < rows.len()
        invariant
            i <= rows@.len(),
            rows@.len() <= u32::MAX,
            forall|c: usize, p: &Point| within.requires((c, p)),
            out@.len() == i,
            forall|j: int|
                0 <= j < i ==> row_joins(
                    geo_finder@,
                    *within,
                    #[trigger] rows@[j],
                    texts(properties@),
                    write_status,
                    out@[j],
                ),
            stats.counts(outcomes(out@)),
            stats.wf(),
        decreases rows@.len() - i,
    {
        let joined = join_row(geo_finder, &rows[i], properties, write_status, within);
        let ghost before = outcomes(out@);
        stats.count(joined.outcome);
        out.push(joined);
        assert(outcomes(out@) =~= before.push(joined.outcome));
        i = i + 1;
    }
    (out, stats)
}

/// Whatever the rows, a join counts each of them, and no more of them as
/// errors than there are.
pub proof fn lemma_stats_bounded(stats: ProcessStats, joined: Seq<Joined>)
    requires
        stats.counts(outcomes(joined)),
    ensures
        stats.total_lines == joined.len(),
        stats.error_lines <= stats.total_lines,
{
    lemma_errors_bounded(outcomes(joined));
}

} // verus!
