//! The format of an index as bytes, and the proof that what is written is
//! read back.
//!
//! An index is written as a tag, which names the format, the number of
//! nearest features that a search looks at, and the features: of each its
//! geometry and its properties. Every number is eight bytes, lowest first; a
//! list is the number of its items and then the items; a text is the number
//! of its bytes in UTF-8 and then the bytes. The bounding rectangles are not
//! written: they are those of the geometries.

use vstd::bytes::{
    lemma_auto_spec_u64_to_from_le_bytes, spec_u64_from_le_bytes, spec_u64_to_le_bytes,
};
use vstd::prelude::*;
use vstd::utf8::{
    decode_utf8, encode_utf8, encode_utf8_decode_utf8, encode_utf8_valid_utf8, valid_utf8,
};

use crate::coord::Point;
use crate::feature::IndexableView;
use crate::finder::FinderView;
use crate::geometry::{AreaView, PolygonView};
use crate::properties::entries_map;

verus! {


/// The tag of the format: the bytes `GEOIDX`, a zero and the version 1.
pub const FORMAT_TAG: u64 = 0x0100_5844_494f_4547;

/// The tag of a polygon.
pub const TAG_POLYGON: u64 = 0;

/// The tag of a multi-polygon.
pub const TAG_MULTI_POLYGON: u64 = 1;

/// The tag of a point.
pub const TAG_POINT: u64 = 2;

/// Why bytes give no index.
#[derive(Clone, Copy, Debug, PartialEq, Eq, Structural)]
pub enum CodecError {
    /// The bytes end too early, go on too long, or hold what no index holds.
    Corrupt,
    /// The bytes start with the tag of another format or version.
    VersionMismatch,
}

/// What the bytes hold of a feature: its geometry and the entries of its
/// properties.
pub struct Parts {
    pub area: AreaView,
    pub entries: Seq<(Seq<char>, Seq<char>)>,
}

impl Parts {
    /// The geometry can stand in an index: it has a point, and every point
    /// of it is finite.
    pub open spec fn sound(self) -> bool {
        self.area.mbr() is Some && self.area.is_finite()
    }
}

/// A number as bytes.
pub open spec fn put_u64(v: u64) -> Seq<u8> {
    spec_u64_to_le_bytes(v)
}

/// The number that the bytes start with, and the bytes behind it.
pub open spec fn take_u64(s: Seq<u8>) -> Option<(u64, Seq<u8>)> {
    if s.len() >= 8 {
        Some((spec_u64_from_le_bytes(s.subrange(0, 8)), s.skip(8)))
    } else {
        None
    }
}

/// Items as bytes, one after the other.
pub open spec fn put_many<T>(items: Seq<T>, put: spec_fn(T) -> Seq<u8>) -> Seq<u8>
    decreases items.len(),
{
    if items.len() == 0 {
        Seq::empty()
    } else {
        put_many(items.drop_last(), put) + put(items.last())
    }
}

/// The `n` items that the bytes start with, and the bytes behind them.
pub open spec fn take_many<T>(
    s: Seq<u8>,
    n: nat,
    item: spec_fn(Seq<u8>) -> Option<(T, Seq<u8>)>,
) -> Option<(Seq<T>, Seq<u8>)>
    decreases n,
{
    if n == 0 {
        Some((Seq::empty(), s))
    } else {
        match take_many(s, (n - 1) as nat, item) {
            None => None,
            Some((items, rest)) => match item(rest) {
                None => None,
                Some((x, after)) => Some((items.push(x), after)),
            },
        }
    }
}

/// A list as bytes: the number of its items, then the items.
pub open spec fn put_list<T>(items: Seq<T>, put: spec_fn(T) -> Seq<u8>) -> Seq<u8> {
    put_u64(items.len() as u64) + put_many(items, put)
}

/// The list that the bytes start with, and the bytes behind it.
pub open spec fn take_list<T>(s: Seq<u8>, item: spec_fn(Seq<u8>) -> Option<(T, Seq<u8>)>) -> Option<
    (Seq<T>, Seq<u8>),
> {
    match take_u64(s) {
        None => None,
        Some((n, rest)) => take_many(rest, n as nat, item),
    }
}

/// Reading what was written of `x`, with `rest` behind it, gives `x` and
/// `rest`.
pub open spec fn reads_back<T>(
    put: spec_fn(T) -> Seq<u8>,
    item: spec_fn(Seq<u8>) -> Option<(T, Seq<u8>)>,
    x: T,
    rest: Seq<u8>,
) -> bool {
    item(put(x) + rest) == Some((x, rest))
}

/// A point as bytes: its `x`, then its `y`.
pub open spec fn put_point(p: Point) -> Seq<u8> {
    put_u64(p.x) + put_u64(p.y)
}

/// The point that the bytes start with, and the bytes behind it.
pub open spec fn take_point(s: Seq<u8>) -> Option<(Point, Seq<u8>)> {
    match take_u64(s) {
        None => None,
        Some((x, rest)) => match take_u64(rest) {
            None => None,
            Some((y, after)) => Some((Point { x, y }, after)),
        },
    }
}

/// `put_point`, as a value.
pub open spec fn point_writer() -> spec_fn(Point) -> Seq<u8> {
    |p: Point| put_point(p)
}

/// `take_point`, as a value.
pub open spec fn point_reader() -> spec_fn(Seq<u8>) -> Option<(Point, Seq<u8>)> {
    |s: Seq<u8>| take_point(s)
}

/// A ring as bytes: the list of its points.
pub open spec fn put_ring(ring: Seq<Point>) -> Seq<u8> {
    put_list(ring, point_writer())
}

/// The ring that the bytes start with, and the bytes behind it.
pub open spec fn take_ring(s: Seq<u8>) -> Option<(Seq<Point>, Seq<u8>)> {
    take_list(s, point_reader())
}

/// `put_ring`, as a value.
pub open spec fn ring_writer() -> spec_fn(Seq<Point>) -> Seq<u8> {
    |r: Seq<Point>| put_ring(r)
}

/// `take_ring`, as a value.
pub open spec fn ring_reader() -> spec_fn(Seq<u8>) -> Option<(Seq<Point>, Seq<u8>)> {
    |s: Seq<u8>| take_ring(s)
}

/// A polygon as bytes: its outline, then the list of its holes.
pub open spec fn put_polygon(p: PolygonView) -> Seq<u8> {
    put_ring(p.exterior) + put_list(p.interiors, ring_writer())
}

/// The polygon that the bytes start with, and the bytes behind it.
pub open spec fn take_polygon(s: Seq<u8>) -> Option<(PolygonView, Seq<u8>)> {
    match take_ring(s) {
        None => None,
        Some((exterior, rest)) => match take_list(rest, ring_reader()) {
            None => None,
            Some((interiors, after)) => Some((PolygonView { exterior, interiors }, after)),
        },
    }
}

/// `put_polygon`, as a value.
pub open spec fn polygon_writer() -> spec_fn(PolygonView) -> Seq<u8> {
    |p: PolygonView| put_polygon(p)
}

/// `take_polygon`, as a value.
pub open spec fn polygon_reader() -> spec_fn(Seq<u8>) -> Option<(PolygonView, Seq<u8>)> {
    |s: Seq<u8>| take_polygon(s)
}

/// A geometry as bytes: its tag, then what it holds.
pub open spec fn put_area(area: AreaView) -> Seq<u8> {
    match area {
        AreaView::Polygon(p) => put_u64(TAG_POLYGON) + put_polygon(p),
        AreaView::MultiPolygon(ps) => put_u64(TAG_MULTI_POLYGON) + put_list(ps, polygon_writer()),
        AreaView::Point(p) => put_u64(TAG_POINT) + put_point(p),
    }
}

/// The geometry that the bytes start with, and the bytes behind it. A tag
/// that is none of the three gives nothing.
pub open spec fn take_area(s: Seq<u8>) -> Option<(AreaView, Seq<u8>)> {
    match take_u64(s) {
        None => None,
        Some((tag, rest)) => if tag == TAG_POLYGON {
            match take_polygon(rest) {
                None => None,
                Some((p, after)) => Some((AreaView::Polygon(p), after)),
            }
        } else if tag == TAG_MULTI_POLYGON {
            match take_list(rest, polygon_reader()) {
                None => None,
                Some((ps, after)) => Some((AreaView::MultiPolygon(ps), after)),
            }
        } else if tag == TAG_POINT {
            match take_point(rest) {
                None => None,
                Some((p, after)) => Some((AreaView::Point(p), after)),
            }
        } else {
            None
        },
    }
}

/// A text as bytes: the number of its bytes in UTF-8, then those bytes.
pub open spec fn put_text(text: Seq<char>) -> Seq<u8> {
    put_u64(encode_utf8(text).len() as u64) + encode_utf8(text)
}

/// The text that the bytes start with, and the bytes behind it. Bytes that
/// are shorter than they say, or no UTF-8, give nothing.
pub open spec fn take_text(s: Seq<u8>) -> Option<(Seq<char>, Seq<u8>)> {
    match take_u64(s) {
        None => None,
        Some((n, rest)) => if n <= rest.len() && valid_utf8(rest.subrange(0, n as int)) {
            Some((decode_utf8(rest.subrange(0, n as int)), rest.skip(n as int)))
        } else {
            None
        },
    }
}

/// An entry as bytes: its key, then its value.
pub open spec fn put_entry(entry: (Seq<char>, Seq<char>)) -> Seq<u8> {
    put_text(entry.0) + put_text(entry.1)
}

/// The entry that the bytes start with, and the bytes behind it.
pub open spec fn take_entry(s: Seq<u8>) -> Option<((Seq<char>, Seq<char>), Seq<u8>)> {
    match take_text(s) {
        None => None,
        Some((key, rest)) => match take_text(rest) {
            None => None,
            Some((value, after)) => Some(((key, value), after)),
        },
    }
}

/// `put_entry`, as a value.
pub open spec fn entry_writer() -> spec_fn((Seq<char>, Seq<char>)) -> Seq<u8> {
    |e: (Seq<char>, Seq<char>)| put_entry(e)
}

/// `take_entry`, as a value.
pub open spec fn entry_reader() -> spec_fn(Seq<u8>) -> Option<((Seq<char>, Seq<char>), Seq<u8>)> {
    |s: Seq<u8>| take_entry(s)
}

/// A feature as bytes: its geometry, then the list of its entries.
pub open spec fn put_parts(parts: Parts) -> Seq<u8> {
    put_area(parts.area) + put_list(parts.entries, entry_writer())
}

/// The feature that the bytes start with, and the bytes behind it.
pub open spec fn take_parts(s: Seq<u8>) -> Option<(Parts, Seq<u8>)> {
    match take_area(s) {
        None => None,
        Some((area, rest)) => match take_list(rest, entry_reader()) {
            None => None,
            Some((entries, after)) => Some((Parts { area, entries }, after)),
        },
    }
}

/// `put_parts`, as a value.
pub open spec fn parts_writer() -> spec_fn(Parts) -> Seq<u8> {
    |p: Parts| put_parts(p)
}

/// `take_parts`, as a value.
pub open spec fn parts_reader() -> spec_fn(Seq<u8>) -> Option<(Parts, Seq<u8>)> {
    |s: Seq<u8>| take_parts(s)
}

/// An index as bytes: the tag of the format, the number of nearest features
/// to look at, and the list of the features.
pub open spec fn put_index(features: Seq<Parts>, neighbors_tests: usize) -> Seq<u8> {
    put_u64(FORMAT_TAG) + put_u64(neighbors_tests as u64) + put_list(features, parts_writer())
}

/// What the index holds of a feature with these parts. The geometry must
/// have a bounding rectangle.
pub open spec fn indexable(parts: Parts) -> IndexableView {
    IndexableView {
        bbox: parts.area.mbr()->0,
        area: parts.area,
        properties: entries_map(parts.entries),
    }
}

/// The index that bytes hold, or why they hold none.
///
/// Bytes that start with another tag are of another version. Bytes are
/// corrupt when they are shorter than a tag; when they do not hold a number
/// of neighbors that fits the machine and a list of features, and nothing
/// behind it; or when the geometry of a feature has no point, or a point
/// that is not finite.
pub open spec fn parsed(bytes: Seq<u8>) -> Result<FinderView, CodecError> {
    match take_u64(bytes) {
        None => Err(CodecError::Corrupt),
        Some((tag, rest)) => if tag != FORMAT_TAG {
            Err(CodecError::VersionMismatch)
        } else {
            match take_u64(rest) {
                None => Err(CodecError::Corrupt),
                Some((neighbors_tests, rest)) => match take_list(rest, parts_reader()) {
                    None => Err(CodecError::Corrupt),
                    Some((features, after)) => if
                        neighbors_tests <= usize::MAX && after.len() == 0 && forall|
                            i: int,
                        |
                            0 <= i < features.len() ==> (#[trigger] features[i]).sound()
                    {
                        Ok(
                            FinderView {
                                features: features.map_values(|p: Parts| indexable(p)),
                                neighbors_tests: neighbors_tests as usize,
                            },
                        )
                    } else {
                        Err(CodecError::Corrupt)
                    },
                },
            }
        },
    }
}

/// The ring is short enough for its length to be written.
pub open spec fn ring_fits(ring: Seq<Point>) -> bool {
    ring.len() <= u64::MAX
}

/// The same, of a polygon.
pub open spec fn polygon_fits(p: PolygonView) -> bool {
    &&& ring_fits(p.exterior)
    &&& p.interiors.len() <= u64::MAX
    &&& forall|k: int| 0 <= k < p.interiors.len() ==> ring_fits(#[trigger] p.interiors[k])
}

/// The same, of a geometry.
pub open spec fn area_fits(area: AreaView) -> bool {
    match area {
        AreaView::Polygon(p) => polygon_fits(p),
        AreaView::MultiPolygon(ps) => ps.len() <= u64::MAX && forall|k: int|
            0 <= k < ps.len() ==> polygon_fits(#[trigger] ps[k]),
        AreaView::Point(_) => true,
    }
}

/// The same, of a text.
pub open spec fn text_fits(text: Seq<char>) -> bool {
    encode_utf8(text).len() <= u64::MAX
}

/// The same, of a feature.
pub open spec fn parts_fit(parts: Parts) -> bool {
    &&& area_fits(parts.area)
    &&& parts.entries.len() <= u64::MAX
    &&& forall|k: int|
        0 <= k < parts.entries.len() ==> text_fits((#[trigger] parts.entries[k]).0) && text_fits(
            parts.entries[k].1,
        )
}

/// A number that was written is read back, and takes eight bytes.
proof fn lemma_u64(v: u64, rest: Seq<u8>)
    ensures
        take_u64(put_u64(v) + rest) == Some((v, rest)),
        put_u64(v).len() == 8,
{
    lemma_auto_spec_u64_to_from_le_bytes();
    let s = put_u64(v) + rest;
    assert(s.subrange(0, 8) =~= put_u64(v));
    assert(s.skip(8) =~= rest);
}

/// Items that were written are read back, where each of them is.
proof fn lemma_many<T>(
    items: Seq<T>,
    put: spec_fn(T) -> Seq<u8>,
    item: spec_fn(Seq<u8>) -> Option<(T, Seq<u8>)>,
    rest: Seq<u8>,
)
    requires
        forall|k: int, r: Seq<u8>|
            0 <= k < items.len() ==> #[trigger] reads_back(put, item, items[k], r),
    ensures
        take_many(put_many(items, put) + rest, items.len(), item) == Some((items, rest)),
    decreases items.len(),
{
    if items.len() == 0 {
        assert(put_many(items, put) + rest =~= rest);
    } else {
        let init = items.drop_last();
        let last = items.last();
        assert(put_many(items, put) + rest =~= put_many(init, put) + (put(last) + rest));
        assert forall|k: int, r: Seq<u8>| 0 <= k < init.len() implies #[trigger] reads_back(
            put,
            item,
            init[k],
            r,
        ) by {
            assert(init[k] == items[k]);
            assert(reads_back(put, item, items[k], r));
        }
        lemma_many(init, put, item, put(last) + rest);
        assert(reads_back(put, item, items[items.len() - 1], rest));
        assert(init.push(last) =~= items);
    }
}

/// A list that was written is read back, where each of its items is.
proof fn lemma_list<T>(
    items: Seq<T>,
    put: spec_fn(T) -> Seq<u8>,
    item: spec_fn(Seq<u8>) -> Option<(T, Seq<u8>)>,
    rest: Seq<u8>,
)
    requires
        items.len() <= u64::MAX,
        forall|k: int, r: Seq<u8>|
            0 <= k < items.len() ==> #[trigger] reads_back(put, item, items[k], r),
    ensures
        take_list(put_list(items, put) + rest, item) == Some((items, rest)),
{
    let count = put_u64(items.len() as u64);
    assert(put_list(items, put) + rest =~= count + (put_many(items, put) + rest));
    lemma_u64(items.len() as u64, put_many(items, put) + rest);
    lemma_many(items, put, item, rest);
}

/// A point that was written is read back.
proof fn lemma_point(p: Point, rest: Seq<u8>)
    ensures
        take_point(put_point(p) + rest) == Some((p, rest)),
{
    assert(put_point(p) + rest =~= put_u64(p.x) + (put_u64(p.y) + rest));
    lemma_u64(p.x, put_u64(p.y) + rest);
    lemma_u64(p.y, rest);
}

/// A ring that was written is read back.
proof fn lemma_ring(ring: Seq<Point>, rest: Seq<u8>)
    requires
        ring_fits(ring),
    ensures
        take_ring(put_ring(ring) + rest) == Some((ring, rest)),
{
    assert forall|k: int, r: Seq<u8>| 0 <= k < ring.len() implies #[trigger] reads_back(
        point_writer(),
        point_reader(),
        ring[k],
        r,
    ) by {
        lemma_point(ring[k], r);
    }
    lemma_list(ring, point_writer(), point_reader(), rest);
}

/// A list of rings that was written is read back.
proof fn lemma_rings(rings: Seq<Seq<Point>>, rest: Seq<u8>)
    requires
        rings.len() <= u64::MAX,
        forall|k: int| 0 <= k < rings.len() ==> ring_fits(#[trigger] rings[k]),
    ensures
        take_list(put_list(rings, ring_writer()) + rest, ring_reader()) == Some((rings, rest)),
{
    assert forall|k: int, r: Seq<u8>| 0 <= k < rings.len() implies #[trigger] reads_back(
        ring_writer(),
        ring_reader(),
        rings[k],
        r,
    ) by {
        lemma_ring(rings[k], r);
    }
    lemma_list(rings, ring_writer(), ring_reader(), rest);
}

/// A polygon that was written is read back.
proof fn lemma_polygon(p: PolygonView, rest: Seq<u8>)
    requires
        polygon_fits(p),
    ensures
        take_polygon(put_polygon(p) + rest) == Some((p, rest)),
{
    let holes = put_list(p.interiors, ring_writer());
    assert(put_polygon(p) + rest =~= put_ring(p.exterior) + (holes + rest));
    lemma_ring(p.exterior, holes + rest);
    lemma_rings(p.interiors, rest);
}

/// A list of polygons that was written is read back.
proof fn lemma_polygons(ps: Seq<PolygonView>, rest: Seq<u8>)
    requires
        ps.len() <= u64::MAX,
        forall|k: int| 0 <= k < ps.len() ==> polygon_fits(#[trigger] ps[k]),
    ensures
        take_list(put_list(ps, polygon_writer()) + rest, polygon_reader()) == Some((ps, rest)),
{
    assert forall|k: int, r: Seq<u8>| 0 <= k < ps.len() implies #[trigger] reads_back(
        polygon_writer(),
        polygon_reader(),
        ps[k],
        r,
    ) by {
        lemma_polygon(ps[k], r);
    }
    lemma_list(ps, polygon_writer(), polygon_reader(), rest);
}

/// A geometry that was written is read back.
proof fn lemma_area(area: AreaView, rest: Seq<u8>)
    requires
        area_fits(area),
    ensures
        take_area(put_area(area) + rest) == Some((area, rest)),
{
    match area {
        AreaView::Polygon(p) => {
            assert(put_area(area) + rest =~= put_u64(TAG_POLYGON) + (put_polygon(p) + rest));
            lemma_u64(TAG_POLYGON, put_polygon(p) + rest);
            lemma_polygon(p, rest);
        },
        AreaView::MultiPolygon(ps) => {
            let list = put_list(ps, polygon_writer());
            assert(put_area(area) + rest =~= put_u64(TAG_MULTI_POLYGON) + (list + rest));
            lemma_u64(TAG_MULTI_POLYGON, list + rest);
            lemma_polygons(ps, rest);
        },
        AreaView::Point(p) => {
            assert(put_area(area) + rest =~= put_u64(TAG_POINT) + (put_point(p) + rest));
            lemma_u64(TAG_POINT, put_point(p) + rest);
            lemma_point(p, rest);
        },
    }
}

/// A text that was written is read back.
proof fn lemma_text(text: Seq<char>, rest: Seq<u8>)
    requires
        text_fits(text),
    ensures
        take_text(put_text(text) + rest) == Some((text, rest)),
{
    let bytes = encode_utf8(text);
    assert(put_text(text) + rest =~= put_u64(bytes.len() as u64) + (bytes + rest));
    lemma_u64(bytes.len() as u64, bytes + rest);
    assert((bytes + rest).subrange(0, bytes.len() as int) =~= bytes);
    assert((bytes + rest).skip(bytes.len() as int) =~= rest);
    encode_utf8_valid_utf8(text);
    encode_utf8_decode_utf8(text);
}

/// An entry that was written is read back.
proof fn lemma_entry(entry: (Seq<char>, Seq<char>), rest: Seq<u8>)
    requires
        text_fits(entry.0),
        text_fits(entry.1),
    ensures
        take_entry(put_entry(entry) + rest) == Some((entry, rest)),
{
    assert(put_entry(entry) + rest =~= put_text(entry.0) + (put_text(entry.1) + rest));
    lemma_text(entry.0, put_text(entry.1) + rest);
    lemma_text(entry.1, rest);
}

/// A feature that was written is read back.
proof fn lemma_parts(parts: Parts, rest: Seq<u8>)
    requires
        parts_fit(parts),
    ensures
        take_parts(put_parts(parts) + rest) == Some((parts, rest)),
{
    let list = put_list(parts.entries, entry_writer());
    assert(put_parts(parts) + rest =~= put_area(parts.area) + (list + rest));
    lemma_area(parts.area, list + rest);
    assert forall|k: int, r: Seq<u8>| 0 <= k < parts.entries.len() implies #[trigger] reads_back(
        entry_writer(),
        entry_reader(),
        parts.entries[k],
        r,
    ) by {
        lemma_entry(parts.entries[k], r);
    }
    lemma_list(parts.entries, entry_writer(), entry_reader(), rest);
}

/// Reading the bytes of an index gives the index back: the same features
/// with the same geometries, rectangles and properties, and the same number
/// of nearest features to look at.
pub proof fn lemma_round_trip(features: Seq<Parts>, neighbors_tests: usize)
    requires
        features.len() <= u64::MAX,
        forall|i: int| 0 <= i < features.len() ==> parts_fit(#[trigger] features[i]),
        forall|i: int| 0 <= i < features.len() ==> (#[trigger] features[i]).sound(),
    ensures
        parsed(put_index(features, neighbors_tests)) == Ok::<FinderView, CodecError>(
            (FinderView { features: features.map_values(|p: Parts| indexable(p)), neighbors_tests }),
        ),
{
    let list = put_list(features, parts_writer());
    let bytes = put_index(features, neighbors_tests);
    assert(bytes =~= put_u64(FORMAT_TAG) + (put_u64(neighbors_tests as u64) + list));
    lemma_u64(FORMAT_TAG, put_u64(neighbors_tests as u64) + list);
    lemma_u64(neighbors_tests as u64, list);
    assert(list =~= list + Seq::<u8>::empty());
    assert forall|k: int, r: Seq<u8>| 0 <= k < features.len() implies #[trigger] reads_back(
        parts_writer(),
        parts_reader(),
        features[k],
        r,
    ) by {
        lemma_parts(features[k], r);
    }
    lemma_list(features, parts_writer(), parts_reader(), Seq::<u8>::empty());
}

/// Once the items cannot be read, no more of them can.
pub proof fn lemma_fails<T>(
    s: Seq<u8>,
    i: nat,
    n: nat,
    item: spec_fn(Seq<u8>) -> Option<(T, Seq<u8>)>,
)
    requires
        take_many(s, i, item) is None,
        i <= n,
    ensures
        take_many(s, n, item) is None,
    decreases n,
{
    if i < n {
        lemma_fails(s, i, (n - 1) as nat, item);
    }
}

} // verus!
