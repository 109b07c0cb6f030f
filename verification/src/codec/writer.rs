//! Writing an index as bytes.

use vstd::bytes::u64_to_le_bytes;
use vstd::prelude::*;
use vstd::slice::slice_to_vec;

use crate::codec::format::{
    area_fits, entry_writer, indexable, lemma_round_trip, parsed, parts_fit, parts_writer,
    point_writer, polygon_fits, polygon_writer, put_area, put_entry, put_index, put_many,
    put_parts, put_point, put_polygon, put_ring, put_text, put_u64, ring_fits, ring_writer,
    text_fits, CodecError, Parts, FORMAT_TAG, TAG_MULTI_POLYGON, TAG_POINT, TAG_POLYGON,
};
use crate::coord::Point;
use crate::feature::IndexablePolygon;
use crate::finder::{FinderView, PolygonFinder};
use crate::geometry::{polygon_views, Area, Polygon};

verus! {

/// The parts of a feature of the index.
pub open spec fn parts_of(feature: IndexablePolygon) -> Parts {
    Parts { area: feature@.area, entries: feature.entries() }
}

/// The parts of the features of an index.
pub open spec fn parts(finder: PolygonFinder) -> Seq<Parts> {
    Seq::new(finder@.features.len(), |i: int| parts_of(finder.feature_at(i)))
}

/// The bytes of an index.
pub open spec fn encoded(finder: PolygonFinder) -> Seq<u8> {
    put_index(parts(finder), finder@.neighbors_tests)
}

/// Writes a number.
fn write_u64(out: &mut Vec<u8>, v: u64)
    ensures
        final(out)@ == old(out)@ + put_u64(v),
{
    let mut bytes = u64_to_le_bytes(v);
    out.append(&mut bytes);
}

/// Writes a point.
fn write_point(out: &mut Vec<u8>, p: &Point)
    ensures
        final(out)@ == old(out)@ + put_point(*p),
{
    write_u64(out, p.x);
    write_u64(out, p.y);
    assert(out@ =~= old(out)@ + put_point(*p));
}

/// Writes a ring.
fn write_ring(out: &mut Vec<u8>, ring: &Vec<Point>)
    ensures
        final(out)@ == old(out)@ + put_ring(ring@),
        ring_fits(ring@),
{
    write_u64(out, ring.len() as u64);
    let ghost start = out@;
    let mut i: usize = 0;
    while i < ring.len()
        invariant
            i <= ring@.len(),
            out@ == start + put_many(ring@.take(i as int), point_writer()),
        decreases ring@.len() - i,
    {
        let ghost before = out@;
        write_point(out, &ring[i]);
        proof {
            let upto = ring@.take(i + 1);
            assert(upto.drop_last() =~= ring@.take(i as int));
            assert(upto.last() == ring@[i as int]);
            assert(out@ =~= start + put_many(upto, point_writer()));
        }
        i = i + 1;
    }
    proof {
        assert(ring@.take(ring@.len() as int) =~= ring@);
        assert(out@ =~= old(out)@ + put_ring(ring@));
    }
}

/// Writes a polygon.
fn write_polygon(out: &mut Vec<u8>, p: &Polygon)
    ensures
        final(out)@ == old(out)@ + put_polygon(p@),
        polygon_fits(p@),
{
    write_ring(out, &p.exterior);
    let ghost holes = p@.interiors;
    write_u64(out, p.interiors.len() as u64);
    let ghost start = out@;
    let mut k: usize = 0;
    while k < p.interiors.len()
        invariant
            k <= p.interiors@.len(),
            holes == p@.interiors,
            out@ == start + put_many(holes.take(k as int), ring_writer()),
            forall|j: int| 0 <= j < k ==> ring_fits(#[trigger] holes[j]),
        decreases p.interiors@.len() - k,
    {
        write_ring(out, &p.interiors[k]);
        proof {
            let upto = holes.take(k + 1);
            assert(upto.drop_last() =~= holes.take(k as int));
            assert(upto.last() == p.interiors@[k as int]@);
            assert(out@ =~= start + put_many(upto, ring_writer()));
        }
        k = k + 1;
    }
    proof {
        assert(holes.take(holes.len() as int) =~= holes);
        assert(out@ =~= old(out)@ + put_polygon(p@));
    }
}

/// Writes a geometry.
fn write_area(out: &mut Vec<u8>, area: &Area)
    ensures
        final(out)@ == old(out)@ + put_area(area@),
        area_fits(area@),
{
    match area {
        Area::Polygon(p) => {
            write_u64(out, TAG_POLYGON);
            write_polygon(out, p);
            assert(out@ =~= old(out)@ + put_area(area@));
        },
        Area::MultiPolygon(ps) => {
            write_u64(out, TAG_MULTI_POLYGON);
            write_u64(out, ps.len() as u64);
            let ghost views = polygon_views(ps@);
            let ghost start = out@;
            let mut k: usize = 0;
            while k < ps.len()
                invariant
                    k <= ps@.len(),
                    views == polygon_views(ps@),
                    out@ == start + put_many(views.take(k as int), polygon_writer()),
                    forall|j: int| 0 <= j < k ==> polygon_fits(#[trigger] views[j]),
                decreases ps@.len() - k,
            {
                write_polygon(out, &ps[k]);
                proof {
                    let upto = views.take(k + 1);
                    assert(upto.drop_last() =~= views.take(k as int));
                    assert(upto.last() == ps@[k as int]@);
                    assert(out@ =~= start + put_many(upto, polygon_writer()));
                }
                k = k + 1;
            }
            proof {
                assert(views.take(views.len() as int) =~= views);
                assert(out@ =~= old(out)@ + put_area(area@));
            }
        },
        Area::Point(p) => {
            write_u64(out, TAG_POINT);
            write_point(out, p);
            assert(out@ =~= old(out)@ + put_area(area@));
        },
    }
}

/// Writes a text.
fn write_text(out: &mut Vec<u8>, text: &str)
    ensures
        final(out)@ == old(out)@ + put_text(text@),
        text_fits(text@),
{
    let bytes = text.as_bytes();
    write_u64(out, bytes.len() as u64);
    let mut owned = slice_to_vec(bytes);
    out.append(&mut owned);
    assert(out@ =~= old(out)@ + put_text(text@));
}

/// Writes a feature of the index.
fn write_feature(out: &mut Vec<u8>, feature: &IndexablePolygon)
    ensures
        final(out)@ == old(out)@ + put_parts(parts_of(*feature)),
        parts_fit(parts_of(*feature)),
        parts_of(*feature).sound(),
        indexable(parts_of(*feature)) == feature@,
{
    let bbox = feature.bbox();
    proof {
        feature.lemma_entries();
    }
    write_area(out, feature.area());
    let properties = feature.properties();
    let ghost entries = feature.entries();
    write_u64(out, properties.len() as u64);
    let ghost start = out@;
    let mut k: usize = 0;
    while k < properties.len()
        invariant
            k <= entries.len(),
            entries == properties.entries(),
            out@ == start + put_many(entries.take(k as int), entry_writer()),
            forall|j: int|
                0 <= j < k ==> text_fits((#[trigger] entries[j]).0) && text_fits(entries[j].1),
        decreases entries.len() - k,
    {
        let (key, value) = properties.entry(k);
        let ghost before = out@;
        write_text(out, key.as_str());
        write_text(out, value.as_str());
        proof {
            let upto = entries.take(k + 1);
            assert(upto.drop_last() =~= entries.take(k as int));
            assert(upto.last() == (key@, value@));
            assert(out@ =~= before + put_entry((key@, value@)));
            assert(out@ =~= start + put_many(upto, entry_writer()));
        }
        k = k + 1;
    }
    proof {
        assert(entries.take(entries.len() as int) =~= entries);
        assert(out@ =~= old(out)@ + put_parts(parts_of(*feature)));
    }
}

/// The bytes of an index. Read back with `load_geo_index` they give an index
/// that holds the same, so every search in it ends as in this one.
pub fn save_geo_index(finder: &PolygonFinder) -> (bytes: Vec<u8>)
    ensures
        bytes@ == encoded(*finder),
        parsed(bytes@) == Ok::<FinderView, CodecError>(finder@),
{
    let mut out: Vec<u8> = Vec::new();
    let ghost all = parts(*finder);
    write_u64(&mut out, FORMAT_TAG);
    write_u64(&mut out, finder.neighbors_tests() as u64);
    write_u64(&mut out, finder.len() as u64);
    let ghost start = out@;
    let mut i: usize = 0;
    while i < finder.len()
        invariant
            i <= all.len(),
            all == parts(*finder),
            all.len() == finder@.features.len(),
            out@ == start + put_many(all.take(i as int), parts_writer()),
            forall|j: int| 0 <= j < i ==> parts_fit(#[trigger] all[j]),
            forall|j: int| 0 <= j < i ==> (#[trigger] all[j]).sound(),
            forall|j: int| 0 <= j < i ==> indexable(#[trigger] all[j]) == finder@.features[j],
        decreases all.len() - i,
    {
        write_feature(&mut out, finder.feature(i));
        proof {
            let upto = all.take(i + 1);
            assert(upto.drop_last() =~= all.take(i as int));
            assert(upto.last() == all[i as int]);
            assert(out@ =~= start + put_many(upto, parts_writer()));
        }
        i = i + 1;
    }
    proof {
        assert(all.take(all.len() as int) =~= all);
        assert(out@ =~= encoded(*finder));
        lemma_round_trip(all, finder@.neighbors_tests);
        assert(all.map_values(|p: Parts| indexable(p)) =~= finder@.features);
    }
    out
}

} // verus!
