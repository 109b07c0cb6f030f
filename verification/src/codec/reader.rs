//! Reading an index from bytes.

use vstd::bytes::u64_from_le_bytes;
use vstd::prelude::*;
use vstd::slice::{slice_subrange, slice_to_vec};
use vstd::utf8::{encode_utf8_decode_utf8, encode_utf8_valid_utf8};

use crate::codec::format::{
    entry_reader, indexable, lemma_fails, parsed, parts_reader, point_reader, polygon_reader,
    ring_reader, take_area, take_list, take_many, take_parts, take_point, take_polygon,
    take_ring, take_text, take_u64, CodecError, Parts, FORMAT_TAG, TAG_MULTI_POLYGON, TAG_POINT,
    TAG_POLYGON,
};
use crate::coord::Point;
use crate::feature::IndexablePolygon;
use crate::finder::{FinderView, PolygonFinder};
use crate::geometry::{polygon_views, Area, Polygon};
use crate::properties::{entries_map, PropertyMap};
use crate::text::text_from_utf8;

verus! {

/// The bytes from a place on.
pub open spec fn tail(bytes: &[u8], pos: usize) -> Seq<u8> {
    bytes@.skip(pos as int)
}

/// Reads a number at a place, and tells the place behind it.
fn read_u64(bytes: &[u8], pos: usize) -> (r: Option<(u64, usize)>)
    requires
        pos <= bytes@.len(),
    ensures
        match r {
            Some((v, next)) => {
                &&& pos <= next <= bytes@.len()
                &&& take_u64(tail(bytes, pos)) == Some((v, tail(bytes, next)))
            },
            None => take_u64(tail(bytes, pos)) is None,
        },
{
    if bytes.len() - pos < 8 {
        return None;
    }
    let v: u64 = u64_from_le_bytes(slice_subrange(bytes, pos, pos + 8));
    proof {
        assert(tail(bytes, pos).subrange(0, 8) =~= bytes@.subrange(pos as int, pos + 8));
        assert(tail(bytes, pos).skip(8) =~= tail(bytes, (pos + 8) as usize));
    }
    Some((v, pos + 8))
}

/// Reads a point.
fn read_point(bytes: &[u8], pos: usize) -> (r: Option<(Point, usize)>)
    requires
        pos <= bytes@.len(),
    ensures
        match r {
            Some((p, next)) => {
                &&& pos <= next <= bytes@.len()
                &&& take_point(tail(bytes, pos)) == Some((p, tail(bytes, next)))
            },
            None => take_point(tail(bytes, pos)) is None,
        },
{
    let (x, next): (u64, usize) = match read_u64(bytes, pos) {
        Some(read) => read,
        None => {
            return None;
        },
    };
    let (y, next): (u64, usize) = match read_u64(bytes, next) {
        Some(read) => read,
        None => {
            return None;
        },
    };
    Some((Point { x, y }, next))
}

/// Reads a ring.
fn read_ring(bytes: &[u8], pos: usize) -> (r: Option<(Vec<Point>, usize)>)
    requires
        pos <= bytes@.len(),
    ensures
        match r {
            Some((ring, next)) => {
                &&& pos <= next <= bytes@.len()
                &&& take_ring(tail(bytes, pos)) == Some((ring@, tail(bytes, next)))
            },
            None => take_ring(tail(bytes, pos)) is None,
        },
{
    let (n, start): (u64, usize) = match read_u64(bytes, pos) {
        Some(read) => read,
        None => {
            return None;
        },
    };
    let mut ring: Vec<Point> = Vec::new();
    let mut cur: usize = start;
    let mut i: u64 = 0;
    while i < n
        invariant
            i <= n,
            start <= cur <= bytes@.len(),
            take_u64(tail(bytes, pos)) == Some((n, tail(bytes, start))),
            take_many(tail(bytes, start), i as nat, point_reader()) == Some(
                (ring@, tail(bytes, cur)),
            ),
        decreases n - i,
    {
        match read_point(bytes, cur) {
            Some((p, next)) => {
                ring.push(p);
                cur = next;
            },
            None => {
                proof {
                    lemma_fails(tail(bytes, start), (i + 1) as nat, n as nat, point_reader());
                }
                return None;
            },
        }
        i = i + 1;
    }
    Some((ring, cur))
}

/// Reads a polygon.
fn read_polygon(bytes: &[u8], pos: usize) -> (r: Option<(Polygon, usize)>)
    requires
        pos <= bytes@.len(),
    ensures
        match r {
            Some((p, next)) => {
                &&& pos <= next <= bytes@.len()
                &&& take_polygon(tail(bytes, pos)) == Some((p@, tail(bytes, next)))
            },
            None => take_polygon(tail(bytes, pos)) is None,
        },
{
    let (exterior, next) = match read_ring(bytes, pos) {
        Some(read) => read,
        None => {
            return None;
        },
    };
    let (n, start): (u64, usize) = match read_u64(bytes, next) {
        Some(read) => read,
        None => {
            return None;
        },
    };
    let mut interiors: Vec<Vec<Point>> = Vec::new();
    let mut cur: usize = start;
    let mut i: u64 = 0;
    while i < n
        invariant
            i <= n,
            start <= cur <= bytes@.len(),
            take_ring(tail(bytes, pos)) == Some((exterior@, tail(bytes, next))),
            take_u64(tail(bytes, next)) == Some((n, tail(bytes, start))),
            take_many(tail(bytes, start), i as nat, ring_reader()) == Some(
                (interiors@.map_values(|ring: Vec<Point>| ring@), tail(bytes, cur)),
            ),
        decreases n - i,
    {
        let ghost before = interiors@.map_values(|ring: Vec<Point>| ring@);
        match read_ring(bytes, cur) {
            Some((ring, next)) => {
                interiors.push(ring);
                cur = next;
                assert(interiors@.map_values(|ring: Vec<Point>| ring@) =~= before.push(ring@));
            },
            None => {
                proof {
                    lemma_fails(tail(bytes, start), (i + 1) as nat, n as nat, ring_reader());
                }
                return None;
            },
        }
        i = i + 1;
    }
    Some((Polygon { exterior, interiors }, cur))
}

/// Reads a geometry.
fn read_area(bytes: &[u8], pos: usize) -> (r: Option<(Area, usize)>)
    requires
        pos <= bytes@.len(),
    ensures
        match r {
            Some((area, next)) => {
                &&& pos <= next <= bytes@.len()
                &&& take_area(tail(bytes, pos)) == Some((area@, tail(bytes, next)))
            },
            None => take_area(tail(bytes, pos)) is None,
        },
{
    let (tag, next): (u64, usize) = match read_u64(bytes, pos) {
        Some(read) => read,
        None => {
            return None;
        },
    };
    if tag == TAG_POLYGON {
        match read_polygon(bytes, next) {
            Some((p, next)) => Some((Area::Polygon(p), next)),
            None => None,
        }
    } else if tag == TAG_MULTI_POLYGON {
        let (n, start): (u64, usize) = match read_u64(bytes, next) {
            Some(read) => read,
            None => {
                return None;
            },
        };
        let mut polygons: Vec<Polygon> = Vec::new();
        let mut cur: usize = start;
        let mut i: u64 = 0;
        while i < n
            invariant
                i <= n,
                start <= cur <= bytes@.len(),
                tag == TAG_MULTI_POLYGON,
                take_u64(tail(bytes, pos)) == Some((tag, tail(bytes, next))),
                take_u64(tail(bytes, next)) == Some((n, tail(bytes, start))),
                take_many(tail(bytes, start), i as nat, polygon_reader()) == Some(
                    (polygon_views(polygons@), tail(bytes, cur)),
                ),
            decreases n - i,
        {
            let ghost before = polygon_views(polygons@);
            match read_polygon(bytes, cur) {
                Some((p, next)) => {
                    polygons.push(p);
                    cur = next;
                    assert(polygon_views(polygons@) =~= before.push(p@));
                },
                None => {
                    proof {
                        lemma_fails(tail(bytes, start), (i + 1) as nat, n as nat, polygon_reader());
                    }
                    return None;
                },
            }
            i = i + 1;
        }
        Some((Area::MultiPolygon(polygons), cur))
    } else if tag == TAG_POINT {
        match read_point(bytes, next) {
            Some((p, next)) => Some((Area::Point(p), next)),
            None => None,
        }
    } else {
        None
    }
}

/// Reads a text.
fn read_text(bytes: &[u8], pos: usize) -> (r: Option<(String, usize)>)
    requires
        pos <= bytes@.len(),
    ensures
        match r {
            Some((text, next)) => {
                &&& pos <= next <= bytes@.len()
                &&& take_text(tail(bytes, pos)) == Some((text@, tail(bytes, next)))
            },
            None => take_text(tail(bytes, pos)) is None,
        },
{
    let (n, start): (u64, usize) = match read_u64(bytes, pos) {
        Some(read) => read,
        None => {
            return None;
        },
    };
    if n > (bytes.len() - start) as u64 {
        return None;
    }
    let end: usize = start + n as usize;
    let owned = slice_to_vec(slice_subrange(bytes, start, end));
    proof {
        assert(tail(bytes, start).subrange(0, n as int) =~= owned@);
        assert(tail(bytes, start).skip(n as int) =~= tail(bytes, end));
    }
    match text_from_utf8(owned) {
        Some(text) => {
            proof {
                encode_utf8_valid_utf8(text@);
                encode_utf8_decode_utf8(text@);
            }
            Some((text, end))
        },
        None => None,
    }
}

/// Reads the entries of the properties of a feature.
fn read_properties(bytes: &[u8], pos: usize) -> (r: Option<
    (PropertyMap, usize, Ghost<Seq<(Seq<char>, Seq<char>)>>),
>)
    requires
        pos <= bytes@.len(),
    ensures
        match r {
            Some((properties, next, entries)) => {
                &&& pos <= next <= bytes@.len()
                &&& take_list(tail(bytes, pos), entry_reader()) == Some(
                    (entries@, tail(bytes, next)),
                )
                &&& properties@ == entries_map(entries@)
            },
            None => take_list(tail(bytes, pos), entry_reader()) is None,
        },
{
    let (n, start): (u64, usize) = match read_u64(bytes, pos) {
        Some(read) => read,
        None => {
            return None;
        },
    };
    let mut properties = PropertyMap::new();
    let ghost mut entries: Seq<(Seq<char>, Seq<char>)> = Seq::empty();
    let mut cur: usize = start;
    let mut i: u64 = 0;
    while i < n
        invariant
            i <= n,
            start <= cur <= bytes@.len(),
            take_u64(tail(bytes, pos)) == Some((n, tail(bytes, start))),
            take_many(tail(bytes, start), i as nat, entry_reader()) == Some(
                (entries, tail(bytes, cur)),
            ),
            properties@ == entries_map(entries),
        decreases n - i,
    {
        let (key, next) = match read_text(bytes, cur) {
            Some(read) => read,
            None => {
                proof {
                    lemma_fails(tail(bytes, start), (i + 1) as nat, n as nat, entry_reader());
                }
                return None;
            },
        };
        let (value, next) = match read_text(bytes, next) {
            Some(read) => read,
            None => {
                proof {
                    lemma_fails(tail(bytes, start), (i + 1) as nat, n as nat, entry_reader());
                }
                return None;
            },
        };
        proof {
            assert(entries.push((key@, value@)).drop_last() =~= entries);
            entries = entries.push((key@, value@));
        }
        properties.insert(key, value);
        cur = next;
        i = i + 1;
    }
    Some((properties, cur, Ghost(entries)))
}

/// Reads a feature, and builds it where its geometry can stand in an index.
fn read_feature(bytes: &[u8], pos: usize) -> (r: Option<
    (Option<IndexablePolygon>, usize, Ghost<Parts>),
>)
    requires
        pos <= bytes@.len(),
    ensures
        match r {
            Some((feature, next, parts)) => {
                &&& pos <= next <= bytes@.len()
                &&& take_parts(tail(bytes, pos)) == Some((parts@, tail(bytes, next)))
                &&& match feature {
                    Some(f) => parts@.sound() && f@ == indexable(parts@),
                    None => !parts@.sound(),
                }
            },
            None => take_parts(tail(bytes, pos)) is None,
        },
{
    let (area, next) = match read_area(bytes, pos) {
        Some(read) => read,
        None => {
            return None;
        },
    };
    let (properties, next, entries) = match read_properties(bytes, next) {
        Some(read) => read,
        None => {
            return None;
        },
    };
    let ghost parts = Parts { area: area@, entries: entries@ };
    let feature = IndexablePolygon::from_parts(area, properties);
    Some((feature, next, Ghost(parts)))
}

/// The index that bytes hold: `parsed` says which, and why bytes hold none.
pub fn load_geo_index(bytes: &[u8]) -> (r: Result<PolygonFinder, CodecError>)
    ensures
        match r {
            Ok(finder) => parsed(bytes@) == Ok::<FinderView, CodecError>(finder@),
            Err(e) => parsed(bytes@) == Err::<FinderView, CodecError>(e),
        },
{
    assert(tail(bytes, 0) =~= bytes@);
    let (tag, next): (u64, usize) = match read_u64(bytes, 0) {
        Some(read) => read,
        None => {
            return Err(CodecError::Corrupt);
        },
    };
    if tag != FORMAT_TAG {
        return Err(CodecError::VersionMismatch);
    }
    let ghost tagged = next;
    let (neighbors_tests, next): (u64, usize) = match read_u64(bytes, next) {
        Some(read) => read,
        None => {
            return Err(CodecError::Corrupt);
        },
    };
    let ghost list = tail(bytes, next);
    let ghost header = next;
    let (n, start): (u64, usize) = match read_u64(bytes, next) {
        Some(read) => read,
        None => {
            return Err(CodecError::Corrupt);
        },
    };
    let mut features: Vec<IndexablePolygon> = Vec::new();
    let ghost mut all: Seq<Parts> = Seq::empty();
    let mut bounded = true;
    let mut cur: usize = start;
    let mut i: u64 = 0;
    while i < n
        invariant
            i <= n,
            start <= cur <= bytes@.len(),
            take_u64(bytes@) == Some((FORMAT_TAG, tail(bytes, tagged))),
            take_u64(tail(bytes, tagged)) == Some((neighbors_tests, list)),
            take_u64(list) == Some((n, tail(bytes, start))),
            take_many(tail(bytes, start), i as nat, parts_reader()) == Some(
                (all, tail(bytes, cur)),
            ),
            all.len() == i,
            bounded ==> features@.len() == i,
            bounded ==> forall|j: int| 0 <= j < i ==> (#[trigger] all[j]).sound(),
            bounded ==> forall|j: int|
                0 <= j < i ==> (#[trigger] features@[j])@ == indexable(all[j]),
            !bounded ==> exists|j: int| 0 <= j < i && !(#[trigger] all[j]).sound(),
        decreases n - i,
    {
        match read_feature(bytes, cur) {
            Some((feature, next, parts)) => {
                proof {
                    if !bounded {
                        let j = choose|j: int| 0 <= j < i && !(#[trigger] all[j]).sound();
                        assert(all.push(parts@)[j] == all[j]);
                    }
                    all = all.push(parts@);
                }
                match feature {
                    Some(f) => {
                        if bounded {
                            features.push(f);
                        }
                    },
                    None => {
                        bounded = false;
                        assert(!all[i as int].sound());
                    },
                }
                cur = next;
            },
            None => {
                proof {
                    lemma_fails(tail(bytes, start), (i + 1) as nat, n as nat, parts_reader());
                }
                return Err(CodecError::Corrupt);
            },
        }
        i = i + 1;
    }
    proof {
        assert(tail(bytes, cur).len() == bytes@.len() - cur);
    }
    if neighbors_tests > usize::MAX as u64 || cur != bytes.len() || !bounded {
        return Err(CodecError::Corrupt);
    }
    let finder = PolygonFinder::bulk_load(features).with_neighbors_tests(neighbors_tests as usize);
    proof {
        assert(finder@.features =~= all.map_values(|p: Parts| indexable(p)));
    }
    Ok(finder)
}

} // verus!
