//! Features: as a document gives them, and as the index holds them.

use vstd::prelude::*;

use crate::coord::{finite, is_finite, Point};
use crate::error::{ErrorKind, PolygonFinderError};
use crate::geometry::{all_finite, lemma_mbr_wf, Area, AreaView, Polygon, PolygonView, Rect};
use crate::list::reversed;
use crate::properties::PropertyMap;

verus! {

/// The value of a property in a document.
#[derive(Debug)]
pub enum JsonProperty {
    /// A text.
    Text(String),
    /// A number, in its decimal form.
    Number(String),
    /// Anything else: null, a boolean, an array or an object.
    Other(serde_json::Value),
}

/// What a `JsonProperty` holds.
pub enum PropertyView {
    Text(Seq<char>),
    Number(Seq<char>),
    Other,
}

impl View for JsonProperty {
    type V = PropertyView;

    open spec fn view(&self) -> PropertyView {
        match self {
            JsonProperty::Text(t) => PropertyView::Text(t@),
            JsonProperty::Number(t) => PropertyView::Number(t@),
            JsonProperty::Other(_) => PropertyView::Other,
        }
    }
}

/// The geometry of a feature in a document. A position is the list of its
/// coordinates, each the bits of a double: longitude, latitude, and whatever
/// follows them.
#[derive(Debug)]
pub enum RawGeometry {
    Point(Vec<u64>),
    Polygon(Vec<Vec<Vec<u64>>>),
    MultiPolygon(Vec<Vec<Vec<Vec<u64>>>>),
    /// A geometry of another type.
    Other,
}

/// What a `RawGeometry` holds.
pub enum RawGeometryView {
    Point(Seq<u64>),
    Polygon(Seq<Seq<Seq<u64>>>),
    MultiPolygon(Seq<Seq<Seq<Seq<u64>>>>),
    Other,
}

/// What each position of a ring holds.
pub open spec fn ring_view(ring: Seq<Vec<u64>>) -> Seq<Seq<u64>> {
    ring.map_values(|p: Vec<u64>| p@)
}

/// What each ring of a polygon holds.
pub open spec fn rings_view(rings: Seq<Vec<Vec<u64>>>) -> Seq<Seq<Seq<u64>>> {
    rings.map_values(|r: Vec<Vec<u64>>| ring_view(r@))
}

/// What each polygon of a multi-polygon holds.
pub open spec fn multi_view(polygons: Seq<Vec<Vec<Vec<u64>>>>) -> Seq<Seq<Seq<Seq<u64>>>> {
    polygons.map_values(|p: Vec<Vec<Vec<u64>>>| rings_view(p@))
}

impl View for RawGeometry {
    type V = RawGeometryView;

    open spec fn view(&self) -> RawGeometryView {
        match self {
            RawGeometry::Point(p) => RawGeometryView::Point(p@),
            RawGeometry::Polygon(rings) => RawGeometryView::Polygon(rings_view(rings@)),
            RawGeometry::MultiPolygon(ps) => RawGeometryView::MultiPolygon(multi_view(ps@)),
            RawGeometry::Other => RawGeometryView::Other,
        }
    }
}

/// A feature of a document: its geometry, if it has one, and its properties,
/// if it has any, in the order of the document.
#[derive(Debug)]
pub struct RawFeature {
    pub geometry: Option<RawGeometry>,
    pub properties: Option<Vec<(String, JsonProperty)>>,
}

/// What a `RawFeature` holds. A feature without properties has none.
pub struct RawFeatureView {
    pub geometry: Option<RawGeometryView>,
    pub properties: Seq<(Seq<char>, PropertyView)>,
}

/// What each of the properties holds.
pub open spec fn property_views(properties: Seq<(String, JsonProperty)>) -> Seq<
    (Seq<char>, PropertyView),
> {
    properties.map_values(|e: (String, JsonProperty)| (e.0@, e.1@))
}

impl View for RawFeature {
    type V = RawFeatureView;

    open spec fn view(&self) -> RawFeatureView {
        RawFeatureView {
            geometry: match self.geometry {
                Some(g) => Some(g@),
                None => None,
            },
            properties: match self.properties {
                Some(ps) => property_views(ps@),
                None => Seq::empty(),
            },
        }
    }
}

/// What each of the features holds.
pub open spec fn feature_views(features: Seq<RawFeature>) -> Seq<RawFeatureView> {
    features.map_values(|f: RawFeature| f@)
}

/// The point of a position: its first two coordinates, where it has them and
/// both are finite.
pub open spec fn point_at(position: Seq<u64>) -> Option<Point> {
    if position.len() >= 2 && is_finite(position[0]) && is_finite(position[1]) {
        Some(Point { x: position[0], y: position[1] })
    } else {
        None
    }
}

/// Every position of the ring has a point.
pub open spec fn ring_valid(ring: Seq<Seq<u64>>) -> bool {
    forall|i: int| 0 <= i < ring.len() ==> point_at(#[trigger] ring[i]) is Some
}

/// The points of the positions of a ring.
pub open spec fn ring_points(ring: Seq<Seq<u64>>) -> Seq<Point> {
    ring.map_values(|p: Seq<u64>| point_at(p)->0)
}

/// Every position of every ring has a point.
pub open spec fn polygon_valid(rings: Seq<Seq<Seq<u64>>>) -> bool {
    forall|k: int| 0 <= k < rings.len() ==> ring_valid(#[trigger] rings[k])
}

/// The polygon of a list of rings: the first ring is the outline, the others
/// are holes. Without rings the outline is empty.
pub open spec fn polygon_of(rings: Seq<Seq<Seq<u64>>>) -> PolygonView {
    PolygonView {
        exterior: if rings.len() > 0 {
            ring_points(rings[0])
        } else {
            Seq::empty()
        },
        interiors: if rings.len() > 0 {
            rings.skip(1).map_values(|r: Seq<Seq<u64>>| ring_points(r))
        } else {
            Seq::empty()
        },
    }
}

/// Every position of every polygon has a point.
pub open spec fn multi_valid(polygons: Seq<Seq<Seq<Seq<u64>>>>) -> bool {
    forall|k: int| 0 <= k < polygons.len() ==> polygon_valid(#[trigger] polygons[k])
}

/// The geometry that the index holds for the geometry of a document, or why
/// it holds none.
pub open spec fn area_of(geometry: RawGeometryView) -> Result<AreaView, ErrorKind> {
    match geometry {
        RawGeometryView::Point(p) => match point_at(p) {
            Some(q) => Ok(AreaView::Point(q)),
            None => Err(ErrorKind::InvalidPoint),
        },
        RawGeometryView::Polygon(rings) => if polygon_valid(rings) {
            Ok(AreaView::Polygon(polygon_of(rings)))
        } else {
            Err(ErrorKind::InvalidPolygon)
        },
        RawGeometryView::MultiPolygon(ps) => if multi_valid(ps) {
            Ok(AreaView::MultiPolygon(ps.map_values(|p: Seq<Seq<Seq<u64>>>| polygon_of(p))))
        } else {
            Err(ErrorKind::InvalidMultiPolygon)
        },
        RawGeometryView::Other => Err(ErrorKind::InvalidFeature),
    }
}

/// The text of a property that is a text or a number.
pub open spec fn text_of(value: PropertyView) -> Seq<char> {
    match value {
        PropertyView::Text(t) => t,
        PropertyView::Number(t) => t,
        PropertyView::Other => Seq::empty(),
    }
}

/// Every property is a text or a number.
pub open spec fn all_scalar(properties: Seq<(Seq<char>, PropertyView)>) -> bool {
    forall|i: int| 0 <= i < properties.len() ==> !((#[trigger] properties[i]).1 is Other)
}

/// The map of the properties, each with its text: a later value of a key
/// replaces an earlier one.
pub open spec fn text_map(properties: Seq<(Seq<char>, PropertyView)>) -> Map<Seq<char>, Seq<char>>
    decreases properties.len(),
{
    if properties.len() == 0 {
        Map::empty()
    } else {
        text_map(properties.drop_last()).insert(
            properties.last().0,
            text_of(properties.last().1),
        )
    }
}

/// What the index holds of a feature.
pub struct IndexableView {
    pub bbox: Rect,
    pub area: AreaView,
    pub properties: Map<Seq<char>, Seq<char>>,
}

/// What the index holds of a feature of a document, or why the feature is
/// refused. The geometry is looked at before the properties.
pub open spec fn indexed(feature: RawFeatureView) -> Result<IndexableView, ErrorKind> {
    match feature.geometry {
        None => Err(ErrorKind::GeometryNotFound),
        Some(g) => match area_of(g) {
            Err(e) => Err(e),
            Ok(area) => match area.mbr() {
                None => Err(ErrorKind::GeometryNotFound),
                Some(bbox) => if all_scalar(feature.properties) {
                    Ok(IndexableView { bbox, area, properties: text_map(feature.properties) })
                } else {
                    Err(ErrorKind::InvalidProperty)
                },
            },
        },
    }
}

/// The point of a position, if it has one.
fn point_from(position: &Vec<u64>) -> (r: Option<Point>)
    ensures
        r == point_at(position@),
{
    if position.len() >= 2 && finite(position[0]) && finite(position[1]) {
        Some(Point { x: position[0], y: position[1] })
    } else {
        None
    }
}

/// The points of a ring, if every position has one.
fn ring_from(ring: &Vec<Vec<u64>>) -> (r: Option<Vec<Point>>)
    ensures
        match r {
            Some(points) => {
                &&& ring_valid(ring_view(ring@))
                &&& points@ == ring_points(ring_view(ring@))
                &&& all_finite(points@)
            },
            None => !ring_valid(ring_view(ring@)),
        },
{
    let ghost positions = ring_view(ring@);
    let mut points: Vec<Point> = Vec::new();
    let mut i: usize = 0;
    while i < ring.len()
        invariant
            i <= ring.len(),
            positions == ring_view(ring@),
            points@.len() == i,
            forall|j: int| 0 <= j < i ==> point_at(#[trigger] positions[j]) == Some(points@[j]),
        decreases ring.len() - i,
    {
        assert(positions[i as int] == ring@[i as int]@);
        match point_from(&ring[i]) {
            Some(p) => {
                points.push(p);
            },
            None => {
                return None;
            },
        }
        i = i + 1;
    }
    assert(points@ =~= ring_points(positions));
    Some(points)
}

/// The polygon of a list of rings, if every position has a point.
fn polygon_from(rings: &Vec<Vec<Vec<u64>>>) -> (r: Option<Polygon>)
    ensures
        match r {
            Some(p) => {
                &&& polygon_valid(rings_view(rings@))
                &&& p@ == polygon_of(rings_view(rings@))
                &&& p@.is_finite()
            },
            None => !polygon_valid(rings_view(rings@)),
        },
{
    let ghost shape = rings_view(rings@);
    let mut exterior: Vec<Point> = Vec::new();
    let mut interiors: Vec<Vec<Point>> = Vec::new();
    let mut k: usize = 0;
    while k < rings.len()
        invariant
            k <= rings.len(),
            shape == rings_view(rings@),
            forall|j: int| 0 <= j < k ==> ring_valid(#[trigger] shape[j]),
            k == 0 ==> exterior@.len() == 0 && interiors@.len() == 0,
            all_finite(exterior@),
            forall|j: int| 0 <= j < interiors@.len() ==> all_finite((#[trigger] interiors@[j])@),
            k > 0 ==> exterior@ == ring_points(shape[0]) && interiors@.len() == k - 1,
            forall|j: int|
                0 <= j < interiors@.len() ==> (#[trigger] interiors@[j])@ == ring_points(
                    shape[j + 1],
                ),
        decreases rings.len() - k,
    {
        assert(shape[k as int] == ring_view(rings@[k as int]@));
        match ring_from(&rings[k]) {
            Some(points) => {
                if k == 0 {
                    exterior = points;
                } else {
                    interiors.push(points);
                }
            },
            None => {
                return None;
            },
        }
        k = k + 1;
    }
    let polygon = Polygon { exterior, interiors };
    proof {
        let want = polygon_of(shape);
        assert(polygon@.exterior =~= want.exterior);
        assert(polygon@.interiors =~= want.interiors);
        assert forall|j: int| 0 <= j < polygon@.interiors.len() implies all_finite(
            #[trigger] polygon@.interiors[j],
        ) by {
            assert(polygon@.interiors[j] == polygon.interiors@[j]@);
        }
    }
    Some(polygon)
}

/// The polygons of a multi-polygon, if every position has a point.
fn multi_from(polygons: &Vec<Vec<Vec<Vec<u64>>>>) -> (r: Option<Vec<Polygon>>)
    ensures
        match r {
            Some(ps) => {
                &&& multi_valid(multi_view(polygons@))
                &&& crate::geometry::polygon_views(ps@) == multi_view(polygons@).map_values(
                    |p: Seq<Seq<Seq<u64>>>| polygon_of(p),
                )
                &&& forall|j: int|
                    0 <= j < ps@.len() ==> (#[trigger] crate::geometry::polygon_views(
                        ps@,
                    )[j]).is_finite()
            },
            None => !multi_valid(multi_view(polygons@)),
        },
{
    let ghost shape = multi_view(polygons@);
    let mut out: Vec<Polygon> = Vec::new();
    let mut k: usize = 0;
    while k < polygons.len()
        invariant
            k <= polygons.len(),
            shape == multi_view(polygons@),
            out@.len() == k,
            forall|j: int| 0 <= j < k ==> polygon_valid(#[trigger] shape[j]),
            forall|j: int| 0 <= j < k ==> (#[trigger] out@[j])@ == polygon_of(shape[j]),
            forall|j: int| 0 <= j < k ==> (#[trigger] out@[j])@.is_finite(),
        decreases polygons.len() - k,
    {
        assert(shape[k as int] == rings_view(polygons@[k as int]@));
        match polygon_from(&polygons[k]) {
            Some(p) => {
                out.push(p);
            },
            None => {
                return None;
            },
        }
        k = k + 1;
    }
    assert(crate::geometry::polygon_views(out@) =~= shape.map_values(
        |p: Seq<Seq<Seq<u64>>>| polygon_of(p),
    ));
    Some(out)
}

/// The geometry that the index holds for the geometry of a document.
fn area_from(geometry: &RawGeometry) -> (r: Result<Area, PolygonFinderError>)
    ensures
        match r {
            Ok(area) => area_of(geometry@) == Ok::<AreaView, ErrorKind>(area@) && area@.is_finite(),
            Err(e) => area_of(geometry@) == Err::<AreaView, ErrorKind>(e@),
        },
{
    match geometry {
        RawGeometry::Point(position) => match point_from(position) {
            Some(p) => Ok(Area::Point(p)),
            None => Err(PolygonFinderError::InvalidPoint),
        },
        RawGeometry::Polygon(rings) => match polygon_from(rings) {
            Some(p) => Ok(Area::Polygon(p)),
            None => Err(PolygonFinderError::InvalidPolygon),
        },
        RawGeometry::MultiPolygon(polygons) => match multi_from(polygons) {
            Some(ps) => Ok(Area::MultiPolygon(ps)),
            None => Err(PolygonFinderError::InvalidMultiPolygon),
        },
        RawGeometry::Other => Err(PolygonFinderError::InvalidFeature),
    }
}

/// The property map of the properties of a document, or the first value
/// among them that is neither a text nor a number.
fn properties_from(properties: Vec<(String, JsonProperty)>) -> (r: Result<
    PropertyMap,
    PolygonFinderError,
>)
    ensures
        match r {
            Ok(map) => {
                &&& all_scalar(property_views(properties@))
                &&& map@ == text_map(property_views(properties@))
            },
            Err(e) => !all_scalar(property_views(properties@)) && e@ == ErrorKind::InvalidProperty,
        },
{
    let ghost all = property_views(properties@);
    let ghost count = properties@.len();
    let mut stack = reversed(properties);
    let mut map = PropertyMap::new();
    while stack.len() > 0
        invariant
            all == property_views(properties@),
            count == properties@.len(),
            stack@.len() <= count,
            stack@ == properties@.reverse().take(stack@.len() as int),
            forall|j: int| 0 <= j < count - stack@.len() ==> !((#[trigger] all[j]).1 is Other),
            map@ == text_map(all.take(count - stack@.len())),
        decreases stack@.len(),
    {
        let ghost before = stack@;
        let ghost done = count - before.len();
        match stack.pop() {
            Some((key, value)) => {
                proof {
                    assert((key, value) == properties@.reverse()[before.len() - 1]);
                    assert((key, value) == properties@[done]);
                    assert(all[done] == (key@, value@));
                    assert(all.take(done + 1).drop_last() =~= all.take(done));
                    assert(all.take(done + 1).last() == all[done]);
                    assert(stack@ =~= properties@.reverse().take(stack@.len() as int));
                }
                match value {
                    JsonProperty::Text(text) => {
                        map.insert(key, text);
                    },
                    JsonProperty::Number(text) => {
                        map.insert(key, text);
                    },
                    JsonProperty::Other(other) => {
                        return Err(PolygonFinderError::InvalidProperty(other));
                    },
                }
            },
            None => {},
        }
    }
    proof {
        assert(all.take(count as int) =~= all);
    }
    Ok(map)
}

/// A feature of the index: a geometry, its minimum bounding rectangle and
/// its properties.
#[derive(Debug)]
pub struct IndexablePolygon {
    bbox: Rect,
    area: Area,
    properties: PropertyMap,
}

impl View for IndexablePolygon {
    type V = IndexableView;

    closed spec fn view(&self) -> IndexableView {
        IndexableView { bbox: self.bbox, area: self.area@, properties: self.properties@ }
    }
}

impl IndexablePolygon {
    /// Every point of the geometry is finite, and the rectangle is the
    /// minimum bounding rectangle of the geometry.
    #[verifier::type_invariant]
    spec fn inv(self) -> bool {
        self.area@.is_finite() && self.area@.mbr() == Some(self.bbox)
    }

    /// Builds the feature of the index from a feature of a document.
    ///
    /// Refused are, in this order: a feature without geometry
    /// (`GeometryNotFound`); a geometry that is neither a polygon, a
    /// multi-polygon nor a point (`InvalidFeature`); a position with fewer
    /// than two coordinates or with one that is not finite (`InvalidPoint`,
    /// `InvalidPolygon`, `InvalidMultiPolygon`); a geometry without any point
    /// (`GeometryNotFound`); a property that is neither a text nor a number
    /// (`InvalidProperty`, with the first such value).
    pub fn new(feature: RawFeature) -> (r: Result<IndexablePolygon, PolygonFinderError>)
        ensures
            match r {
                Ok(f) => indexed(feature@) == Ok::<IndexableView, ErrorKind>(f@),
                Err(e) => indexed(feature@) == Err::<IndexableView, ErrorKind>(e@),
            },
    {
        let RawFeature { geometry, properties } = feature;
        let geometry = match geometry {
            Some(g) => g,
            None => {
                return Err(PolygonFinderError::GeometryNotFound);
            },
        };
        let area = match area_from(&geometry) {
            Ok(a) => a,
            Err(e) => {
                return Err(e);
            },
        };
        let bbox = match area.mbr() {
            Some(b) => b,
            None => {
                return Err(PolygonFinderError::GeometryNotFound);
            },
        };
        let properties = match properties {
            Some(ps) => ps,
            None => {
                assert(property_views(Seq::<(String, JsonProperty)>::empty()) =~= Seq::empty());
                Vec::new()
            },
        };
        match properties_from(properties) {
            Ok(map) => Ok(IndexablePolygon { bbox, area, properties: map }),
            Err(e) => Err(e),
        }
    }

    /// The minimum bounding rectangle of the geometry.
    pub fn bbox(&self) -> (r: &Rect)
        ensures
            *r == self@.bbox,
            self@.area.mbr() == Some(*r),
            r.wf(),
    {
        proof {
            use_type_invariant(self);
            lemma_mbr_wf(self.area@);
        }
        &self.bbox
    }

    /// The geometry. Every point of it is finite.
    pub fn area(&self) -> (r: &Area)
        ensures
            r@ == self@.area,
            r@.is_finite(),
    {
        proof {
            use_type_invariant(self);
        }
        &self.area
    }

    /// The properties.
    pub fn properties(&self) -> (r: &PropertyMap)
        ensures
            r@ == self@.properties,
            r.entries() == self.entries(),
    {
        &self.properties
    }

    /// The entries of the properties, in their order.
    pub closed spec fn entries(self) -> Seq<(Seq<char>, Seq<char>)> {
        self.properties.entries()
    }

    /// The properties are the map of their entries.
    pub proof fn lemma_entries(self)
        ensures
            self@.properties == crate::properties::entries_map(self.entries()),
    {
        self.properties.lemma_view();
    }

    /// The feature of the index with the given geometry and properties, if
    /// the geometry has a point and every point of it is finite.
    pub fn from_parts(area: Area, properties: PropertyMap) -> (r: Option<IndexablePolygon>)
        ensures
            match r {
                Some(f) => {
                    &&& area@.is_finite()
                    &&& area@.mbr() == Some(f@.bbox)
                    &&& f@.area == area@
                    &&& f@.properties == properties@
                    &&& f.entries() == properties.entries()
                },
                None => area@.mbr() is None || !area@.is_finite(),
            },
    {
        if !area.finite() {
            return None;
        }
        match area.mbr() {
            Some(bbox) => Some(IndexablePolygon { bbox, area, properties }),
            None => None,
        }
    }
}

} // verus!
