//! The index: the features of a document and the search for the feature
//! that holds a point.

use vstd::prelude::*;

use crate::coord::Point;
use crate::error::{ErrorKind, PolygonFinderError};
use crate::feature::{
    feature_views, indexed, text_map, IndexablePolygon, IndexableView, RawFeature, RawFeatureView,
};
use crate::geometry::{holds_exactly, Placement};
use crate::list::reversed;
use crate::properties::PropertyMap;
use crate::source::{document, read_document, Document};

verus! {

/// How many of the nearest features a search looks at, unless the index is
/// told otherwise.
pub const DEFAULT_NEIGHBORS_TESTS: usize = 10;

/// The index. It owns its features, which never change, and the number of
/// nearest features that a search looks at.
#[derive(Debug)]
pub struct PolygonFinder {
    features: Vec<IndexablePolygon>,
    neighbors_tests: usize,
}

/// What an index holds.
pub struct FinderView {
    pub features: Seq<IndexableView>,
    pub neighbors_tests: usize,
}

/// What each feature of the index holds.
pub open spec fn indexable_views(features: Seq<IndexablePolygon>) -> Seq<IndexableView> {
    features.map_values(|f: IndexablePolygon| f@)
}

impl View for PolygonFinder {
    type V = FinderView;

    closed spec fn view(&self) -> FinderView {
        FinderView {
            features: indexable_views(self.features@),
            neighbors_tests: self.neighbors_tests,
        }
    }
}

/// A feature of the document is the first that the index refuses.
pub open spec fn refused_at(features: Seq<RawFeatureView>, i: int) -> bool {
    &&& 0 <= i < features.len()
    &&& indexed(features[i]) is Err
    &&& forall|j: int| 0 <= j < i ==> indexed(#[trigger] features[j]) is Ok
}

/// The index of the features of a document: each feature as `indexed` gives
/// it, in the order of the document. One refused feature refuses them all,
/// with the error of the first such feature.
pub open spec fn built(features: Seq<RawFeatureView>) -> Result<FinderView, ErrorKind> {
    if exists|i: int| refused_at(features, i) {
        Err(indexed(features[choose|i: int| refused_at(features, i)])->Err_0)
    } else {
        Ok(
            FinderView {
                features: features.map_values(|f: RawFeatureView| indexed(f)->Ok_0),
                neighbors_tests: DEFAULT_NEIGHBORS_TESTS,
            },
        )
    }
}

/// An index that is built has one feature for each feature of the document,
/// in the same order, each with the geometry of its source, the minimum
/// bounding rectangle of that geometry, and the properties of its source, a
/// number in its decimal form.
pub proof fn lemma_built_keeps_features(features: Seq<RawFeatureView>, finder: FinderView)
    requires
        built(features) == Ok::<FinderView, ErrorKind>(finder),
    ensures
        finder.features.len() == features.len(),
        finder.neighbors_tests == DEFAULT_NEIGHBORS_TESTS,
        forall|i: int|
            0 <= i < features.len() ==> {
                &&& indexed(#[trigger] features[i]) == Ok::<IndexableView, ErrorKind>(
                    finder.features[i],
                )
                &&& finder.features[i].properties == text_map(features[i].properties)
                &&& finder.features[i].area.mbr() == Some(finder.features[i].bbox)
            },
{
    assert forall|i: int| 0 <= i < features.len() implies {
        &&& indexed(#[trigger] features[i]) == Ok::<IndexableView, ErrorKind>(finder.features[i])
        &&& finder.features[i].properties == text_map(features[i].properties)
        &&& finder.features[i].area.mbr() == Some(finder.features[i].bbox)
    } by {
        if indexed(features[i]) is Err {
            // some feature is refused, so the first refused one exists
            lemma_first_refused(features, i);
        }
    }
}

/// Where a feature is refused, one is the first to be refused.
proof fn lemma_first_refused(features: Seq<RawFeatureView>, i: int)
    requires
        0 <= i < features.len(),
        indexed(features[i]) is Err,
    ensures
        exists|k: int| refused_at(features, k),
    decreases i,
{
    if forall|j: int| 0 <= j < i ==> indexed(#[trigger] features[j]) is Ok {
        assert(refused_at(features, i));
    } else {
        let j = choose|j: int| 0 <= j < i && !(indexed(#[trigger] features[j]) is Ok);
        lemma_first_refused(features, j);
    }
}

/// The index of a GeoJSON text.
pub open spec fn loaded(text: Seq<char>) -> Result<FinderView, ErrorKind> {
    match document(text) {
        Document::Malformed => Err(ErrorKind::Parse),
        Document::NotACollection => Err(ErrorKind::FeatureCollectionNotFound),
        Document::Collection(features) => built(features),
    }
}

/// The result is `want`: an index that holds the same, or an error of the
/// same kind.
pub open spec fn gives(
    r: Result<PolygonFinder, PolygonFinderError>,
    want: Result<FinderView, ErrorKind>,
) -> bool {
    match r {
        Ok(finder) => want == Ok::<FinderView, ErrorKind>(finder@),
        Err(e) => want == Err::<FinderView, ErrorKind>(e@),
    }
}

impl PolygonFinder {
    /// The index of the given features, in their order.
    pub fn bulk_load(features: Vec<IndexablePolygon>) -> (finder: PolygonFinder)
        ensures
            finder@.features == indexable_views(features@),
            finder@.neighbors_tests == DEFAULT_NEIGHBORS_TESTS,
            forall|i: int| 0 <= i < features@.len() ==> finder.feature_at(i) == features@[i],
    {
        PolygonFinder { features, neighbors_tests: DEFAULT_NEIGHBORS_TESTS }
    }

    /// The same index with another number of nearest features to look at.
    pub fn with_neighbors_tests(self, neighbors_tests: usize) -> (finder: PolygonFinder)
        ensures
            finder@.features == self@.features,
            finder@.neighbors_tests == neighbors_tests,
    {
        PolygonFinder { features: self.features, neighbors_tests }
    }

    /// The index of the features of a document. The index has as many
    /// features as the document, each with the properties of its source, a
    /// number in its decimal form. The first feature that cannot be indexed
    /// ends the build with its error.
    pub fn from_features(features: Vec<RawFeature>) -> (r: Result<
        PolygonFinder,
        PolygonFinderError,
    >)
        ensures
            gives(r, built(feature_views(features@))),
    {
        let ghost all = feature_views(features@);
        let ghost count = features@.len();
        let mut stack = reversed(features);
        let mut out: Vec<IndexablePolygon> = Vec::new();
        while stack.len() > 0
            invariant
                all == feature_views(features@),
                count == features@.len(),
                stack@.len() <= count,
                stack@ == features@.reverse().take(stack@.len() as int),
                out@.len() == count - stack@.len(),
                forall|j: int|
                    0 <= j < out@.len() ==> indexed(#[trigger] all[j]) == Ok::<
                        IndexableView,
                        ErrorKind,
                    >(out@[j]@),
            decreases stack@.len(),
        {
            let ghost before = stack@;
            let ghost i = count - before.len();
            match stack.pop() {
                Some(feature) => {
                    proof {
                        assert(feature == features@.reverse()[before.len() - 1]);
                        assert(feature == features@[i]);
                        assert(all[i] == feature@);
                        assert(stack@ =~= features@.reverse().take(stack@.len() as int));
                    }
                    match IndexablePolygon::new(feature) {
                        Ok(indexable) => {
                            out.push(indexable);
                        },
                        Err(e) => {
                            proof {
                                assert(refused_at(all, i));
                                let first = choose|k: int| refused_at(all, k);
                                assert(first == i) by {
                                    if first < i {
                                        assert(indexed(all[first]) is Ok);
                                    } else if i < first {
                                        assert(indexed(all[i]) is Ok);
                                    }
                                }
                            }
                            return Err(e);
                        },
                    }
                },
                None => {},
            }
        }
        let finder = PolygonFinder::bulk_load(out);
        proof {
            assert forall|k: int| !refused_at(all, k) by {
                if 0 <= k < count {
                    assert(indexed(all[k]) is Ok);
                }
            }
            assert(finder@.features =~= all.map_values(|f: RawFeatureView| indexed(f)->Ok_0));
        }
        Ok(finder)
    }

    /// The index of a GeoJSON text, which must be a feature collection.
    pub fn new_from_string(geo_json_str: &str) -> (r: Result<PolygonFinder, PolygonFinderError>)
        ensures
            gives(r, loaded(geo_json_str@)),
    {
        match read_document(geo_json_str) {
            Err(e) => Err(PolygonFinderError::Parse(e)),
            Ok(None) => Err(PolygonFinderError::FeatureCollectionNotFound),
            Ok(Some(features)) => PolygonFinder::from_features(features),
        }
    }

    /// The index of a GeoJSON text, which must be a feature collection.
    pub fn new(geo_json: &str) -> (r: Result<PolygonFinder, PolygonFinderError>)
        ensures
            gives(r, loaded(geo_json@)),
    {
        PolygonFinder::new_from_string(geo_json)
    }

    /// The number of features.
    pub fn len(&self) -> (n: usize)
        ensures
            n == self@.features.len(),
    {
        self.features.len()
    }

    /// The feature at a position.
    pub fn feature(&self, position: usize) -> (f: &IndexablePolygon)
        requires
            position < self@.features.len(),
        ensures
            f@ == self@.features[position as int],
            *f == self.feature_at(position as int),
    {
        &self.features[position]
    }

    /// The feature at a position.
    pub closed spec fn feature_at(self, position: int) -> IndexablePolygon {
        self.features@[position]
    }

    /// The number of nearest features that a search looks at.
    pub fn neighbors_tests(&self) -> (k: usize)
        ensures
            k == self@.neighbors_tests,
    {
        self.neighbors_tests
    }
}

impl FinderView {
    /// The candidate is a feature of the index whose bounding rectangle
    /// holds the point.
    pub open spec fn covers(self, candidate: usize, point: Point) -> bool {
        candidate < self.features.len() && self.features[candidate as int].bbox.covers(point)
    }
}

/// `answer` is what the exact test says of a feature of the index and a
/// point: see `holds_exactly`.
pub open spec fn exact<F: Fn(usize, &Point) -> Placement>(
    finder: FinderView,
    within: F,
    candidate: usize,
    point: Point,
    answer: bool,
) -> bool {
    holds_exactly(finder.features[candidate as int].area, within, candidate, point, answer)
}

/// The search went past the candidate at place `k`: its bounding rectangle
/// holds the point and the exact test failed.
pub open spec fn passed<F: Fn(usize, &Point) -> Placement>(
    finder: FinderView,
    within: F,
    candidates: Seq<usize>,
    point: Point,
    k: int,
) -> bool {
    finder.covers(candidates[k], point) && exact(finder, within, candidates[k], point, false)
}

/// How a search ended.
#[derive(Clone, Copy, Debug, PartialEq, Eq, Structural)]
pub struct Probe {
    /// The position in the index of the feature that holds the point.
    pub hit: Option<usize>,
    /// How many candidates the search looked at, the last one included.
    pub examined: usize,
}

/// `probe` is a way in which the search for a point among the candidates can
/// end.
///
/// The search looks at the candidates in their order, and at no more of them
/// than the index allows. It goes past a candidate whose rectangle holds the
/// point and whose exact test fails. It ends with a hit at the first
/// candidate whose rectangle holds the point and whose exact test holds, and
/// without one at the first candidate whose rectangle does not hold the point
/// or when no candidate is left to look at.
pub open spec fn search_ends<F: Fn(usize, &Point) -> Placement>(
    finder: FinderView,
    within: F,
    candidates: Seq<usize>,
    point: Point,
    probe: Probe,
) -> bool {
    let n: int = probe.examined as int;
    &&& n <= candidates.len()
    &&& n <= finder.neighbors_tests
    &&& forall|k: int| 0 <= k < n - 1 ==> passed(finder, within, candidates, point, k)
    &&& match probe.hit {
        Some(c) => {
            &&& n > 0
            &&& c == candidates[n - 1]
            &&& finder.covers(c, point)
            &&& exact(finder, within, c, point, true)
        },
        None => {
            ||| n > 0 && !finder.covers(candidates[n - 1], point)
            ||| {
                &&& n == candidates.len() || n == finder.neighbors_tests
                &&& n > 0 ==> passed(finder, within, candidates, point, n - 1)
            }
        },
    }
}

/// A feature that a search finds holds the point: its bounding rectangle
/// does, and its exact test holds.
pub proof fn lemma_hit_holds_point<F: Fn(usize, &Point) -> Placement>(
    finder: FinderView,
    within: F,
    candidates: Seq<usize>,
    point: Point,
    probe: Probe,
)
    requires
        search_ends(finder, within, candidates, point, probe),
        probe.hit is Some,
    ensures
        finder.covers(probe.hit->0, point),
        exact(finder, within, probe.hit->0, point, true),
{
}

/// Where no bounding rectangle of the index holds the point, a search finds
/// nothing, and it looks at one candidate at most.
pub proof fn lemma_miss_outside_all<F: Fn(usize, &Point) -> Placement>(
    finder: FinderView,
    within: F,
    candidates: Seq<usize>,
    point: Point,
    probe: Probe,
)
    requires
        search_ends(finder, within, candidates, point, probe),
        forall|c: usize| !finder.covers(c, point),
    ensures
        probe.hit is None,
        probe.examined <= 1,
        probe.examined <= finder.neighbors_tests,
{
    if probe.examined >= 2 {
        assert(passed(finder, within, candidates, point, 0));
    }
}

/// The candidates whose rectangle holds the point come before the others, as
/// they do where the candidates are ordered by the distance from the point to
/// their rectangle.
pub open spec fn nearest_first(finder: FinderView, candidates: Seq<usize>, point: Point) -> bool {
    forall|i: int, j: int|
        0 <= i < j < candidates.len() && finder.covers(#[trigger] candidates[j], point)
            ==> finder.covers(#[trigger] candidates[i], point)
}

/// Ending a search at the first candidate whose rectangle does not hold the
/// point loses nothing: where the nearest candidates come first, no later
/// candidate has a rectangle that holds the point.
pub proof fn lemma_early_out_loses_nothing<F: Fn(usize, &Point) -> Placement>(
    finder: FinderView,
    within: F,
    candidates: Seq<usize>,
    point: Point,
    probe: Probe,
)
    requires
        search_ends(finder, within, candidates, point, probe),
        nearest_first(finder, candidates, point),
        probe.examined > 0,
        !finder.covers(candidates[probe.examined - 1], point),
    ensures
        probe.hit is None,
        forall|j: int|
            probe.examined - 1 <= j < candidates.len() ==> !finder.covers(
                #[trigger] candidates[j],
                point,
            ),
{
    let last = probe.examined - 1;
    assert forall|j: int| last <= j < candidates.len() implies !finder.covers(
        #[trigger] candidates[j],
        point,
    ) by {
        if last < j && finder.covers(candidates[j], point) {
            assert(finder.covers(candidates[last], point));
        }
    }
}

/// The feature that holds a point.
#[derive(Debug)]
pub struct FindResult<'a> {
    /// The properties of the feature.
    pub props: &'a PropertyMap,
    /// The distance from the point to the feature, as the bits of a double:
    /// always those of zero.
    pub distance: u64,
}

impl PolygonFinder {
    /// Searches the candidates for the feature that holds the point.
    ///
    /// `candidates` are positions of features, nearest bounding rectangle
    /// first. A position that is none of the index ends the search like a
    /// rectangle that does not hold the point. `within` tells where a point
    /// lies by the polygons of a feature of the index, given by its position;
    /// it is asked only about candidates whose rectangle holds the point, one
    /// at a time, until one holds the point.
    pub fn probe<F: Fn(usize, &Point) -> Placement>(
        &self,
        point: &Point,
        candidates: &Vec<usize>,
        within: &F,
    ) -> (probe: Probe)
        requires
            forall|c: usize, p: &Point| within.requires((c, p)),
        ensures
            search_ends(self@, *within, candidates@, *point, probe),
    {
        let mut k: usize = 0;
        while k < candidates.len() && k < self.neighbors_tests
            invariant
                k <= candidates@.len(),
                k <= self.neighbors_tests,
                forall|c: usize, p: &Point| within.requires((c, p)),
                forall|j: int| 0 <= j < k ==> passed(self@, *within, candidates@, *point, j),
            decreases candidates@.len() - k,
        {
            let c: usize = candidates[k];
            if c >= self.features.len() {
                return Probe { hit: None, examined: k + 1 };
            }
            let feature = &self.features[c];
            assert(self@.features[c as int] == feature@);
            if !feature.bbox().contains_point(point) {
                return Probe { hit: None, examined: k + 1 };
            }
            if feature.area().contains_exact(c, point, within) {
                return Probe { hit: Some(c), examined: k + 1 };
            }
            k = k + 1;
        }
        Probe { hit: None, examined: k }
    }

    /// The feature that holds the point, among the candidates, with the
    /// distance zero. See `probe` for `candidates` and `within`.
    pub fn find_by_point<F: Fn(usize, &Point) -> Placement>(
        &self,
        point: &Point,
        candidates: &Vec<usize>,
        within: &F,
    ) -> (r: Option<Box<FindResult<'_>>>)
        requires
            forall|c: usize, p: &Point| within.requires((c, p)),
        ensures
            exists|probe: Probe|
                {
                    &&& search_ends(self@, *within, candidates@, *point, probe)
                    &&& match r {
                        Some(found) => {
                            &&& probe.hit is Some
                            &&& found.props@ == self@.features[probe.hit->0 as int].properties
                            &&& found.distance == 0
                        },
                        None => probe.hit is None,
                    }
                },
            (forall|c: usize| !self@.covers(c, *point)) ==> r is None,
    {
        let probe = self.probe(point, candidates, within);
        proof {
            if forall|c: usize| !self@.covers(c, *point) {
                lemma_miss_outside_all(self@, *within, candidates@, *point, probe);
            }
        }
        match probe.hit {
            Some(c) => {
                let feature = &self.features[c];
                assert(self@.features[c as int] == feature@);
                Some(Box::new(FindResult { props: feature.properties(), distance: 0 }))
            },
            None => None,
        }
    }

    /// The feature that holds the point of the given latitude and longitude,
    /// each the bits of a double: `find_by_point` for the point whose `x` is
    /// the longitude and whose `y` is the latitude.
    pub fn find<F: Fn(usize, &Point) -> Placement>(
        &self,
        latitude: u64,
        longitude: u64,
        candidates: &Vec<usize>,
        within: &F,
    ) -> (r: Option<Box<FindResult<'_>>>)
        requires
            forall|c: usize, p: &Point| within.requires((c, p)),
        ensures
            exists|probe: Probe|
                {
                    &&& search_ends(
                        self@,
                        *within,
                        candidates@,
                        (Point { x: longitude, y: latitude }),
                        probe,
                    )
                    &&& match r {
                        Some(found) => {
                            &&& probe.hit is Some
                            &&& found.props@ == self@.features[probe.hit->0 as int].properties
                            &&& found.distance == 0
                        },
                        None => probe.hit is None,
                    }
                },
            (forall|c: usize| !self@.covers(c, (Point { x: longitude, y: latitude }))) ==> r is None,
    {
        let point = Point { x: longitude, y: latitude };
        self.find_by_point(&point, candidates, within)
    }
}

} // verus!
