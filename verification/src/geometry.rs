//! Rectangles, polygons and the bounding rectangle of a geometry.

use vstd::prelude::*;

use crate::coord::{le, lt, rank, Point};

verus! {

/// An axis-aligned rectangle, given by its least and greatest corner.
#[derive(Clone, Copy, Debug, PartialEq, Eq, Structural)]
pub struct Rect {
    pub min: Point,
    pub max: Point,
}

impl Rect {
    /// The corners are finite and `min` is not beyond `max` on either axis.
    pub open spec fn wf(self) -> bool {
        &&& self.min.is_finite()
        &&& self.max.is_finite()
        &&& rank(self.min.x) <= rank(self.max.x)
        &&& rank(self.min.y) <= rank(self.max.y)
    }

    /// The point lies in the rectangle, borders included.
    pub open spec fn covers(self, p: Point) -> bool {
        &&& rank(self.min.x) <= rank(p.x) <= rank(self.max.x)
        &&& rank(self.min.y) <= rank(p.y) <= rank(self.max.y)
    }

    /// The rectangle that holds `p` alone.
    pub open spec fn at(p: Point) -> Rect {
        Rect { min: p, max: p }
    }

    /// The rectangle stretched as far as needed to hold `p`. A coordinate of
    /// a corner changes only where `p` lies strictly beyond it.
    pub open spec fn stretched(self, p: Point) -> Rect {
        Rect {
            min: Point {
                x: if rank(p.x) < rank(self.min.x) { p.x } else { self.min.x },
                y: if rank(p.y) < rank(self.min.y) { p.y } else { self.min.y },
            },
            max: Point {
                x: if rank(self.max.x) < rank(p.x) { p.x } else { self.max.x },
                y: if rank(self.max.y) < rank(p.y) { p.y } else { self.max.y },
            },
        }
    }

    /// Tells whether the point lies in the rectangle, borders included.
    pub fn contains_point(&self, p: &Point) -> (r: bool)
        ensures
            r == self.covers(*p),
    {
        le(self.min.x, p.x) && le(p.x, self.max.x) && le(self.min.y, p.y) && le(p.y, self.max.y)
    }

    /// Stretches the rectangle to hold `p`.
    pub fn stretch(&self, p: &Point) -> (r: Rect)
        ensures
            r == self.stretched(*p),
    {
        Rect {
            min: Point {
                x: if lt(p.x, self.min.x) { p.x } else { self.min.x },
                y: if lt(p.y, self.min.y) { p.y } else { self.min.y },
            },
            max: Point {
                x: if lt(self.max.x, p.x) { p.x } else { self.max.x },
                y: if lt(self.max.y, p.y) { p.y } else { self.max.y },
            },
        }
    }
}

/// The bounding rectangle after one more point.
pub open spec fn grown(acc: Option<Rect>, p: Point) -> Option<Rect> {
    match acc {
        Some(r) => Some(r.stretched(p)),
        None => Some(Rect::at(p)),
    }
}

/// The bounding rectangle `acc` after the points of a sequence, taken in
/// turn.
pub open spec fn grown_over(acc: Option<Rect>, points: Seq<Point>) -> Option<Rect>
    decreases points.len(),
{
    if points.len() == 0 {
        acc
    } else {
        grown(grown_over(acc, points.drop_last()), points.last())
    }
}

/// The minimum bounding rectangle of a sequence of points: none for the
/// empty sequence, else the rectangle of the first point stretched over the
/// others in turn.
pub open spec fn bounds(points: Seq<Point>) -> Option<Rect> {
    grown_over(None, points)
}

/// Stretching over two sequences in turn is stretching over both at once.
pub proof fn lemma_grown_over_concat(acc: Option<Rect>, a: Seq<Point>, b: Seq<Point>)
    ensures
        grown_over(acc, a + b) == grown_over(grown_over(acc, a), b),
    decreases b.len(),
{
    if b.len() == 0 {
        assert(a + b =~= a);
    } else {
        lemma_grown_over_concat(acc, a, b.drop_last());
        assert((a + b).drop_last() =~= a + b.drop_last());
        assert((a + b).last() == b.last());
    }
}

/// The bounding rectangle of finite points is well formed, holds each of the
/// points, and each of its four coordinates is a coordinate of one of them:
/// no smaller rectangle holds them all.
pub proof fn lemma_bounds_is_minimal(points: Seq<Point>)
    requires
        points.len() > 0,
        forall|i: int| 0 <= i < points.len() ==> (#[trigger] points[i]).is_finite(),
    ensures
        bounds(points) is Some,
        bounds(points)->0.wf(),
        forall|i: int| 0 <= i < points.len() ==> bounds(points)->0.covers(#[trigger] points[i]),
        exists|i: int| 0 <= i < points.len() && (#[trigger] points[i]).x == bounds(points)->0.min.x,
        exists|i: int| 0 <= i < points.len() && (#[trigger] points[i]).y == bounds(points)->0.min.y,
        exists|i: int| 0 <= i < points.len() && (#[trigger] points[i]).x == bounds(points)->0.max.x,
        exists|i: int| 0 <= i < points.len() && (#[trigger] points[i]).y == bounds(points)->0.max.y,
    decreases points.len(),
{
    let last: int = points.len() - 1;
    if points.len() == 1 {
        assert(bounds(points.drop_last()) is None);
        assert(points[0] == points.last());
    } else {
        let init = points.drop_last();
        assert forall|i: int| 0 <= i < init.len() implies (#[trigger] init[i]).is_finite() by {
            assert(init[i] == points[i]);
        }
        lemma_bounds_is_minimal(init);
        let r = bounds(init)->0;
        let s = bounds(points)->0;
        assert(s == r.stretched(points.last()));
        assert forall|i: int| 0 <= i < points.len() implies s.covers(#[trigger] points[i]) by {
            if i < last {
                assert(init[i] == points[i]);
                assert(r.covers(init[i]));
            }
        }
        let a = choose|i: int| 0 <= i < init.len() && (#[trigger] init[i]).x == r.min.x;
        assert(points[a] == init[a]);
        assert(points[if s.min.x == r.min.x { a } else { last }].x == s.min.x);
        let b = choose|i: int| 0 <= i < init.len() && (#[trigger] init[i]).y == r.min.y;
        assert(points[b] == init[b]);
        assert(points[if s.min.y == r.min.y { b } else { last }].y == s.min.y);
        let c = choose|i: int| 0 <= i < init.len() && (#[trigger] init[i]).x == r.max.x;
        assert(points[c] == init[c]);
        assert(points[if s.max.x == r.max.x { c } else { last }].x == s.max.x);
        let d = choose|i: int| 0 <= i < init.len() && (#[trigger] init[i]).y == r.max.y;
        assert(points[d] == init[d]);
        assert(points[if s.max.y == r.max.y { d } else { last }].y == s.max.y);
    }
}

/// Every point of the sequence is finite.
pub open spec fn all_finite(points: Seq<Point>) -> bool {
    forall|i: int| 0 <= i < points.len() ==> (#[trigger] points[i]).is_finite()
}

/// A polygon: the ring of its outline and the rings of its holes.
#[derive(Debug)]
pub struct Polygon {
    pub exterior: Vec<Point>,
    pub interiors: Vec<Vec<Point>>,
}

/// What a polygon holds.
pub struct PolygonView {
    pub exterior: Seq<Point>,
    pub interiors: Seq<Seq<Point>>,
}

impl PolygonView {
    /// Every point of every ring is finite.
    pub open spec fn is_finite(self) -> bool {
        &&& all_finite(self.exterior)
        &&& forall|k: int|
            0 <= k < self.interiors.len() ==> all_finite(#[trigger] self.interiors[k])
    }
}

impl View for Polygon {
    type V = PolygonView;

    open spec fn view(&self) -> PolygonView {
        PolygonView {
            exterior: self.exterior@,
            interiors: self.interiors@.map_values(|ring: Vec<Point>| ring@),
        }
    }
}

/// What each of a sequence of polygons holds.
pub open spec fn polygon_views(polygons: Seq<Polygon>) -> Seq<PolygonView> {
    polygons.map_values(|p: Polygon| p@)
}

/// The points of the outlines of polygons, one polygon after the other.
pub open spec fn outlines(polygons: Seq<PolygonView>) -> Seq<Point>
    decreases polygons.len(),
{
    if polygons.len() == 0 {
        Seq::empty()
    } else {
        outlines(polygons.drop_last()) + polygons.last().exterior
    }
}

/// The geometry of a feature.
#[derive(Debug)]
pub enum Area {
    Polygon(Polygon),
    MultiPolygon(Vec<Polygon>),
    Point(Point),
}

/// What a geometry holds.
pub enum AreaView {
    Polygon(PolygonView),
    MultiPolygon(Seq<PolygonView>),
    Point(Point),
}

impl AreaView {
    /// Every point of the geometry is finite.
    pub open spec fn is_finite(self) -> bool {
        match self {
            AreaView::Polygon(p) => p.is_finite(),
            AreaView::MultiPolygon(ps) => forall|k: int|
                0 <= k < ps.len() ==> (#[trigger] ps[k]).is_finite(),
            AreaView::Point(p) => p.is_finite(),
        }
    }

    /// The points that bound the geometry: those of its outlines, holes left
    /// out, or the point itself.
    pub open spec fn outline(self) -> Seq<Point> {
        match self {
            AreaView::Polygon(p) => p.exterior,
            AreaView::MultiPolygon(ps) => outlines(ps),
            AreaView::Point(p) => seq![p],
        }
    }

    /// The minimum bounding rectangle of the geometry, or nothing where the
    /// geometry has no point.
    pub open spec fn mbr(self) -> Option<Rect> {
        bounds(self.outline())
    }
}

impl View for Area {
    type V = AreaView;

    open spec fn view(&self) -> AreaView {
        match self {
            Area::Polygon(p) => AreaView::Polygon(p@),
            Area::MultiPolygon(ps) => AreaView::MultiPolygon(polygon_views(ps@)),
            Area::Point(p) => AreaView::Point(*p),
        }
    }
}

/// The outlines of finite polygons are finite.
proof fn lemma_outlines_finite(polygons: Seq<PolygonView>)
    requires
        forall|k: int| 0 <= k < polygons.len() ==> (#[trigger] polygons[k]).is_finite(),
    ensures
        all_finite(outlines(polygons)),
    decreases polygons.len(),
{
    if polygons.len() > 0 {
        let init = polygons.drop_last();
        assert forall|k: int| 0 <= k < init.len() implies (#[trigger] init[k]).is_finite() by {
            assert(init[k] == polygons[k]);
        }
        lemma_outlines_finite(init);
        assert(polygons.last().is_finite());
    }
}

/// The bounding rectangle of a finite geometry has finite corners, the least
/// not beyond the greatest on either axis.
pub proof fn lemma_mbr_wf(area: AreaView)
    requires
        area.is_finite(),
        area.mbr() is Some,
    ensures
        area.mbr()->0.wf(),
{
    match area {
        AreaView::Polygon(p) => {},
        AreaView::MultiPolygon(ps) => {
            lemma_outlines_finite(ps);
        },
        AreaView::Point(p) => {},
    }
    let outline = area.outline();
    if outline.len() == 0 {
        assert(grown_over(None, outline) == None::<Rect>);
    } else {
        lemma_bounds_is_minimal(outline);
    }
}

/// Tells whether every point of a ring is finite.
fn ring_finite(ring: &Vec<Point>) -> (r: bool)
    ensures
        r == all_finite(ring@),
{
    let mut i: usize = 0;
    while i < ring.len()
        invariant
            i <= ring@.len(),
            forall|j: int| 0 <= j < i ==> (#[trigger] ring@[j]).is_finite(),
        decreases ring@.len() - i,
    {
        if !ring[i].finite() {
            return false;
        }
        i = i + 1;
    }
    true
}

impl Polygon {
    /// Tells whether every point of every ring is finite.
    pub fn finite(&self) -> (r: bool)
        ensures
            r == self@.is_finite(),
    {
        if !ring_finite(&self.exterior) {
            return false;
        }
        let mut k: usize = 0;
        while k < self.interiors.len()
            invariant
                k <= self.interiors@.len(),
                forall|j: int| 0 <= j < k ==> all_finite(#[trigger] self@.interiors[j]),
            decreases self.interiors@.len() - k,
        {
            assert(self@.interiors[k as int] == self.interiors@[k as int]@);
            if !ring_finite(&self.interiors[k]) {
                return false;
            }
            k = k + 1;
        }
        true
    }
}

/// Where a point lies by the polygons of a feature.
#[derive(Clone, Copy, Debug, PartialEq, Eq, Structural)]
pub enum Placement {
    /// Inside the outline of a polygon, and inside none of its holes.
    Inside,
    /// On the outline of a polygon, or on that of one of its holes.
    OnBoundary,
    /// Neither.
    Outside,
}

impl Placement {
    /// The polygons hold the point: a point on a boundary is held.
    pub open spec fn holds(self) -> bool {
        self != Placement::Outside
    }
}

/// `answer` is what the exact test says of a geometry and a point.
///
/// A point holds a point when the coordinates are the same bit for bit. A
/// polygon or a multi-polygon holds the points that lie inside it or on its
/// boundary: where a point lies is what `within` answers, which is asked with
/// the position of the feature in its index and the point.
pub open spec fn holds_exactly<F: Fn(usize, &Point) -> Placement>(
    area: AreaView,
    within: F,
    position: usize,
    point: Point,
    answer: bool,
) -> bool {
    match area {
        AreaView::Point(q) => answer == (q == point),
        _ => exists|place: Placement|
            #[trigger] within.ensures((position, &point), place) && answer == place.holds(),
    }
}

impl Area {
    /// The exact test of the geometry against a point: see `holds_exactly`.
    pub fn contains_exact<F: Fn(usize, &Point) -> Placement>(
        &self,
        position: usize,
        point: &Point,
        within: &F,
    ) -> (r: bool)
        requires
            within.requires((position, point)),
        ensures
            holds_exactly(self@, *within, position, *point, r),
    {
        match self {
            Area::Point(q) => q.x == point.x && q.y == point.y,
            Area::Polygon(_) => {
                let place = within(position, point);
                assert(within.ensures((position, point), place));
                !matches!(place, Placement::Outside)
            },
            Area::MultiPolygon(_) => {
                let place = within(position, point);
                assert(within.ensures((position, point), place));
                !matches!(place, Placement::Outside)
            },
        }
    }

    /// Tells whether every point of the geometry is finite.
    pub fn finite(&self) -> (r: bool)
        ensures
            r == self@.is_finite(),
    {
        match self {
            Area::Polygon(p) => p.finite(),
            Area::MultiPolygon(ps) => {
                let mut k: usize = 0;
                while k < ps.len()
                    invariant
                        k <= ps@.len(),
                        self@ == AreaView::MultiPolygon(polygon_views(ps@)),
                        forall|j: int|
                            0 <= j < k ==> (#[trigger] polygon_views(ps@)[j]).is_finite(),
                    decreases ps@.len() - k,
                {
                    assert(polygon_views(ps@)[k as int] == ps@[k as int]@);
                    if !ps[k].finite() {
                        proof {
                            let views = polygon_views(ps@);
                            assert(self@->MultiPolygon_0 == views);
                            if self@.is_finite() {
                                assert(views[k as int].is_finite());
                            }
                        }
                        return false;
                    }
                    k = k + 1;
                }
                assert(self@->MultiPolygon_0 == polygon_views(ps@));
                true
            },
            Area::Point(p) => p.finite(),
        }
    }

    /// The minimum bounding rectangle of the geometry, or nothing where the
    /// geometry has no point. For a point both corners are the point.
    pub fn mbr(&self) -> (r: Option<Rect>)
        ensures
            r == self@.mbr(),
    {
        match self {
            Area::Polygon(p) => stretch_over(None, &p.exterior),
            Area::MultiPolygon(ps) => {
                let mut acc: Option<Rect> = None;
                let mut k: usize = 0;
                while k < ps.len()
                    invariant
                        k <= ps.len(),
                        acc == bounds(outlines(polygon_views(ps@.take(k as int)))),
                    decreases ps.len() - k,
                {
                    proof {
                        let upto = polygon_views(ps@.take(k + 1));
                        assert(upto.drop_last() =~= polygon_views(ps@.take(k as int)));
                        assert(upto.last() == ps@[k as int]@);
                        lemma_grown_over_concat(
                            None,
                            outlines(upto.drop_last()),
                            ps@[k as int].exterior@,
                        );
                    }
                    acc = stretch_over(acc, &ps[k].exterior);
                    k = k + 1;
                }
                proof {
                    assert(ps@.take(ps.len() as int) =~= ps@);
                }
                acc
            },
            Area::Point(p) => {
                proof {
                    let alone = seq![*p];
                    assert(alone.drop_last() =~= Seq::<Point>::empty());
                    assert(grown_over(None, alone.drop_last()) == None::<Rect>);
                    assert(alone.last() == *p);
                }
                Some(Rect { min: *p, max: *p })
            },
        }
    }
}

/// Stretches a bounding rectangle over the points of a ring.
fn stretch_over(acc: Option<Rect>, ring: &Vec<Point>) -> (r: Option<Rect>)
    ensures
        r == grown_over(acc, ring@),
{
    let mut out: Option<Rect> = acc;
    let mut i: usize = 0;
    while i < ring.len()
        invariant
            i <= ring.len(),
            out == grown_over(acc, ring@.take(i as int)),
        decreases ring.len() - i,
    {
        let p: Point = ring[i];
        proof {
            let upto = ring@.take(i + 1);
            assert(upto.drop_last() =~= ring@.take(i as int));
            assert(upto.last() == p);
        }
        out = match out {
            Some(r) => Some(r.stretch(&p)),
            None => Some(Rect { min: p, max: p }),
        };
        i = i + 1;
    }
    proof {
        assert(ring@.take(ring.len() as int) =~= ring@);
    }
    out
}

} // verus!
