use crate::zip::is_zip;
use geo::Contains;
use vstd::prelude::*;

verus! {

/// Largest latitude magnitude, in microdegrees.
pub const MAX_LAT: i64 = 90_000_000;

/// Largest longitude magnitude, in microdegrees.
pub const MAX_LON: i64 = 180_000_000;

/// A point in microdegrees: `x` is the longitude, `y` the latitude.
#[derive(Debug, Clone, Copy, PartialEq, Eq, Structural)]
pub struct Coord {
    pub x: i64,
    pub y: i64,
}

/// Whether a longitude/latitude pair lies in the geographic range.
pub open spec fn in_range(x: int, y: int) -> bool {
    -MAX_LON <= x <= MAX_LON && -MAX_LAT <= y <= MAX_LAT
}

impl Coord {
    pub open spec fn valid(self) -> bool {
        in_range(self.x as int, self.y as int)
    }

    /// The point as a plain pair.
    pub open spec fn pair(self) -> (i64, i64) {
        (self.x, self.y)
    }
}

/// Squared Euclidean distance between two points.
pub open spec fn dist2(a: (i64, i64), b: (i64, i64)) -> int {
    (a.0 - b.0) * (a.0 - b.0) + (a.1 - b.1) * (a.1 - b.1)
}

/// An axis-aligned rectangle given by its lower-left and upper-right corners.
#[derive(Debug, Clone, Copy, PartialEq, Eq, Structural)]
pub struct Rect {
    pub min: Coord,
    pub max: Coord,
}

impl Rect {
    pub open spec fn covers(self, p: Coord) -> bool {
        self.min.x <= p.x <= self.max.x && self.min.y <= p.y <= self.max.y
    }

    /// Ordered corners, both in the geographic range.
    pub open spec fn valid(self) -> bool {
        self.min.valid() && self.max.valid() && self.min.x <= self.max.x && self.min.y
            <= self.max.y
    }

    /// The rectangle as `(min x, min y, max x, max y)`.
    pub open spec fn bounds(self) -> (i64, i64, i64, i64) {
        (self.min.x, self.min.y, self.max.x, self.max.y)
    }

    pub fn contains_point(&self, p: Coord) -> (r: bool)
        ensures
            r == self.covers(p),
    {
        self.min.x <= p.x && p.x <= self.max.x && self.min.y <= p.y && p.y <= self.max.y
    }
}

/// Whether the bounds `(min x, min y, max x, max y)` hold the point `(x, y)`.
pub open spec fn bounds_cover(b: (i64, i64, i64, i64), x: i64, y: i64) -> bool {
    b.0 <= x <= b.2 && b.1 <= y <= b.3
}

/// A polygon: an exterior ring and any number of holes.
#[derive(Debug, Clone)]
pub struct Polygon {
    pub exterior: Vec<Coord>,
    pub interiors: Vec<Vec<Coord>>,
}

/// A ring's vertices as plain pairs.
pub open spec fn ring_pairs(r: Seq<Coord>) -> Seq<(i64, i64)> {
    r.map_values(|c: Coord| c.pair())
}

impl Polygon {
    /// The rings as plain pairs, the exterior first.
    pub open spec fn rings(self) -> Seq<Seq<(i64, i64)>> {
        seq![ring_pairs(self.exterior@)] + self.interiors@.map_values(
            |r: Vec<Coord>| ring_pairs(r@),
        )
    }
}

/// Whether an exterior vertex of the shape lies at `p`.
pub open spec fn has_vertex(shape: Seq<Polygon>, p: Coord) -> bool {
    exists|i: int, k: int|
        0 <= i < shape.len() && 0 <= k < shape[i].exterior@.len() && #[trigger] shape[i].exterior@[k]
            == p
}

/// Whether every exterior vertex of the shape lies in `r`.
pub open spec fn covers_shape(r: Rect, shape: Seq<Polygon>) -> bool {
    forall|i: int, k: int|
        0 <= i < shape.len() && 0 <= k < shape[i].exterior@.len() ==> r.covers(
            #[trigger] shape[i].exterior@[k],
        )
}

/// `r` is the smallest rectangle holding every exterior vertex of the shape.
pub open spec fn is_bounding_rect(r: Rect, shape: Seq<Polygon>) -> bool {
    &&& covers_shape(r, shape)
    &&& exists|p: Coord| has_vertex(shape, p) && p.x == r.min.x
    &&& exists|p: Coord| has_vertex(shape, p) && p.y == r.min.y
    &&& exists|p: Coord| has_vertex(shape, p) && p.x == r.max.x
    &&& exists|p: Coord| has_vertex(shape, p) && p.y == r.max.y
}

/// Whether the shape has no exterior vertex at all.
pub open spec fn is_empty_shape(shape: Seq<Polygon>) -> bool {
    forall|i: int| 0 <= i < shape.len() ==> #[trigger] shape[i].exterior@.len() == 0
}

/// Whether `p` is an exterior vertex of `prefix`, or one of the first `k`
/// vertices of `ring`.
pub open spec fn seen(prefix: Seq<Polygon>, ring: Seq<Coord>, k: int, p: Coord) -> bool {
    has_vertex(prefix, p) || exists|j: int| 0 <= j < k && ring[j] == p
}

/// `b` holds the vertices seen so far, and each of its sides touches one of
/// the four witnesses, which were all seen.
pub open spec fn tight(
    b: Rect,
    w: (Coord, Coord, Coord, Coord),
    prefix: Seq<Polygon>,
    ring: Seq<Coord>,
    k: int,
) -> bool {
    &&& covers_shape(b, prefix)
    &&& forall|j: int| 0 <= j < k ==> b.covers(#[trigger] ring[j])
    &&& seen(prefix, ring, k, w.0) && w.0.x == b.min.x
    &&& seen(prefix, ring, k, w.1) && w.1.y == b.min.y
    &&& seen(prefix, ring, k, w.2) && w.2.x == b.max.x
    &&& seen(prefix, ring, k, w.3) && w.3.y == b.max.y
}

/// The bounding rectangle of a shape's exterior rings, or `None` for a shape
/// without vertices.
pub fn bounding_rect(shape: &Vec<Polygon>) -> (r: Option<Rect>)
    ensures
        r is None <==> is_empty_shape(shape@),
        r matches Some(b) ==> is_bounding_rect(b, shape@),
{
    let mut acc: Option<Rect> = None;
    let ghost mut w: (Coord, Coord, Coord, Coord) = arbitrary();
    let mut i: usize = 0;
    while i < shape.len()
        invariant
            0 <= i <= shape.len(),
            acc is None <==> is_empty_shape(shape@.take(i as int)),
            acc matches Some(b) ==> tight(b, w, shape@.take(i as int), seq![], 0),
        decreases shape.len() - i,
    {
        let ring = &shape[i].exterior;
        let ghost prefix = shape@.take(i as int);
        let mut k: usize = 0;
        while k < ring.len()
            invariant
                0 <= i < shape.len(),
                prefix == shape@.take(i as int),
                ring == shape@[i as int].exterior,
                0 <= k <= ring.len(),
                acc is None <==> (is_empty_shape(prefix) && k == 0),
                acc matches Some(b) ==> tight(b, w, prefix, ring@, k as int),
            decreases ring.len() - k,
        {
            let p = ring[k];
            proof {
                assert(seen(prefix, ring@, k + 1, p)) by {
                    assert(ring@[k as int] == p);
                }
                assert forall|q: Coord| seen(prefix, ring@, k as int, q) implies seen(
                    prefix,
                    ring@,
                    k + 1,
                    q,
                ) by {
                    if !has_vertex(prefix, q) {
                        let j = choose|j: int| 0 <= j < k && ring@[j] == q;
                        assert(0 <= j < k + 1 && ring@[j] == q);
                    }
                }
            }
            match acc {
                None => {
                    acc = Some(Rect { min: p, max: p });
                    proof {
                        w = (p, p, p, p);
                        assert(covers_shape(Rect { min: p, max: p }, prefix));
                    }
                },
                Some(b) => {
                    let nb = Rect {
                        min: Coord {
                            x: if p.x < b.min.x { p.x } else { b.min.x },
                            y: if p.y < b.min.y { p.y } else { b.min.y },
                        },
                        max: Coord {
                            x: if p.x > b.max.x { p.x } else { b.max.x },
                            y: if p.y > b.max.y { p.y } else { b.max.y },
                        },
                    };
                    proof {
                        w = (
                            if p.x < b.min.x { p } else { w.0 },
                            if p.y < b.min.y { p } else { w.1 },
                            if p.x > b.max.x { p } else { w.2 },
                            if p.y > b.max.y { p } else { w.3 },
                        );
                    }
                    acc = Some(nb);
                },
            }
            k = k + 1;
        }
        proof {
            let next = shape@.take(i as int + 1);
            assert(next =~= prefix.push(shape@[i as int]));
            lemma_extend(prefix, shape@[i as int], acc, w);
        }
        i = i + 1;
    }
    assert(shape@.take(shape.len() as int) =~= shape@);
    acc
}

proof fn lemma_extend(
    prefix: Seq<Polygon>,
    poly: Polygon,
    acc: Option<Rect>,
    w: (Coord, Coord, Coord, Coord),
)
    requires
        acc is None <==> (is_empty_shape(prefix) && poly.exterior@.len() == 0),
        acc matches Some(b) ==> tight(b, w, prefix, poly.exterior@, poly.exterior@.len() as int),
    ensures
        acc is None <==> is_empty_shape(prefix.push(poly)),
        acc matches Some(b) ==> tight(b, w, prefix.push(poly), seq![], 0),
        acc matches Some(b) ==> is_bounding_rect(b, prefix.push(poly)),
{
    let s = prefix.push(poly);
    let n = prefix.len() as int;
    let ring = poly.exterior@;
    assert(s[n] == poly);
    assert forall|i: int| 0 <= i < n implies #[trigger] s[i] == prefix[i] by {}
    assert forall|p: Coord| seen(prefix, ring, ring.len() as int, p) implies has_vertex(s, p) by {
        if has_vertex(prefix, p) {
            let (i, k) = choose|i: int, k: int|
                0 <= i < prefix.len() && 0 <= k < prefix[i].exterior@.len()
                    && #[trigger] prefix[i].exterior@[k] == p;
            assert(s[i].exterior@[k] == p);
        } else {
            let j = choose|j: int| 0 <= j < ring.len() && ring[j] == p;
            assert(s[n].exterior@[j] == p);
        }
    }
    if is_empty_shape(s) {
        assert forall|i: int| 0 <= i < n implies #[trigger] prefix[i].exterior@.len() == 0 by {
            assert(s[i] == prefix[i]);
        }
        assert(s[n].exterior@.len() == 0);
    }
    if is_empty_shape(prefix) && poly.exterior@.len() == 0 {
        assert forall|i: int| 0 <= i < s.len() implies #[trigger] s[i].exterior@.len() == 0 by {
            if i < n {
                assert(s[i] == prefix[i]);
            }
        }
    }
    if let Some(b) = acc {
        assert forall|i: int, k: int|
            0 <= i < s.len() && 0 <= k < s[i].exterior@.len() implies b.covers(
            #[trigger] s[i].exterior@[k],
        ) by {
            if i < n {
                assert(s[i] == prefix[i]);
                assert(b.covers(prefix[i].exterior@[k]));
            } else {
                assert(b.covers(ring[k]));
            }
        }
        assert(has_vertex(s, w.0) && has_vertex(s, w.1) && has_vertex(s, w.2) && has_vertex(s, w.3));
    }
}

/// Whether every vertex of a ring lies in the geographic range.
pub open spec fn ring_valid(r: Seq<Coord>) -> bool {
    forall|k: int| 0 <= k < r.len() ==> (#[trigger] r[k]).valid()
}

impl Polygon {
    pub open spec fn valid(self) -> bool {
        &&& ring_valid(self.exterior@)
        &&& forall|j: int| 0 <= j < self.interiors@.len() ==> ring_valid(#[trigger] self.interiors@[j]@)
    }
}

/// Whether every vertex of every polygon lies in the geographic range.
pub open spec fn shape_valid(shape: Seq<Polygon>) -> bool {
    forall|i: int| 0 <= i < shape.len() ==> (#[trigger] shape[i]).valid()
}

/// Whether the polygon with these rings (the exterior first) holds the point
/// in its interior.
pub uninterp spec fn polygon_contains(rings: Seq<Seq<(i64, i64)>>, x: i64, y: i64) -> bool;

/// Whether some polygon of the shape holds the point.
pub open spec fn shape_contains(shape: Seq<Polygon>, p: Coord) -> bool {
    exists|i: int| 0 <= i < shape.len() && polygon_contains(#[trigger] shape[i].rings(), p.x, p.y)
}

/// Relies on geo's `Contains<Point<i64>>` for `Polygon<i64>`: the answer is a
/// function of the rings and the point alone.
#[verifier::external_body]
fn polygon_holds(poly: &Polygon, p: Coord) -> (r: bool)
    requires
        poly.valid(),
        p.valid(),
    ensures
        r == polygon_contains(poly.rings(), p.x, p.y),
{
    let exterior: Vec<(i64, i64)> = poly.exterior.iter().map(|c| (c.x, c.y)).collect();
    let interiors: Vec<geo::LineString<i64>> = poly.interiors.iter().map(
        |r| r.iter().map(|c| (c.x, c.y)).collect::<Vec<(i64, i64)>>().into(),
    ).collect();
    geo::Polygon::new(exterior.into(), interiors).contains(&geo::Point::new(p.x, p.y))
}

fn ring_in_range(r: &Vec<Coord>) -> (ok: bool)
    ensures
        ok == ring_valid(r@),
{
    let mut k: usize = 0;
    while k < r.len()
        invariant
            0 <= k <= r.len(),
            forall|j: int| 0 <= j < k ==> (#[trigger] r@[j]).valid(),
        decreases r.len() - k,
    {
        let c = r[k];
        if c.x < -MAX_LON || c.x > MAX_LON || c.y < -MAX_LAT || c.y > MAX_LAT {
            return false;
        }
        k = k + 1;
    }
    true
}

/// Whether every vertex of the shape lies in the geographic range.
pub fn shape_in_range(shape: &Vec<Polygon>) -> (ok: bool)
    ensures
        ok == shape_valid(shape@),
{
    let mut i: usize = 0;
    while i < shape.len()
        invariant
            0 <= i <= shape.len(),
            forall|m: int| 0 <= m < i ==> (#[trigger] shape@[m]).valid(),
        decreases shape.len() - i,
    {
        let poly = &shape[i];
        if !ring_in_range(&poly.exterior) {
            return false;
        }
        let mut j: usize = 0;
        while j < poly.interiors.len()
            invariant
                0 <= i < shape.len(),
                poly == shape@[i as int],
                ring_valid(poly.exterior@),
                0 <= j <= poly.interiors.len(),
                forall|m: int| 0 <= m < j ==> ring_valid(#[trigger] poly.interiors@[m]@),
            decreases poly.interiors.len() - j,
        {
            if !ring_in_range(&poly.interiors[j]) {
                return false;
            }
            j = j + 1;
        }
        i = i + 1;
    }
    true
}

/// One ZIP code's area: its polygons, their bounding rectangle and a
/// representative point.
#[derive(Debug, Clone)]
pub struct ZipShape {
    pub zip: String,
    pub shape: Vec<Polygon>,
    pub bbox: Rect,
    /// Representative point, used for the exact lookup and the fallback.
    pub centroid: Coord,
}

impl ZipShape {
    /// Five-digit identifier, coordinates in range, and the representative
    /// point inside the rectangle.
    pub open spec fn wf(self) -> bool {
        &&& is_zip(self.zip@)
        &&& self.bbox.valid()
        &&& self.bbox.covers(self.centroid)
        &&& shape_valid(self.shape@)
    }

    /// The rectangle that indexes this area.
    pub fn envelope(&self) -> (r: Rect)
        ensures
            r == self.bbox,
    {
        self.bbox
    }

    /// Squared distance from the representative point to `p`.
    pub fn distance_2(&self, p: Coord) -> (r: i64)
        requires
            self.centroid.valid(),
            p.valid(),
        ensures
            r == dist2(self.centroid.pair(), p.pair()),
    {
        let dx = self.centroid.x - p.x;
        let dy = self.centroid.y - p.y;
        assert(0 <= dx * dx <= 360_000_000 * 360_000_000) by (nonlinear_arith)
            requires
                -360_000_000 <= dx <= 360_000_000,
        ;
        assert(0 <= dy * dy <= 180_000_000 * 180_000_000) by (nonlinear_arith)
            requires
                -180_000_000 <= dy <= 180_000_000,
        ;
        dx * dx + dy * dy
    }

    /// Whether some polygon of the area holds `p`.
    pub fn contains(&self, p: Coord) -> (r: bool)
        requires
            shape_valid(self.shape@),
            p.valid(),
        ensures
            r == shape_contains(self.shape@, p),
    {
        let mut i: usize = 0;
        while i < self.shape.len()
            invariant
                shape_valid(self.shape@),
                p.valid(),
                0 <= i <= self.shape.len(),
                forall|m: int|
                    0 <= m < i ==> !polygon_contains(#[trigger] self.shape@[m].rings(), p.x, p.y),
            decreases self.shape.len() - i,
        {
            if polygon_holds(&self.shape[i], p) {
                return true;
            }
            i = i + 1;
        }
        false
    }
}

/// Builds an area from its identifier, polygons and representative point; the
/// rectangle is computed from the polygons. `None` for a shape without
/// vertices.
pub fn process_shape(zip: &str, shape: Vec<Polygon>, centroid: Coord) -> (r: Option<ZipShape>)
    ensures
        r is None <==> is_empty_shape(shape@),
        r matches Some(e) ==> e.zip@ == zip@ && e.shape@ == shape@ && e.centroid == centroid
            && is_bounding_rect(e.bbox, shape@),
{
    match bounding_rect(&shape) {
        None => None,
        Some(bbox) => Some(ZipShape { zip: zip.to_string(), shape, bbox, centroid }),
    }
}

} // verus!
