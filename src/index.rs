use crate::geometry::{bounds_cover, dist2, in_range, Coord, Rect};
use rstar::primitives::{GeomWithData, Rectangle};
use rstar::{RTree, AABB};
use vstd::prelude::*;

verus! {

/// Rectangles, each keyed by the position of its area, in an R-tree.
#[verifier::external_body]
pub struct BoxIndex {
    tree: RTree<GeomWithData<Rectangle<[i64; 2]>, usize>>,
}

/// The rectangles that a box index holds, as `(min x, min y, max x, max y)`,
/// by position.
pub uninterp spec fn box_entries(t: BoxIndex) -> Map<usize, (i64, i64, i64, i64)>;

/// The positions that a box index yields for a point, in the order it yields
/// them.
pub uninterp spec fn located(t: BoxIndex, x: i64, y: i64) -> Seq<usize>;

/// The tree that bulk loading builds from these rectangles, given in order.
pub uninterp spec fn box_tree(boxes: Seq<(i64, i64, i64, i64)>) -> BoxIndex;

/// Points, each keyed by the position of its area, in an R-tree.
#[verifier::external_body]
pub struct PointIndex {
    tree: RTree<GeomWithData<[i64; 2], usize>>,
}

/// The points that a point index holds, by position.
pub uninterp spec fn point_entries(t: PointIndex) -> Map<usize, (i64, i64)>;

/// The position that a point index gives as nearest to a point.
pub uninterp spec fn nearest_of(t: PointIndex, x: i64, y: i64) -> Option<usize>;

/// The tree that bulk loading builds from these points, given in order.
pub uninterp spec fn point_tree(points: Seq<(i64, i64)>) -> PointIndex;

/// Whether `i` is a stored point at the least squared distance from `(x, y)`.
pub open spec fn is_nearest(m: Map<usize, (i64, i64)>, i: usize, x: i64, y: i64) -> bool {
    m.contains_key(i) && forall|j: usize|
        m.contains_key(j) ==> dist2(m[i], (x, y)) <= dist2(#[trigger] m[j], (x, y))
}

impl BoxIndex {
    /// Relies on rstar's `RTree::bulk_load`: the tree holds exactly the given
    /// rectangles, each tagged with its position in `boxes`, and its layout
    /// depends on them alone.
    #[verifier::external_body]
    pub(crate) fn load(boxes: &Vec<Rect>) -> (t: BoxIndex)
        requires
            forall|i: int| 0 <= i < boxes.len() ==> (#[trigger] boxes@[i]).valid(),
        ensures
            t == box_tree(boxes@.map_values(|b: Rect| b.bounds())),
            box_entries(t) == Map::new(
                |i: usize| i < boxes.len(),
                |i: usize| boxes@[i as int].bounds(),
            ),
    {
        let items = boxes.iter().enumerate().map(
            |(i, b)| GeomWithData::new(Rectangle::from_corners([b.min.x, b.min.y], [b.max.x, b.max.y]), i),
        ).collect();
        BoxIndex { tree: RTree::bulk_load(items) }
    }

    /// Relies on rstar's `RTree::locate_in_envelope_intersecting`: for the
    /// envelope of one point it yields exactly the stored rectangles that hold
    /// the point, borders included.
    #[verifier::external_body]
    pub(crate) fn locate(&self, p: Coord) -> (r: Vec<usize>)
        ensures
            r@ == located(*self, p.x, p.y),
            forall|k: int|
                0 <= k < r.len() ==> box_entries(*self).contains_key(#[trigger] r@[k])
                    && bounds_cover(box_entries(*self)[r@[k]], p.x, p.y),
            forall|i: usize|
                box_entries(*self).contains_key(i) && bounds_cover(
                    #[trigger] box_entries(*self)[i],
                    p.x,
                    p.y,
                ) ==> r@.contains(i),
    {
        self.tree.locate_in_envelope_intersecting(AABB::from_point([p.x, p.y])).map(|g| g.data).collect()
    }
}

impl PointIndex {
    /// Relies on rstar's `RTree::bulk_load`: the tree holds exactly the given
    /// points, each tagged with its position in `points`, and its layout
    /// depends on them alone.
    #[verifier::external_body]
    pub(crate) fn load(points: &Vec<Coord>) -> (t: PointIndex)
        ensures
            t == point_tree(points@.map_values(|c: Coord| c.pair())),
            point_entries(t) == Map::new(
                |i: usize| i < points.len(),
                |i: usize| points@[i as int].pair(),
            ),
    {
        let items = points.iter().enumerate().map(|(i, c)| GeomWithData::new([c.x, c.y], i)).collect();
        PointIndex { tree: RTree::bulk_load(items) }
    }

    /// Relies on rstar's `RTree::nearest_neighbor`: `None` on an empty tree,
    /// else a stored point at the least squared distance from the query.
    #[verifier::external_body]
    pub(crate) fn nearest(&self, p: Coord) -> (r: Option<usize>)
        requires
            p.valid(),
            forall|i: usize|
                point_entries(*self).contains_key(i) ==> in_range(
                    (#[trigger] point_entries(*self)[i]).0 as int,
                    point_entries(*self)[i].1 as int,
                ),
        ensures
            r == nearest_of(*self, p.x, p.y),
            r is None <==> point_entries(*self).dom() == Set::<usize>::empty(),
            r matches Some(i) ==> is_nearest(point_entries(*self), i, p.x, p.y),
    {
        self.tree.nearest_neighbor([p.x, p.y]).map(|g| g.data)
    }
}

} // verus!
