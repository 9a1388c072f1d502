use crate::error::ZipCodeError;
use crate::geometry::{
    bounds_cover, in_range, shape_contains, shape_in_range, Coord, Rect, ZipShape, MAX_LAT, MAX_LON,
};
use crate::index::{
    box_entries, box_tree, located, nearest_of, point_entries, point_tree, BoxIndex,
    PointIndex,
};
use crate::zip::{is_zip, lemma_zip_key_injective, parse_zip, zip_key};
use std::collections::HashMap;
use vstd::prelude::*;

verus! {

broadcast use vstd::std_specs::hash::group_hash_axioms;

/// The point at a latitude and longitude.
pub open spec fn at(lat: i64, lon: i64) -> Coord {
    Coord { x: lon, y: lat }
}

/// Whether every area is well formed and no two share an identifier.
pub open spec fn loadable(areas: Seq<ZipShape>) -> bool {
    &&& forall|i: int| 0 <= i < areas.len() ==> (#[trigger] areas[i]).wf()
    &&& forall|i: int, j: int|
        0 <= i < j < areas.len() ==> (#[trigger] areas[i]).zip@ != (#[trigger] areas[j]).zip@
}

/// Whether the candidate at position `k` names an area that holds `p`.
pub open spec fn hit_at(areas: Seq<ZipShape>, cands: Seq<usize>, p: Coord, k: int) -> bool {
    0 <= k < cands.len() && cands[k] < areas.len() && shape_contains(areas[cands[k] as int].shape@, p)
}

/// Whether `k` is the first candidate position whose area holds `p`.
pub open spec fn is_first_hit(areas: Seq<ZipShape>, cands: Seq<usize>, p: Coord, k: int) -> bool {
    hit_at(areas, cands, p, k) && forall|m: int| 0 <= m < k ==> !hit_at(areas, cands, p, m)
}

/// The first candidate position whose area holds `p`, if any.
pub open spec fn first_hit(areas: Seq<ZipShape>, cands: Seq<usize>, p: Coord) -> Option<int> {
    if exists|k: int| is_first_hit(areas, cands, p, k) {
        Some(choose|k: int| is_first_hit(areas, cands, p, k))
    } else {
        None
    }
}

/// Some position is the first hit wherever some position is a hit.
proof fn lemma_least_hit(areas: Seq<ZipShape>, cands: Seq<usize>, p: Coord, m: int)
    requires
        hit_at(areas, cands, p, m),
    ensures
        exists|k: int| is_first_hit(areas, cands, p, k),
    decreases m,
{
    if forall|q: int| 0 <= q < m ==> !hit_at(areas, cands, p, q) {
        assert(is_first_hit(areas, cands, p, m));
    } else {
        let q = choose|q: int| 0 <= q < m && hit_at(areas, cands, p, q);
        lemma_least_hit(areas, cands, p, q);
    }
}

proof fn lemma_first_hit_unique(areas: Seq<ZipShape>, cands: Seq<usize>, p: Coord, k: int)
    requires
        is_first_hit(areas, cands, p, k),
    ensures
        first_hit(areas, cands, p) == Some(k),
{
    let c = choose|k: int| is_first_hit(areas, cands, p, k);
    assert(is_first_hit(areas, cands, p, c));
    if c < k {
        assert(!hit_at(areas, cands, p, c));
    } else if k < c {
        assert(!hit_at(areas, cands, p, k));
    }
}

/// A ZIP-code database: the areas, an exact table from ZIP code to
/// representative point, and two R-trees (area rectangles, representative
/// points).
pub struct ZipCodeDb {
    entries: Vec<ZipShape>,
    zip_to_coords: HashMap<u32, Coord>,
    boxes: BoxIndex,
    centroids: PointIndex,
}

impl ZipCodeDb {
    /// The areas that the database holds.
    pub closed spec fn areas(self) -> Seq<ZipShape> {
        self.entries@
    }

    /// The areas are loadable, the table maps each area's ZIP code to its
    /// representative point and nothing else, and each tree was bulk loaded
    /// from the areas in order.
    pub closed spec fn wf(self) -> bool {
        &&& loadable(self.entries@)
        &&& forall|i: int|
            0 <= i < self.entries@.len() ==> #[trigger] self.zip_to_coords@.contains_key(
                zip_key(self.entries@[i].zip@) as u32,
            ) && self.zip_to_coords@[zip_key(self.entries@[i].zip@) as u32]
                == self.entries@[i].centroid
        &&& forall|k: u32|
            #[trigger] self.zip_to_coords@.contains_key(k) ==> exists|i: int|
                0 <= i < self.entries@.len() && zip_key(self.entries@[i].zip@) == k
        &&& self.boxes == box_tree(self.entries@.map_values(|e: ZipShape| e.bbox.bounds()))
        &&& self.centroids == point_tree(self.entries@.map_values(|e: ZipShape| e.centroid.pair()))
        &&& box_entries(self.boxes) == Map::new(
            |i: usize| i < self.entries@.len(),
            |i: usize| self.entries@[i as int].bbox.bounds(),
        )
        &&& point_entries(self.centroids) == Map::new(
            |i: usize| i < self.entries@.len(),
            |i: usize| self.entries@[i as int].centroid.pair(),
        )
    }

    /// Whether area `i` holds `p` and its rectangle covers `p`.
    pub open spec fn hit(self, i: int, p: Coord) -> bool {
        0 <= i < self.areas().len() && self.areas()[i].bbox.covers(p) && shape_contains(
            self.areas()[i].shape@,
            p,
        )
    }

    /// Whether area `k` holds `p` and no other area's rectangle covers `p`.
    pub open spec fn sole_container(self, k: int, p: Coord) -> bool {
        &&& self.hit(k, p)
        &&& forall|j: int| 0 <= j < self.areas().len() && j != k ==> !(#[trigger] self.areas()[j]).bbox.covers(p)
    }

    /// Whether area `i`'s representative point is nearest to `p` among all areas.
    pub open spec fn nearest_area(self, i: int, p: Coord) -> bool {
        &&& 0 <= i < self.areas().len()
        &&& forall|j: int|
            0 <= j < self.areas().len() ==> crate::geometry::dist2(
                self.areas()[i].centroid.pair(),
                p.pair(),
            ) <= crate::geometry::dist2((#[trigger] self.areas()[j]).centroid.pair(), p.pair())
    }

    /// The representative point stored under a ZIP code, if an area has it.
    pub open spec fn lookup(self, zip: Seq<char>) -> Option<Coord> {
        if exists|i: int| 0 <= i < self.areas().len() && (#[trigger] self.areas()[i]).zip@ == zip {
            Some(
                self.areas()[choose|i: int|
                    0 <= i < self.areas().len() && (#[trigger] self.areas()[i]).zip@ == zip].centroid,
            )
        } else {
            None
        }
    }

    /// The identifier that a reverse lookup of a valid point gives: the first
    /// candidate from the rectangle index whose area holds the point, else the
    /// area whose representative point the point index gives as nearest.
    pub closed spec fn reverse_spec(self, p: Coord) -> Seq<char> {
        let cands = located(self.boxes, p.x, p.y);
        match first_hit(self.entries@, cands, p) {
            Some(k) => self.entries@[cands[k] as int].zip@,
            None => match nearest_of(self.centroids, p.x, p.y) {
                Some(i) => self.entries@[i as int].zip@,
                None => Seq::empty(),
            },
        }
    }

    /// An empty database: every exact lookup misses, every reverse lookup
    /// fails with a load error.
    pub fn new() -> (r: Result<ZipCodeDb, ZipCodeError>)
        ensures
            r matches Ok(db) && db.wf() && db.areas().len() == 0,
    {
        let entries: Vec<ZipShape> = Vec::new();
        let boxes: Vec<Rect> = Vec::new();
        let points: Vec<Coord> = Vec::new();
        assert(boxes@.map_values(|b: Rect| b.bounds()) =~= entries@.map_values(
            |e: ZipShape| e.bbox.bounds(),
        ));
        assert(points@.map_values(|c: Coord| c.pair()) =~= entries@.map_values(
            |e: ZipShape| e.centroid.pair(),
        ));
        let db = ZipCodeDb {
            entries,
            zip_to_coords: HashMap::new(),
            boxes: BoxIndex::load(&boxes),
            centroids: PointIndex::load(&points),
        };
        assert(box_entries(db.boxes) =~= Map::new(
            |i: usize| i < db.entries@.len(),
            |i: usize| db.entries@[i as int].bbox.bounds(),
        ));
        assert(point_entries(db.centroids) =~= Map::new(
            |i: usize| i < db.entries@.len(),
            |i: usize| db.entries@[i as int].centroid.pair(),
        ));
        Ok(db)
    }

    /// Builds a database from a set of areas, as loaded from a persisted
    /// artifact. Fails with a load error, building nothing, unless every area
    /// is well formed and no two share an identifier.
    pub fn from_entries(entries: Vec<ZipShape>) -> (r: Result<ZipCodeDb, ZipCodeError>)
        ensures
            r is Ok <==> loadable(entries@),
            r matches Ok(db) ==> db.wf() && db.areas() == entries@,
            r matches Err(e) ==> e is DataLoadError,
    {
        let mut table: HashMap<u32, Coord> = HashMap::new();
        let mut boxes: Vec<Rect> = Vec::new();
        let mut points: Vec<Coord> = Vec::new();
        let mut i: usize = 0;
        while i < entries.len()
            invariant
                0 <= i <= entries.len(),
                boxes.len() == i && points.len() == i,
                loadable(entries@.take(i as int)),
                forall|m: int| 0 <= m < i ==> #[trigger] boxes@[m] == entries@[m].bbox,
                forall|m: int| 0 <= m < i ==> #[trigger] points@[m] == entries@[m].centroid,
                forall|m: int|
                    0 <= m < i ==> #[trigger] table@.contains_key(zip_key(entries@[m].zip@) as u32)
                        && table@[zip_key(entries@[m].zip@) as u32] == entries@[m].centroid,
                forall|k: u32|
                    #[trigger] table@.contains_key(k) ==> exists|m: int|
                        0 <= m < i && zip_key(entries@[m].zip@) == k,
            decreases entries.len() - i,
        {
            let e = &entries[i];
            let ghost prefix = entries@.take(i as int);
            let key = match parse_zip(e.zip.as_str()) {
                Some(k) => k,
                None => {
                    assert(!entries@[i as int].wf());
                    return Err(ZipCodeError::DataLoadError("malformed ZIP code in data".to_string()));
                },
            };
            if !(e.bbox.min.x <= e.bbox.max.x && e.bbox.min.y <= e.bbox.max.y
                && -MAX_LON <= e.bbox.min.x && e.bbox.max.x <= MAX_LON
                && -MAX_LAT <= e.bbox.min.y && e.bbox.max.y <= MAX_LAT
                && e.bbox.contains_point(e.centroid) && shape_in_range(&e.shape)) {
                assert(!entries@[i as int].wf());
                return Err(ZipCodeError::DataLoadError("malformed area in data".to_string()));
            }
            if table.contains_key(&key) {
                proof {
                    let m = choose|m: int| 0 <= m < i && zip_key(entries@[m].zip@) == key;
                    assert(prefix[m] == entries@[m]);
                    assert(prefix[m].wf());
                    lemma_zip_key_injective(entries@[m].zip@, entries@[i as int].zip@);
                }
                return Err(ZipCodeError::DataLoadError("duplicate ZIP code in data".to_string()));
            }
            proof {
                assert forall|m: int| 0 <= m < i implies entries@[m].zip@ != entries@[i as int].zip@ by {
                    if entries@[m].zip@ == entries@[i as int].zip@ {
                        assert(table@.contains_key(zip_key(entries@[m].zip@) as u32));
                    }
                }
                let next = entries@.take(i as int + 1);
                assert(next =~= prefix.push(entries@[i as int]));
                assert forall|a: int, b: int|
                    0 <= a < b < next.len() implies (#[trigger] next[a]).zip@ != (#[trigger] next[b]).zip@ by {
                    if b < i {
                        assert(next[a] == prefix[a] && next[b] == prefix[b]);
                    }
                }
                assert forall|a: int| 0 <= a < next.len() implies (#[trigger] next[a]).wf() by {
                    if a < i {
                        assert(next[a] == prefix[a]);
                    }
                }
            }
            table.insert(key, e.centroid);
            boxes.push(e.bbox);
            points.push(e.centroid);
            i = i + 1;
        }
        assert(entries@.take(entries.len() as int) =~= entries@);
        assert(boxes@.map_values(|b: Rect| b.bounds()) =~= entries@.map_values(
            |e: ZipShape| e.bbox.bounds(),
        ));
        assert(points@.map_values(|c: Coord| c.pair()) =~= entries@.map_values(
            |e: ZipShape| e.centroid.pair(),
        ));
        let bi = BoxIndex::load(&boxes);
        let pi = PointIndex::load(&points);
        let db = ZipCodeDb { entries, zip_to_coords: table, boxes: bi, centroids: pi };
        assert(box_entries(db.boxes) =~= Map::new(
            |i: usize| i < db.entries@.len(),
            |i: usize| db.entries@[i as int].bbox.bounds(),
        ));
        assert(point_entries(db.centroids) =~= Map::new(
            |i: usize| i < db.entries@.len(),
            |i: usize| db.entries@[i as int].centroid.pair(),
        ));
        Ok(db)
    }

    /// The representative point of a ZIP code.
    pub fn zip_to_centroid(&self, zip: &str) -> (r: Result<Coord, ZipCodeError>)
        requires
            self.wf(),
        ensures
            !is_zip(zip@) ==> r is Err && r->Err_0 is InvalidZipFormat
                && r->Err_0->InvalidZipFormat_0@ == zip@,
            is_zip(zip@) ==> (r is Ok <==> exists|i: int|
                0 <= i < self.areas().len() && (#[trigger] self.areas()[i]).zip@ == zip@),
            forall|i: int|
                0 <= i < self.areas().len() && (#[trigger] self.areas()[i]).zip@ == zip@ ==> r
                    == Ok::<Coord, ZipCodeError>(self.areas()[i].centroid),
            is_zip(zip@) ==> (r is Ok <==> self.lookup(zip@) is Some),
            r is Ok ==> r->Ok_0 == self.lookup(zip@)->Some_0,
            r is Err && is_zip(zip@) ==> r->Err_0 is ZipNotFound && r->Err_0->ZipNotFound_0@
                == zip@,
    {
        let key = match parse_zip(zip) {
            Some(k) => k,
            None => return Err(ZipCodeError::InvalidZipFormat(zip.to_string())),
        };
        match self.zip_to_coords.get(&key) {
            Some(c) => {
                proof {
                    let m = choose|m: int|
                        0 <= m < self.entries@.len() && zip_key(self.entries@[m].zip@) == key;
                    assert(self.entries@[m].wf());
                    assert(self.zip_to_coords@.contains_key(zip_key(self.entries@[m].zip@) as u32));
                    lemma_zip_key_injective(self.entries@[m].zip@, zip@);
                    assert(*c == self.entries@[m].centroid);
                    assert(self.areas()[m].zip@ == zip@);
                    assert forall|i: int|
                        0 <= i < self.areas().len() && (#[trigger] self.areas()[i]).zip@
                            == zip@ implies i == m by {
                        if i != m {
                            if i < m {
                                assert(self.entries@[i].zip@ != self.entries@[m].zip@);
                            } else {
                                assert(self.entries@[m].zip@ != self.entries@[i].zip@);
                            }
                        }
                    }
                }
                Ok(*c)
            },
            None => {
                proof {
                    assert forall|i: int|
                        0 <= i < self.areas().len() implies (#[trigger] self.areas()[i]).zip@
                            != zip@ by {
                        if self.areas()[i].zip@ == zip@ {
                            assert(self.zip_to_coords@.contains_key(
                                zip_key(self.entries@[i].zip@) as u32,
                            ));
                        }
                    }
                }
                Err(ZipCodeError::ZipNotFound(zip.to_string()))
            },
        }
    }

    /// The first position in `candidates` whose area holds `p`: the step of a
    /// reverse lookup that follows the rectangle query.
    pub fn first_containing(&self, candidates: &Vec<usize>, p: Coord) -> (r: Option<usize>)
        requires
            self.wf(),
            p.valid(),
        ensures
            r is None <==> first_hit(self.areas(), candidates@, p) is None,
            r matches Some(k) ==> first_hit(self.areas(), candidates@, p) == Some(k as int),
    {
        let mut k: usize = 0;
        while k < candidates.len()
            invariant
                self.wf(),
                p.valid(),
                0 <= k <= candidates.len(),
                forall|m: int| 0 <= m < k ==> !hit_at(self.entries@, candidates@, p, m),
            decreases candidates.len() - k,
        {
            let c = candidates[k];
            if c < self.entries.len() {
                assert(self.entries@[c as int].wf());
                if self.entries[c].contains(p) {
                    proof {
                        assert(is_first_hit(self.entries@, candidates@, p, k as int));
                        lemma_first_hit_unique(self.entries@, candidates@, p, k as int);
                    }
                    return Some(k);
                }
            }
            k = k + 1;
        }
        proof {
            if exists|j: int| is_first_hit(self.entries@, candidates@, p, j) {
                let j = choose|j: int| is_first_hit(self.entries@, candidates@, p, j);
                assert(!hit_at(self.entries@, candidates@, p, j));
            }
        }
        None
    }

    /// The ZIP code at a latitude and longitude in microdegrees: the first
    /// area, among those whose rectangle covers the point, that holds it;
    /// failing that, the area whose representative point is nearest.
    pub fn lat_lon_to_zip(&self, lat: i64, lon: i64) -> (r: Result<String, ZipCodeError>)
        requires
            self.wf(),
        ensures
            !in_range(lon as int, lat as int) ==> r is Err && r->Err_0 is InvalidCoordinates
                && r->Err_0->InvalidCoordinates_0 == lat && r->Err_0->InvalidCoordinates_1 == lon,
            in_range(lon as int, lat as int) && self.areas().len() == 0 ==> r is Err
                && r->Err_0 is DataLoadError,
            in_range(lon as int, lat as int) && self.areas().len() > 0 ==> r is Ok && r->Ok_0@
                == self.reverse_spec(at(lat, lon)),
            // a point that an area holds, within its rectangle, gets such an area
            r is Ok && (exists|i: int| self.hit(i, at(lat, lon))) ==> exists|i: int|
                self.hit(i, at(lat, lon)) && r->Ok_0@ == (#[trigger] self.areas()[i]).zip@,
            // a point that no area holds gets an area whose representative point is nearest
            r is Ok && (forall|i: int|
                0 <= i < self.areas().len() ==> !shape_contains(
                    (#[trigger] self.areas()[i]).shape@,
                    at(lat, lon),
                )) ==> exists|i: int|
                self.nearest_area(i, at(lat, lon)) && r->Ok_0@ == (#[trigger] self.areas()[i]).zip@,
            // a point that one area holds, outside every other rectangle, gets that area
            forall|k: int|
                self.sole_container(k, at(lat, lon)) ==> r is Ok && r->Ok_0@ == (
                #[trigger] self.areas()[k]).zip@,
    {
        if lat < -MAX_LAT || lat > MAX_LAT || lon < -MAX_LON || lon > MAX_LON {
            return Err(ZipCodeError::InvalidCoordinates(lat, lon));
        }
        let p = Coord { x: lon, y: lat };
        let candidates = self.boxes.locate(p);
        proof {
            assert forall|m: int| 0 <= m < candidates.len() implies (#[trigger] candidates@[m])
                < self.entries@.len() by {
                assert(box_entries(self.boxes).contains_key(candidates@[m]));
            }
        }
        match self.first_containing(&candidates, p) {
            Some(k) => {
                let z = self.entries[candidates[k]].zip.clone();
                proof {
                    let i = candidates@[k as int] as int;
                    assert(box_entries(self.boxes).contains_key(candidates@[k as int]));
                    assert(box_entries(self.boxes)[candidates@[k as int]] == self.entries@[i].bbox.bounds());
                    assert(self.hit(i, p));
                    assert(z@ == self.areas()[i].zip@);
                    assert forall|j: int| self.sole_container(j, p) implies j == i by {
                        if j != i {
                            assert(!self.areas()[i].bbox.covers(p));
                        }
                    }
                }
                Ok(z)
            },
            None => {
                proof {
                    assert forall|i: int| !self.hit(i, p) by {
                        if self.hit(i, p) {
                            let u = i as usize;
                            assert(self.areas() == self.entries@);
                            assert(0 <= i < self.entries@.len());
                            assert(self.entries@.len() == self.entries.len());
                            assert(u as int == i);
                            assert(self.entries@[i].bbox.covers(p));
                            assert(box_entries(self.boxes).contains_key(u));
                            assert(box_entries(self.boxes)[u] == self.entries@[i].bbox.bounds());
                            assert(bounds_cover(box_entries(self.boxes)[u], p.x, p.y));
                            assert(candidates@.contains(u));
                            let m = choose|m: int| 0 <= m < candidates.len() && candidates@[m] == u;
                            assert(candidates@[m] as int == i);
                            assert(hit_at(self.entries@, candidates@, p, m));
                            lemma_least_hit(self.entries@, candidates@, p, m);
                        }
                    }
                }
                match self.centroids.nearest(p) {
                    Some(i) => {
                        let z = self.entries[i].zip.clone();
                        proof {
                            let m = point_entries(self.centroids);
                            assert forall|j: int| 0 <= j < self.areas().len() implies crate::geometry::dist2(
                                self.areas()[i as int].centroid.pair(),
                                p.pair(),
                            ) <= crate::geometry::dist2((#[trigger] self.areas()[j]).centroid.pair(), p.pair()) by {
                                assert(self.entries@.len() == self.entries.len());
                                assert(self.areas() == self.entries@);
                                let v = j as usize;
                                assert(v as int == j);
                                assert(m.contains_key(v));
                                assert(m[v] == self.entries@[j].centroid.pair());
                                assert(m[i] == self.entries@[i as int].centroid.pair());
                            }
                            assert(self.nearest_area(i as int, p));
                        }
                        Ok(z)
                    },
                    None => {
                        proof {
                            if self.entries@.len() > 0 {
                                assert(point_entries(self.centroids).dom().contains(0usize));
                            }
                        }
                        Err(ZipCodeError::DataLoadError("No ZIP codes in database".to_string()))
                    },
                }
            },
        }
    }

    /// Two databases built from the same areas, such as one built before its
    /// areas were written out and one built after they were read back, give
    /// the same answer to every exact and every reverse lookup.
    pub proof fn lemma_same_areas_same_answers(a: ZipCodeDb, b: ZipCodeDb)
        requires
            a.wf(),
            b.wf(),
            a.areas() == b.areas(),
        ensures
            forall|zip: Seq<char>| #[trigger] a.lookup(zip) == b.lookup(zip),
            forall|p: Coord| #[trigger] a.reverse_spec(p) == b.reverse_spec(p),
    {
        assert(a.boxes == b.boxes);
        assert(a.centroids == b.centroids);
    }
}

} // verus!
