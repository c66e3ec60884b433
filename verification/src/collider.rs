//! Hit-testing: which features of a tile contain a point of the tile's
//! local coordinate space.

use crate::geometry::coords;
use crate::geometry::Coord;
use crate::geometry::Point;
use crate::tile::TileId;
use crate::winding::coords_bounded;
use crate::winding::succ;
use crate::winding::MAX_COORD;
use vstd::prelude::*;

verus! {

/// On which side of the line from `a` to `b` the point `p` lies: zero on the
/// line, and of opposite sign on its two sides.
pub open spec fn side(a: Coord, b: Coord, p: Coord) -> int {
    (b.x - a.x) * (p.y - a.y) - (p.x - a.x) * (b.y - a.y)
}

/// `v` lies between `s` and `t`, in either order.
pub open spec fn between(s: int, t: int, v: int) -> bool {
    (s <= v <= t) || (t <= v <= s)
}

/// `p` lies on the segment from `a` to `b`, ends included.
pub open spec fn on_edge(a: Coord, b: Coord, p: Coord) -> bool {
    side(a, b, p) == 0 && between(a.x, b.x, p.x) && between(a.y, b.y, p.y)
}

/// The ray from `p` towards greater x crosses the segment from `a` to `b`.
/// The lower end of a segment counts, the upper end does not.
pub open spec fn crosses(a: Coord, b: Coord, p: Coord) -> bool {
    if a.y <= p.y < b.y {
        side(a, b, p) > 0
    } else if b.y <= p.y < a.y {
        side(a, b, p) < 0
    } else {
        false
    }
}

/// `p` lies on one of the first `k` edges of the ring.
pub open spec fn touches(ring: Seq<Coord>, p: Coord, k: int) -> bool
    decreases k,
{
    if k <= 0 {
        false
    } else {
        touches(ring, p, k - 1) || on_edge(ring[k - 1], ring[succ(k - 1, ring.len() as int)], p)
    }
}

/// How many of the first `k` edges of the ring the ray from `p` crosses.
pub open spec fn crossings(ring: Seq<Coord>, p: Coord, k: int) -> int
    decreases k,
{
    if k <= 0 {
        0
    } else {
        crossings(ring, p, k - 1) + if crosses(
            ring[k - 1],
            ring[succ(k - 1, ring.len() as int)],
            p,
        ) {
            1int
        } else {
            0int
        }
    }
}

/// `p` lies inside the closed ring or on its boundary.
pub open spec fn ring_holds(ring: Seq<Coord>, p: Coord) -> bool {
    touches(ring, p, ring.len() as int) || crossings(ring, p, ring.len() as int) % 2 == 1
}

/// A feature in the index: its id and the ring that bounds it.
#[derive(Debug)]
pub struct Shape {
    pub id: u32,
    pub ring: Vec<Point>,
}

/// The ids of those among the first `k` shapes that hold `p`, in order.
pub open spec fn hit_ids(shapes: Seq<Shape>, p: Coord, k: int) -> Seq<u32>
    decreases k,
{
    if k <= 0 {
        Seq::empty()
    } else if ring_holds(coords(shapes[k - 1].ring@), p) {
        hit_ids(shapes, p, k - 1).push(shapes[k - 1].id)
    } else {
        hit_ids(shapes, p, k - 1)
    }
}

/// `p` has coordinates of a magnitude of at most `MAX_COORD`.
pub open spec fn point_bounded(p: Point) -> bool {
    -MAX_COORD <= p.x <= MAX_COORD && -MAX_COORD <= p.y <= MAX_COORD
}

proof fn lemma_side_bound(a: Coord, b: Coord, p: Coord)
    requires
        -MAX_COORD <= a.x <= MAX_COORD,
        -MAX_COORD <= a.y <= MAX_COORD,
        -MAX_COORD <= b.x <= MAX_COORD,
        -MAX_COORD <= b.y <= MAX_COORD,
        -MAX_COORD <= p.x <= MAX_COORD,
        -MAX_COORD <= p.y <= MAX_COORD,
    ensures
        -0x4_0000_0000_0000_0000_0000 <= (b.x - a.x) * (p.y - a.y) <= 0x4_0000_0000_0000_0000_0000,
        -0x4_0000_0000_0000_0000_0000 <= (p.x - a.x) * (b.y - a.y) <= 0x4_0000_0000_0000_0000_0000,
{
    let u = b.x - a.x;
    let v = p.y - a.y;
    let w = p.x - a.x;
    let z = b.y - a.y;
    assert(-0x4_0000_0000_0000_0000_0000 <= u * v <= 0x4_0000_0000_0000_0000_0000)
        by (nonlinear_arith)
        requires
            -0x200_0000_0000 <= u <= 0x200_0000_0000,
            -0x200_0000_0000 <= v <= 0x200_0000_0000,
    ;
    assert(-0x4_0000_0000_0000_0000_0000 <= w * z <= 0x4_0000_0000_0000_0000_0000)
        by (nonlinear_arith)
        requires
            -0x200_0000_0000 <= w <= 0x200_0000_0000,
            -0x200_0000_0000 <= z <= 0x200_0000_0000,
    ;
}

/// Whether `p` lies inside the closed ring through `ring` or on its
/// boundary.
pub fn ring_contains(ring: &Vec<Point>, p: Point) -> (inside: bool)
    requires
        coords_bounded(ring@),
        point_bounded(p),
    ensures
        inside == ring_holds(coords(ring@), p@),
{
    let n: usize = ring.len();
    let mut touched: bool = false;
    let mut odd: bool = false;
    let mut i: usize = 0;
    while i < n
        invariant
            n == ring.len(),
            i <= n,
            coords_bounded(ring@),
            point_bounded(p),
            touched == touches(coords(ring@), p@, i as int),
            odd == (crossings(coords(ring@), p@, i as int) % 2 == 1),
            crossings(coords(ring@), p@, i as int) >= 0,
        decreases n - i,
    {
        let j: usize = if i + 1 == n {
            0
        } else {
            i + 1
        };
        let a = ring[i];
        let b = ring[j];
        proof {
            assert(coords(ring@)[i as int] == a@);
            assert(coords(ring@)[j as int] == b@);
            lemma_side_bound(a@, b@, p@);
        }
        let s: i128 = (b.x as i128 - a.x as i128) * (p.y as i128 - a.y as i128) - (p.x as i128
            - a.x as i128) * (b.y as i128 - a.y as i128);
        assert(s == side(a@, b@, p@));
        let in_x: bool = (a.x <= p.x && p.x <= b.x) || (b.x <= p.x && p.x <= a.x);
        let in_y: bool = (a.y <= p.y && p.y <= b.y) || (b.y <= p.y && p.y <= a.y);
        if s == 0 && in_x && in_y {
            touched = true;
        }
        let crossed: bool = if a.y <= p.y && p.y < b.y {
            s > 0
        } else if b.y <= p.y && p.y < a.y {
            s < 0
        } else {
            false
        };
        if crossed {
            odd = !odd;
        }
        i = i + 1;
    }
    touched || odd
}

/// The point-containment index of one tile: its features in the order in
/// which they were added, each with the ring that bounds it.
pub struct Collider {
    shapes: Vec<Shape>,
}

impl Collider {
    /// The features of the index, in the order in which they were added.
    pub closed spec fn shapes(&self) -> Seq<Shape> {
        self.shapes@
    }

    /// Every ring of the index has coordinates within `MAX_COORD`.
    pub open spec fn wf(&self) -> bool {
        forall|i: int|
            0 <= i < self.shapes().len() ==> coords_bounded((#[trigger] self.shapes()[i]).ring@)
    }

    /// An index without features.
    pub fn new() -> (c: Collider)
        ensures
            c.wf(),
            c.shapes().len() == 0,
    {
        Collider { shapes: Vec::new() }
    }

    /// Adds the feature `id` bounded by `ring` behind the features that the
    /// index holds. A ring with a coordinate beyond `MAX_COORD` is refused
    /// and the index stays as it is.
    pub fn insert(&mut self, id: u32, ring: Vec<Point>) -> (added: bool)
        requires
            old(self).wf(),
        ensures
            final(self).wf(),
            added == coords_bounded(ring@),
            added ==> final(self).shapes() == old(self).shapes().push(Shape { id, ring }),
            !added ==> final(self).shapes() == old(self).shapes(),
    {
        let mut i: usize = 0;
        while i < ring.len()
            invariant
                i <= ring.len(),
                self.wf(),
                self.shapes() == old(self).shapes(),
                forall|k: int|
                    0 <= k < i ==> -MAX_COORD <= (#[trigger] ring@[k]).x <= MAX_COORD && -MAX_COORD
                        <= ring@[k].y <= MAX_COORD,
            decreases ring.len() - i,
        {
            let q = ring[i];
            if q.x < -MAX_COORD || q.x > MAX_COORD || q.y < -MAX_COORD || q.y > MAX_COORD {
                return false;
            }
            i = i + 1;
        }
        let ghost before = self.shapes@;
        self.shapes.push(Shape { id, ring });
        assert forall|k: int| 0 <= k < self.shapes().len() implies coords_bounded(
            (#[trigger] self.shapes()[k]).ring@,
        ) by {
            if k < before.len() {
                assert(self.shapes()[k] == before[k]);
            }
        }
        true
    }

    /// The ids of the features that hold `p`, in the order in which the
    /// features were added.
    pub fn hits(&self, p: Point) -> (ids: Vec<u32>)
        requires
            self.wf(),
            point_bounded(p),
        ensures
            ids@ == hit_ids(self.shapes(), p@, self.shapes().len() as int),
    {
        let mut ids: Vec<u32> = Vec::new();
        let mut i: usize = 0;
        while i < self.shapes.len()
            invariant
                i <= self.shapes.len(),
                self.wf(),
                point_bounded(p),
                ids@ == hit_ids(self.shapes@, p@, i as int),
            decreases self.shapes.len() - i,
        {
            assert(coords_bounded(self.shapes()[i as int].ring@));
            if ring_contains(&self.shapes[i].ring, p) {
                ids.push(self.shapes[i].id);
            }
            i = i + 1;
        }
        ids
    }
}

/// A resident tile as the hit test sees it: its key, the width of its
/// coordinate space, and its index, or none while the index cannot be read.
pub struct HitTile {
    pub tile_id: TileId,
    pub extent: u16,
    pub index: Option<Collider>,
}

/// The pointer position in the local space of the tile `tile_id`, scaled to
/// the tile's extent.
#[derive(Clone, Copy, Debug, PartialEq, Eq, Structural)]
pub struct Probe {
    pub tile_id: TileId,
    pub point: Point,
}

/// The position of the first tile among the first `k` with the key `id`, or
/// `k` if there is none.
pub open spec fn first_with(tiles: Seq<HitTile>, id: TileId, k: int) -> int
    decreases k,
{
    if k <= 0 {
        0
    } else if first_with(tiles, id, k - 1) < k - 1 {
        first_with(tiles, id, k - 1)
    } else if tiles[k - 1].tile_id == id {
        k - 1
    } else {
        k
    }
}

/// `p` lies within the square from zero to `extent`, borders included.
pub open spec fn in_tile(p: Point, extent: u16) -> bool {
    0 <= p.x <= extent && 0 <= p.y <= extent
}

/// Every index that can be read is well formed.
pub open spec fn tiles_wf(tiles: Seq<HitTile>) -> bool {
    forall|i: int|
        0 <= i < tiles.len() ==> match (#[trigger] tiles[i]).index {
            Some(c) => c.wf(),
            None => true,
        }
}

/// The features under the pointer, from probe `k` on: the first probe whose
/// tile is resident and holds the point decides. Its index gives the ids, or
/// nothing while it cannot be read. Probes of tiles that are not resident, or
/// that fall outside their tile, are passed over.
pub open spec fn hovered(tiles: Seq<HitTile>, probes: Seq<Probe>, k: int) -> Seq<u32>
    decreases probes.len() - k,
{
    if k < 0 || k >= probes.len() {
        Seq::empty()
    } else {
        let at = first_with(tiles, probes[k].tile_id, tiles.len() as int);
        if at < tiles.len() && in_tile(probes[k].point, tiles[at].extent) {
            match tiles[at].index {
                Some(c) => hit_ids(c.shapes(), probes[k].point@, c.shapes().len() as int),
                None => Seq::empty(),
            }
        } else {
            hovered(tiles, probes, k + 1)
        }
    }
}

/// The position of the first tile with the key `id`, or the number of tiles
/// if there is none.
pub fn find_tile(tiles: &Vec<HitTile>, id: TileId) -> (at: usize)
    ensures
        at == first_with(tiles@, id, tiles@.len() as int),
        at <= tiles.len(),
{
    let mut i: usize = 0;
    while i < tiles.len()
        invariant
            i <= tiles.len(),
            first_with(tiles@, id, i as int) == i,
        decreases tiles.len() - i,
    {
        if tiles[i].tile_id == id {
            proof {
                lemma_first_stays(tiles@, id, i as int, tiles@.len() as int);
            }
            return i;
        }
        i = i + 1;
    }
    i
}

proof fn lemma_first_stays(tiles: Seq<HitTile>, id: TileId, i: int, k: int)
    requires
        0 <= i < k <= tiles.len(),
        first_with(tiles, id, i) == i,
        tiles[i].tile_id == id,
    ensures
        first_with(tiles, id, k) == i,
    decreases k,
{
    if k > i + 1 {
        lemma_first_stays(tiles, id, i, k - 1);
    }
}

impl Collider {
    /// The ids of the features under the pointer. `probes` gives the pointer
    /// position in the local space of each tile in view, in the order in
    /// which the tiles are tried; `tiles` are the resident tiles. The result
    /// is empty if the pointer is in no resident tile, if no feature holds
    /// it, or if the index of its tile cannot be read.
    pub fn get_hovered_objects(tiles: &Vec<HitTile>, probes: &Vec<Probe>) -> (ids: Vec<u32>)
        requires
            tiles_wf(tiles@),
        ensures
            ids@ == hovered(tiles@, probes@, 0),
    {
        let mut k: usize = 0;
        while k < probes.len()
            invariant
                k <= probes.len(),
                tiles_wf(tiles@),
                hovered(tiles@, probes@, 0) == hovered(tiles@, probes@, k as int),
            decreases probes.len() - k,
        {
            let probe: Probe = probes[k];
            let at: usize = find_tile(tiles, probe.tile_id);
            if at < tiles.len() {
                let tile = &tiles[at];
                let p = probe.point;
                if 0 <= p.x && p.x <= tile.extent as i64 && 0 <= p.y && p.y <= tile.extent as i64 {
                    return match &tile.index {
                        Some(c) => c.hits(p),
                        None => Vec::new(),
                    };
                }
            }
            k = k + 1;
        }
        Vec::new()
    }
}

} // verus!
