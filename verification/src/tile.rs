//! Tile identifiers and the decoded tiles that the cache holds.

use vstd::prelude::*;

verus! {

/// The key of one tile of the quad-tree tiling: zoom level and the tile's
/// column and row at that zoom.
#[derive(Clone, Copy, Debug, PartialEq, Eq, PartialOrd, Ord, Hash, Structural)]
pub struct TileId {
    pub z: u32,
    pub x: u32,
    pub y: u32,
}

/// `p` is the tile one level coarser that covers `c`.
pub open spec fn is_parent_of(p: TileId, c: TileId) -> bool {
    &&& c.z == p.z + 1
    &&& c.x / 2 == p.x
    &&& c.y / 2 == p.y
}

/// `a` and `b` lie under the same parent (every tile is in its own quad).
pub open spec fn same_quad(a: TileId, b: TileId) -> bool {
    &&& a.z == b.z
    &&& a.x / 2 == b.x / 2
    &&& a.y / 2 == b.y / 2
}

impl TileId {
    pub fn new(z: u32, x: u32, y: u32) -> (id: TileId)
        ensures
            id == (TileId { z, x, y }),
    {
        TileId { z, x, y }
    }

    /// The tile one level coarser that covers this one; the root level has
    /// none.
    pub fn parent(&self) -> (p: Option<TileId>)
        ensures
            self.z == 0 ==> p is None,
            self.z > 0 ==> p == Some(TileId { z: (self.z - 1) as u32, x: self.x / 2, y: self.y / 2 }),
            forall|q: TileId| is_parent_of(q, *self) <==> p == Some(q),
    {
        if self.z == 0 {
            None
        } else {
            Some(TileId { z: self.z - 1, x: self.x / 2, y: self.y / 2 })
        }
    }

    /// The four tiles under this tile's parent, this tile among them: the
    /// even corner first, then `+1` in x, then `+1` in y, then both.
    pub fn quad(&self) -> (q: [TileId; 4])
        ensures
            q[0] == (TileId { z: self.z, x: (self.x / 2 * 2) as u32, y: (self.y / 2 * 2) as u32 }),
            q[1] == (TileId {
                z: self.z,
                x: (self.x / 2 * 2 + 1) as u32,
                y: (self.y / 2 * 2) as u32,
            }),
            q[2] == (TileId {
                z: self.z,
                x: (self.x / 2 * 2) as u32,
                y: (self.y / 2 * 2 + 1) as u32,
            }),
            q[3] == (TileId {
                z: self.z,
                x: (self.x / 2 * 2 + 1) as u32,
                y: (self.y / 2 * 2 + 1) as u32,
            }),
            forall|s: TileId|
                same_quad(s, *self) <==> (s == q[0] || s == q[1] || s == q[2] || s == q[3]),
    {
        let bx: u32 = self.x / 2 * 2;
        let by: u32 = self.y / 2 * 2;
        [
            TileId { z: self.z, x: bx, y: by },
            TileId { z: self.z, x: bx + 1, y: by },
            TileId { z: self.z, x: bx, y: by + 1 },
            TileId { z: self.z, x: bx + 1, y: by + 1 },
        ]
    }

    /// The tiles one level finer that this tile covers, in the order of
    /// `quad`. A tile whose children would leave the coordinate range has
    /// none.
    pub fn children(&self) -> (c: Vec<TileId>)
        ensures
            forall|k: TileId| is_parent_of(*self, k) <==> c@.contains(k),
            c.len() == 0 || c.len() == 4,
            c.len() == 4 ==> {
                &&& c[0] == (TileId {
                    z: (self.z + 1) as u32,
                    x: (2 * self.x) as u32,
                    y: (2 * self.y) as u32,
                })
                &&& c[1] == (TileId {
                    z: (self.z + 1) as u32,
                    x: (2 * self.x + 1) as u32,
                    y: (2 * self.y) as u32,
                })
                &&& c[2] == (TileId {
                    z: (self.z + 1) as u32,
                    x: (2 * self.x) as u32,
                    y: (2 * self.y + 1) as u32,
                })
                &&& c[3] == (TileId {
                    z: (self.z + 1) as u32,
                    x: (2 * self.x + 1) as u32,
                    y: (2 * self.y + 1) as u32,
                })
            },
            c.len() == 4 <==> self.z < u32::MAX && self.x <= 0x7fff_ffff && self.y <= 0x7fff_ffff,
    {
        let mut c: Vec<TileId> = Vec::new();
        if self.z < u32::MAX && self.x <= 0x7fff_ffff && self.y <= 0x7fff_ffff {
            let z: u32 = self.z + 1;
            let x: u32 = 2 * self.x;
            let y: u32 = 2 * self.y;
            c.push(TileId { z, x, y });
            c.push(TileId { z, x: x + 1, y });
            c.push(TileId { z, x, y: y + 1 });
            c.push(TileId { z, x: x + 1, y: y + 1 });
            assert forall|k: TileId| is_parent_of(*self, k) implies c@.contains(k) by {
                assert(k == c@[0] || k == c@[1] || k == c@[2] || k == c@[3]);
            }
        }
        c
    }
}

/// A half-open range of positions in a tile's index buffer.
#[derive(Clone, Copy, Debug, PartialEq, Eq, Structural)]
pub struct IndexRange {
    pub start: u32,
    pub end: u32,
}

impl IndexRange {
    /// The number of indices in the range; a range that ends before it
    /// starts is empty.
    pub open spec fn spec_len(&self) -> int {
        if self.end >= self.start {
            self.end - self.start
        } else {
            0
        }
    }

    /// The number of indices in the range.
    pub fn len(&self) -> (n: u32)
        ensures
            n == self.spec_len(),
    {
        if self.end >= self.start {
            self.end - self.start
        } else {
            0
        }
    }
}

/// One layer of a tile: its name and id, its part of the tile's index
/// buffer, and its features in order, each with its own index range.
#[derive(Clone, Debug)]
pub struct Layer {
    pub name: String,
    pub id: u32,
    pub indices_range: IndexRange,
    pub features: Vec<(u32, IndexRange)>,
}

/// A decoded tile: the width of its coordinate space, its layers, and the
/// number of indices in its mesh.
#[derive(Clone, Debug)]
pub struct Tile {
    pub extent: u16,
    pub layers: Vec<Layer>,
    pub index_count: u32,
}

/// A tile as the cache holds it for drawing: the features of all layers in
/// one list.
#[derive(Debug)]
pub struct DrawableTile {
    pub tile_id: TileId,
    pub index_count: u32,
    pub features: Vec<(u32, IndexRange)>,
    pub extent: u16,
}

/// Every range of `features` lies within the first `index_count` indices.
pub open spec fn ranges_within(features: Seq<(u32, IndexRange)>, index_count: u32) -> bool {
    forall|i: int|
        0 <= i < features.len() ==> (#[trigger] features[i]).1.start <= features[i].1.end
            <= index_count
}

impl Tile {
    /// Every feature of every layer has its range within the tile's index
    /// buffer.
    pub open spec fn wf(&self) -> bool {
        forall|l: int|
            0 <= l < self.layers@.len() ==> ranges_within(
                (#[trigger] self.layers@[l]).features@,
                self.index_count,
            )
    }
}

/// The features of well-formed layers have their ranges within the index
/// buffer.
pub proof fn lemma_features_within(layers: Seq<Layer>, n: int, index_count: u32)
    requires
        0 <= n <= layers.len(),
        forall|l: int|
            0 <= l < layers.len() ==> ranges_within((#[trigger] layers[l]).features@, index_count),
    ensures
        ranges_within(features_of(layers, n), index_count),
    decreases n,
{
    if n > 0 {
        lemma_features_within(layers, n - 1, index_count);
        let head = features_of(layers, n - 1);
        let tail = layers[n - 1].features@;
        assert(ranges_within(tail, index_count));
        assert forall|i: int| 0 <= i < (head + tail).len() implies (#[trigger] (head + tail)[i]).1.start
            <= (head + tail)[i].1.end <= index_count by {
            if i < head.len() {
                assert((head + tail)[i] == head[i]);
            } else {
                assert((head + tail)[i] == tail[i - head.len()]);
            }
        }
    }
}

/// The features of the first `n` layers, layer after layer.
pub open spec fn features_of(layers: Seq<Layer>, n: int) -> Seq<(u32, IndexRange)>
    decreases n,
{
    if n <= 0 {
        Seq::empty()
    } else {
        features_of(layers, n - 1) + layers[n - 1].features@
    }
}

impl DrawableTile {
    /// Every feature has its range within the tile's index buffer.
    pub open spec fn wf(&self) -> bool {
        ranges_within(self.features@, self.index_count)
    }

    /// Whether every feature has its range within the tile's index buffer.
    pub fn ranges_in_bounds(&self) -> (ok: bool)
        ensures
            ok == self.wf(),
    {
        let mut i: usize = 0;
        while i < self.features.len()
            invariant
                i <= self.features.len(),
                forall|k: int|
                    0 <= k < i ==> (#[trigger] self.features@[k]).1.start <= self.features@[k].1.end
                        <= self.index_count,
            decreases self.features.len() - i,
        {
            let r: IndexRange = self.features[i].1;
            if r.start > r.end || r.end > self.index_count {
                return false;
            }
            i = i + 1;
        }
        true
    }

    /// The drawable form of `tile` under the key `tile_id`.
    pub fn load_from_tile_id(tile_id: TileId, tile: &Tile) -> (d: DrawableTile)
        ensures
            d.tile_id == tile_id,
            d.index_count == tile.index_count,
            d.extent == tile.extent,
            d.features@ == features_of(tile.layers@, tile.layers@.len() as int),
            tile.wf() ==> d.wf(),
    {
        let mut features: Vec<(u32, IndexRange)> = Vec::new();
        let mut i: usize = 0;
        while i < tile.layers.len()
            invariant
                i <= tile.layers.len(),
                features@ == features_of(tile.layers@, i as int),
            decreases tile.layers.len() - i,
        {
            let layer = &tile.layers[i];
            let ghost before = features@;
            let mut j: usize = 0;
            while j < layer.features.len()
                invariant
                    j <= layer.features.len(),
                    features@ == before + layer.features@.subrange(0, j as int),
                decreases layer.features.len() - j,
            {
                features.push(layer.features[j]);
                j = j + 1;
                assert(layer.features@.subrange(0, j as int) =~= layer.features@.subrange(
                    0,
                    j - 1,
                ).push(layer.features@[j - 1]));
                assert(features@ =~= before + layer.features@.subrange(0, j as int));
            }
            assert(layer.features@.subrange(0, j as int) =~= layer.features@);
            i = i + 1;
        }
        proof {
            if tile.wf() {
                lemma_features_within(tile.layers@, tile.layers@.len() as int, tile.index_count);
            }
        }
        DrawableTile { tile_id, index_count: tile.index_count, features, extent: tile.extent }
    }
}

} // verus!
