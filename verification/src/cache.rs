//! The set of resident tiles and the protocol that keeps it in step with the
//! viewport: stale tiles leave first, then each tile that arrives replaces
//! the coarser parent once its quad is complete, and the finer children
//! beneath it at once.

use crate::tile::is_parent_of;
use crate::tile::same_quad;
use crate::tile::DrawableTile;
use crate::tile::TileId;
use vstd::prelude::*;

verus! {

/// The entry at position `i` of `s` has the key `k`.
pub open spec fn holds_at(s: Seq<DrawableTile>, k: TileId, i: int) -> bool {
    0 <= i < s.len() && s[i].tile_id == k
}

/// The keys of the entries of `s`.
pub open spec fn ids_of(s: Seq<DrawableTile>) -> Set<TileId> {
    Set::new(|k: TileId| exists|i: int| holds_at(s, k, i))
}

/// No two entries of `s` share a key.
pub open spec fn distinct(s: Seq<DrawableTile>) -> bool {
    forall|i: int, j: int| 0 <= i < j < s.len() ==> s[i].tile_id != s[j].tile_id
}

/// Whether a resident tile with key `id` stays when the view is at `zoom`:
/// a tile of the level just below must be in `required_prev`, every other
/// tile in `required`.
pub open spec fn keeps(
    zoom: u32,
    required: Seq<TileId>,
    required_prev: Seq<TileId>,
    id: TileId,
) -> bool {
    if zoom > 0 && id.z == zoom - 1 {
        required_prev.contains(id)
    } else {
        required.contains(id)
    }
}

/// The resident keys that are left of `ids` once the stale ones have gone.
pub open spec fn evicted(
    ids: Set<TileId>,
    zoom: u32,
    required: Seq<TileId>,
    required_prev: Seq<TileId>,
) -> Set<TileId> {
    Set::new(|k: TileId| ids.contains(k) && keeps(zoom, required, required_prev, k))
}

/// Every tile of the quad of `id` that is required is resident in `ids`.
pub open spec fn quad_complete(ids: Set<TileId>, required: Seq<TileId>, id: TileId) -> bool {
    forall|s: TileId| #[trigger] same_quad(s, id) ==> !required.contains(s) || ids.contains(s)
}

/// The resident keys after a tile with key `id` has arrived. A tile that is
/// no longer required is dropped. Otherwise it becomes resident, its children
/// leave, and its parent leaves if the quad of `id` is now complete.
pub open spec fn installed(ids: Set<TileId>, required: Seq<TileId>, id: TileId) -> Set<TileId> {
    if !required.contains(id) {
        ids
    } else {
        Set::new(
            |k: TileId|
                ids.insert(id).contains(k) && !is_parent_of(id, k) && !(is_parent_of(k, id)
                    && quad_complete(ids.insert(id), required, id)),
        )
    }
}

/// The keys of the tiles of `arrived`, in order.
pub open spec fn keys_of(arrived: Seq<DrawableTile>) -> Seq<TileId> {
    arrived.map_values(|t: DrawableTile| t.tile_id)
}

/// The resident keys after the first `n` tiles of `arrived` have come in,
/// one after the other.
pub open spec fn installed_all(
    ids: Set<TileId>,
    required: Seq<TileId>,
    arrived: Seq<TileId>,
    n: int,
) -> Set<TileId>
    decreases n,
{
    if n <= 0 {
        ids
    } else {
        installed(installed_all(ids, required, arrived, n - 1), required, arrived[n - 1])
    }
}

/// The resident keys after one update cycle: the stale tiles leave, then the
/// tiles that have arrived come in.
pub open spec fn cycled(
    ids: Set<TileId>,
    zoom: u32,
    required: Seq<TileId>,
    required_prev: Seq<TileId>,
    arrived: Seq<TileId>,
) -> Set<TileId> {
    installed_all(
        evicted(ids, zoom, required, required_prev),
        required,
        arrived,
        arrived.len() as int,
    )
}

/// Every key of `ids` is required at the current or at the previous zoom.
pub open spec fn covered(ids: Set<TileId>, required: Seq<TileId>, required_prev: Seq<TileId>) -> bool {
    forall|k: TileId| ids.contains(k) ==> required.contains(k) || required_prev.contains(k)
}

/// After the stale tiles have gone, every resident tile is required at the
/// current or at the previous zoom.
pub proof fn lemma_evicted_covered(
    ids: Set<TileId>,
    zoom: u32,
    required: Seq<TileId>,
    required_prev: Seq<TileId>,
)
    ensures
        covered(evicted(ids, zoom, required, required_prev), required, required_prev),
{
}

/// The arrival of a tile keeps every resident tile within the required sets.
pub proof fn lemma_installed_covered(
    ids: Set<TileId>,
    required: Seq<TileId>,
    required_prev: Seq<TileId>,
    id: TileId,
)
    requires
        covered(ids, required, required_prev),
    ensures
        covered(installed(ids, required, id), required, required_prev),
{
}

/// After an update cycle no tile is resident that is required neither at the
/// current nor at the previous zoom, whatever was resident before and
/// whichever tiles arrived.
pub proof fn lemma_cycle_covered(
    ids: Set<TileId>,
    zoom: u32,
    required: Seq<TileId>,
    required_prev: Seq<TileId>,
    arrived: Seq<TileId>,
    n: int,
)
    ensures
        covered(
            installed_all(evicted(ids, zoom, required, required_prev), required, arrived, n),
            required,
            required_prev,
        ),
    decreases n,
{
    if n > 0 {
        lemma_cycle_covered(ids, zoom, required, required_prev, arrived, n - 1);
        lemma_installed_covered(
            installed_all(evicted(ids, zoom, required, required_prev), required, arrived, n - 1),
            required,
            required_prev,
            arrived[n - 1],
        );
    }
}

/// When a required tile arrives and every required tile of its quad is then
/// resident, the parent is gone; when one of them is still missing, the
/// parent stays if it was resident.
pub proof fn lemma_parent_replaced(
    ids: Set<TileId>,
    required: Seq<TileId>,
    id: TileId,
    parent: TileId,
)
    requires
        required.contains(id),
        is_parent_of(parent, id),
    ensures
        quad_complete(ids.insert(id), required, id) ==> !installed(ids, required, id).contains(
            parent,
        ),
        !quad_complete(ids.insert(id), required, id) ==> (installed(ids, required, id).contains(
            parent,
        ) <==> ids.contains(parent)),
{
}

/// The keys among the first `n` of `required` that are not in `ids`, in
/// order.
pub open spec fn absent(required: Seq<TileId>, ids: Set<TileId>, n: int) -> Seq<TileId>
    decreases n,
{
    if n <= 0 {
        Seq::empty()
    } else if ids.contains(required[n - 1]) {
        absent(required, ids, n - 1)
    } else {
        absent(required, ids, n - 1).push(required[n - 1])
    }
}

/// `absent` holds exactly the keys among the first `n` that are not in `ids`.
pub proof fn lemma_absent(required: Seq<TileId>, ids: Set<TileId>, n: int)
    requires
        0 <= n <= required.len(),
    ensures
        forall|id: TileId|
            absent(required, ids, n).contains(id) ==> required.contains(id) && !ids.contains(id),
        forall|j: int|
            0 <= j < n && !ids.contains(#[trigger] required[j]) ==> absent(
                required,
                ids,
                n,
            ).contains(required[j]),
    decreases n,
{
    if n > 0 {
        lemma_absent(required, ids, n - 1);
        let before = absent(required, ids, n - 1);
        let now = absent(required, ids, n);
        if !ids.contains(required[n - 1]) {
            assert(now[now.len() - 1] == required[n - 1]);
            assert forall|id: TileId| now.contains(id) implies required.contains(id)
                && !ids.contains(id) by {
                let j = choose|j: int| 0 <= j < now.len() && now[j] == id;
                if j < before.len() {
                    assert(before[j] == id);
                }
            }
            assert forall|j: int| 0 <= j < n && !ids.contains(
                #[trigger] required[j],
            ) implies now.contains(required[j]) by {
                if j < n - 1 {
                    let w = choose|w: int| 0 <= w < before.len() && before[w] == required[j];
                    assert(now[w] == required[j]);
                }
            }
        }
    }
}

/// Removing the entry at `i` removes its key and no other.
pub proof fn lemma_remove_at(s: Seq<DrawableTile>, i: int)
    requires
        distinct(s),
        0 <= i < s.len(),
    ensures
        distinct(s.remove(i)),
        ids_of(s.remove(i)) == ids_of(s).remove(s[i].tile_id),
        forall|t: DrawableTile| s.remove(i).contains(t) ==> s.contains(t),
        forall|t: DrawableTile|
            s.contains(t) && t.tile_id != s[i].tile_id ==> s.remove(i).contains(t),
{
    let r = s.remove(i);
    assert forall|t: DrawableTile| s.contains(t) && t.tile_id != s[i].tile_id implies r.contains(
        t,
    ) by {
        let j = choose|j: int| 0 <= j < s.len() && s[j] == t;
        if j < i {
            assert(r[j] == t);
        } else {
            assert(r[j - 1] == t);
        }
    }
    assert forall|k: TileId| ids_of(r).contains(k) <==> ids_of(s).remove(s[i].tile_id).contains(
        k,
    ) by {
        if ids_of(r).contains(k) {
            let j = choose|j: int| holds_at(r, k, j);
            if j < i {
                assert(holds_at(s, k, j));
            } else {
                assert(holds_at(s, k, j + 1));
            }
        }
        if ids_of(s).remove(s[i].tile_id).contains(k) {
            let j = choose|j: int| holds_at(s, k, j);
            if j < i {
                assert(holds_at(r, k, j));
            } else {
                assert(holds_at(r, k, j - 1));
            }
        }
    }
    assert(ids_of(r) =~= ids_of(s).remove(s[i].tile_id));
    assert forall|t: DrawableTile| r.contains(t) implies s.contains(t) by {
        let j = choose|j: int| 0 <= j < r.len() && r[j] == t;
        if j < i {
            assert(s[j] == t);
        } else {
            assert(s[j + 1] == t);
        }
    }
}

/// Appending an entry with a new key adds that key and no other.
pub proof fn lemma_push(s: Seq<DrawableTile>, t: DrawableTile)
    requires
        distinct(s),
        !ids_of(s).contains(t.tile_id),
    ensures
        distinct(s.push(t)),
        ids_of(s.push(t)) == ids_of(s).insert(t.tile_id),
{
    let r = s.push(t);
    assert forall|i: int, j: int| 0 <= i < j < r.len() implies r[i].tile_id != r[j].tile_id by {
        if j == s.len() {
            assert(!holds_at(s, t.tile_id, i));
        }
    }
    assert forall|k: TileId| ids_of(r).contains(k) <==> ids_of(s).insert(t.tile_id).contains(
        k,
    ) by {
        if ids_of(r).contains(k) {
            let j = choose|j: int| holds_at(r, k, j);
            if j < s.len() {
                assert(holds_at(s, k, j));
            }
        }
        if ids_of(s).insert(t.tile_id).contains(k) {
            if k == t.tile_id {
                assert(holds_at(r, k, s.len() as int));
            } else {
                let j = choose|j: int| holds_at(s, k, j);
                assert(holds_at(r, k, j));
            }
        }
    }
    assert(ids_of(r) =~= ids_of(s).insert(t.tile_id));
}

/// `k` is one of the first `c` keys of `kids`.
pub open spec fn among(kids: Seq<TileId>, c: int, k: TileId) -> bool {
    exists|j: int| 0 <= j < c && kids[j] == k
}

/// The keys of `ids` that are none of the first `c` keys of `kids`.
pub open spec fn without(ids: Set<TileId>, kids: Seq<TileId>, c: int) -> Set<TileId> {
    Set::new(|k: TileId| ids.contains(k) && !among(kids, c, k))
}

/// Whether `id` occurs in `list`.
pub fn contains_id(list: &Vec<TileId>, id: TileId) -> (found: bool)
    ensures
        found == list@.contains(id),
{
    let mut i: usize = 0;
    while i < list.len()
        invariant
            i <= list.len(),
            forall|j: int| 0 <= j < i ==> list@[j] != id,
        decreases list.len() - i,
    {
        if list[i] == id {
            return true;
        }
        i = i + 1;
    }
    false
}

/// The resident tiles, at most one per key.
pub struct TileCache {
    tiles: Vec<DrawableTile>,
}

impl TileCache {
    /// The resident tiles, in the order in which they arrived.
    pub closed spec fn entries(&self) -> Seq<DrawableTile> {
        self.tiles@
    }

    /// The keys of the resident tiles.
    pub open spec fn ids(&self) -> Set<TileId> {
        ids_of(self.entries())
    }

    /// No key is resident twice.
    pub open spec fn wf(&self) -> bool {
        distinct(self.entries())
    }

    /// A cache without tiles.
    pub fn new() -> (c: TileCache)
        ensures
            c.wf(),
            c.entries().len() == 0,
            c.ids() == Set::<TileId>::empty(),
    {
        let c = TileCache { tiles: Vec::new() };
        assert(c.ids() =~= Set::<TileId>::empty());
        c
    }

    /// The number of resident tiles.
    pub fn len(&self) -> (n: usize)
        ensures
            n == self.entries().len(),
    {
        self.tiles.len()
    }

    fn position(&self, id: TileId) -> (r: Option<usize>)
        ensures
            match r {
                Some(i) => holds_at(self.entries(), id, i as int),
                None => !self.ids().contains(id),
            },
    {
        let mut i: usize = 0;
        while i < self.tiles.len()
            invariant
                i <= self.tiles.len(),
                forall|j: int| 0 <= j < i ==> !holds_at(self.tiles@, id, j),
            decreases self.tiles.len() - i,
        {
            if self.tiles[i].tile_id == id {
                return Some(i);
            }
            i = i + 1;
        }
        None
    }

    /// Whether a tile with key `id` is resident.
    pub fn contains(&self, id: TileId) -> (found: bool)
        ensures
            found == self.ids().contains(id),
    {
        self.position(id).is_some()
    }

    /// The resident tile with key `id`, if there is one.
    pub fn try_get_tile(&self, id: TileId) -> (r: Option<&DrawableTile>)
        ensures
            match r {
                Some(t) => self.ids().contains(id) && t.tile_id == id && self.entries().contains(
                    *t,
                ),
                None => !self.ids().contains(id),
            },
    {
        match self.position(id) {
            Some(i) => Some(&self.tiles[i]),
            None => None,
        }
    }

    /// The keys of the resident tiles, in the order in which they arrived.
    pub fn keys(&self) -> (k: Vec<TileId>)
        ensures
            k@.len() == self.entries().len(),
            forall|i: int| 0 <= i < k@.len() ==> k@[i] == self.entries()[i].tile_id,
    {
        let mut k: Vec<TileId> = Vec::new();
        let mut i: usize = 0;
        while i < self.tiles.len()
            invariant
                i <= self.tiles.len(),
                k@.len() == i,
                forall|j: int| 0 <= j < i ==> k@[j] == self.tiles@[j].tile_id,
            decreases self.tiles.len() - i,
        {
            k.push(self.tiles[i].tile_id);
            i = i + 1;
        }
        k
    }

    /// Takes the tile with key `id` out of the cache, if it is resident, and
    /// says whether it was. The other tiles stay as they are.
    pub fn remove(&mut self, id: TileId) -> (was_resident: bool)
        requires
            old(self).wf(),
        ensures
            final(self).wf(),
            final(self).ids() == old(self).ids().remove(id),
            was_resident == old(self).ids().contains(id),
            forall|t: DrawableTile|
                final(self).entries().contains(t) ==> old(self).entries().contains(t),
            forall|t: DrawableTile|
                old(self).entries().contains(t) && t.tile_id != id ==> final(self).entries().contains(
                    t,
                ),
    {
        match self.position(id) {
            Some(i) => {
                proof {
                    lemma_remove_at(self.tiles@, i as int);
                }
                let _ = self.tiles.remove(i);
                true
            },
            None => {
                assert(self.ids().remove(id) =~= self.ids());
                false
            },
        }
    }

    /// Removes the stale tiles for a view at `zoom`: a tile of the level just
    /// below `zoom` stays if `required_prev` names it, any other tile if
    /// `required` names it. The tiles that stay are untouched.
    pub fn evict_stale(&mut self, zoom: u32, required: &Vec<TileId>, required_prev: &Vec<TileId>)
        requires
            old(self).wf(),
        ensures
            final(self).wf(),
            final(self).ids() == evicted(old(self).ids(), zoom, required@, required_prev@),
            covered(final(self).ids(), required@, required_prev@),
            forall|t: DrawableTile|
                final(self).entries().contains(t) ==> old(self).entries().contains(t),
    {
        let mut i: usize = 0;
        while i < self.tiles.len()
            invariant
                i <= self.tiles.len(),
                distinct(self.tiles@),
                forall|j: int|
                    0 <= j < i ==> keeps(
                        zoom,
                        required@,
                        required_prev@,
                        #[trigger] self.tiles@[j].tile_id,
                    ),
                forall|k: TileId| ids_of(self.tiles@).contains(k) ==> old(self).ids().contains(k),
                forall|k: TileId|
                    old(self).ids().contains(k) && keeps(zoom, required@, required_prev@, k)
                        ==> ids_of(self.tiles@).contains(k),
                forall|t: DrawableTile|
                    self.tiles@.contains(t) ==> old(self).entries().contains(t),
            decreases self.tiles.len() - i,
        {
            let id: TileId = self.tiles[i].tile_id;
            let stays: bool = if zoom > 0 && id.z == zoom - 1 {
                contains_id(required_prev, id)
            } else {
                contains_id(required, id)
            };
            if stays {
                i = i + 1;
            } else {
                proof {
                    lemma_remove_at(self.tiles@, i as int);
                }
                let _ = self.tiles.remove(i);
            }
        }
        proof {
            assert forall|k: TileId| self.ids().contains(k) implies keeps(
                zoom,
                required@,
                required_prev@,
                k,
            ) by {
                let j = choose|j: int| holds_at(self.tiles@, k, j);
                assert(self.tiles@[j].tile_id == k);
            }
            assert(self.ids() =~= evicted(old(self).ids(), zoom, required@, required_prev@));
        }
    }

    /// The keys in `required` that are not resident, in the order of
    /// `required`: the tiles to fetch.
    pub fn missing(&self, required: &Vec<TileId>) -> (m: Vec<TileId>)
        ensures
            m@ == absent(required@, self.ids(), required@.len() as int),
            forall|id: TileId|
                m@.contains(id) <==> required@.contains(id) && !self.ids().contains(id),
    {
        let mut m: Vec<TileId> = Vec::new();
        let mut i: usize = 0;
        while i < required.len()
            invariant
                i <= required.len(),
                m@ == absent(required@, self.ids(), i as int),
            decreases required.len() - i,
        {
            let id: TileId = required[i];
            if !self.contains(id) {
                m.push(id);
            }
            i = i + 1;
        }
        proof {
            lemma_absent(required@, self.ids(), required@.len() as int);
            assert forall|id: TileId| required@.contains(id) && !self.ids().contains(
                id,
            ) implies m@.contains(id) by {
                let j = choose|j: int| 0 <= j < required@.len() && required@[j] == id;
                assert(required@[j] == id);
            }
        }
        m
    }

    /// Takes in a tile that has arrived. If `required` no longer names its
    /// key, the tile is dropped and the cache stays as it is. Otherwise the
    /// tile becomes resident in place of any tile with the same key, its
    /// four children leave, and its parent leaves if every required tile of
    /// its quad is now resident. Says whether the tile was taken in.
    pub fn install(&mut self, tile: DrawableTile, required: &Vec<TileId>) -> (taken: bool)
        requires
            old(self).wf(),
        ensures
            final(self).wf(),
            taken == required@.contains(tile.tile_id),
            final(self).ids() == installed(old(self).ids(), required@, tile.tile_id),
            taken ==> final(self).entries().contains(tile),
            !taken ==> final(self).entries() == old(self).entries(),
            forall|t: DrawableTile|
                final(self).entries().contains(t) ==> t == tile || old(self).entries().contains(t),
    {
        let id: TileId = tile.tile_id;
        if !contains_id(required, id) {
            return false;
        }
        let _ = self.remove(id);
        proof {
            lemma_push(self.tiles@, tile);
        }
        self.tiles.push(tile);
        let ghost with = old(self).ids().insert(id);
        assert(self.ids() =~= with);
        assert(self.tiles@[self.tiles@.len() - 1] == tile);
        let quad: [TileId; 4] = id.quad();
        let mut complete: bool = true;
        let mut q: usize = 0;
        while q < 4
            invariant
                q <= 4,
                self.ids() == with,
                quad@.len() == 4,
                complete <==> forall|j: int|
                    0 <= j < q ==> !required@.contains(#[trigger] quad@[j]) || with.contains(
                        quad@[j],
                    ),
            decreases 4 - q,
        {
            let s: TileId = quad[q];
            if contains_id(required, s) && !self.contains(s) {
                complete = false;
            }
            q = q + 1;
        }
        proof {
            if complete {
                assert forall|s: TileId| #[trigger] same_quad(s, id) implies !required@.contains(s)
                    || with.contains(s) by {
                    assert(s == quad@[0] || s == quad@[1] || s == quad@[2] || s == quad@[3]);
                }
            } else {
                let j = choose|j: int|
                    0 <= j < 4 && !(!required@.contains(#[trigger] quad@[j]) || with.contains(
                        quad@[j],
                    ));
                assert(same_quad(quad@[j], id));
            }
            assert(complete == quad_complete(with, required@, id));
        }
        if complete {
            match id.parent() {
                Some(p) => {
                    let _ = self.remove(p);
                },
                None => {},
            }
        }
        let ghost after_parent = self.ids();
        assert forall|k: TileId| after_parent.contains(k) <==> with.contains(k) && !(is_parent_of(
            k,
            id,
        ) && complete) by {}
        let kids: Vec<TileId> = id.children();
        let mut c: usize = 0;
        while c < kids.len()
            invariant
                c <= kids.len(),
                tile.tile_id == id,
                distinct(self.tiles@),
                self.tiles@.contains(tile),
                forall|k: TileId| is_parent_of(id, k) <==> kids@.contains(k),
                self.ids() == without(after_parent, kids@, c as int),
                forall|t: DrawableTile|
                    self.tiles@.contains(t) ==> t == tile || old(self).entries().contains(t),
            decreases kids.len() - c,
        {
            let ghost ids_before = self.ids();
            let ghost c0 = c as int;
            assert(kids@.contains(kids@[c0]));
            let _ = self.remove(kids[c]);
            c = c + 1;
            proof {
                assert(is_parent_of(id, kids@[c0]));
                assert(self.ids() == ids_before.remove(kids@[c0]));
                assert(ids_before == without(after_parent, kids@, c0));
                assert forall|k: TileId| self.ids().contains(k) <==> without(
                    after_parent,
                    kids@,
                    c as int,
                ).contains(k) by {
                    assert(ids_before.contains(k) <==> without(after_parent, kids@, c0).contains(
                        k,
                    ));
                    if among(kids@, c as int, k) {
                        let j = choose|j: int| 0 <= j < c && kids@[j] == k;
                        if j < c0 {
                            assert(among(kids@, c0, k));
                        }
                    }
                    if among(kids@, c0, k) {
                        let j = choose|j: int| 0 <= j < c0 && kids@[j] == k;
                        assert(0 <= j < c && kids@[j] == k);
                    }
                    if k == kids@[c0] {
                        assert(0 <= c0 < c && kids@[c0] == k);
                    }
                }
                assert(self.ids() =~= without(after_parent, kids@, c as int));
            }
        }
        proof {
            assert forall|k: TileId| self.ids().contains(k) <==> installed(
                old(self).ids(),
                required@,
                id,
            ).contains(k) by {
                assert(self.ids().contains(k) <==> without(after_parent, kids@, c as int).contains(
                    k,
                ));
                assert(after_parent.contains(k) <==> with.contains(k) && !(is_parent_of(k, id)
                    && complete));
                if is_parent_of(id, k) {
                    assert(kids@.contains(k));
                    let j = choose|j: int| 0 <= j < kids@.len() && kids@[j] == k;
                    assert(among(kids@, c as int, k));
                }
                if among(kids@, c as int, k) {
                    let j = choose|j: int| 0 <= j < c && kids@[j] == k;
                    assert(kids@.contains(k));
                }
            }
            assert(self.ids() =~= installed(old(self).ids(), required@, id));
        }
        true
    }

    /// One update cycle for a view at `zoom`: the stale tiles leave, then the
    /// tiles of `arrived` come in, first to last. Gives the required keys
    /// that are still not resident: the tiles to fetch. After the cycle
    /// every required tile is resident or among those, and every resident
    /// tile is required at the current or at the previous zoom.
    pub fn update(
        &mut self,
        zoom: u32,
        required: &Vec<TileId>,
        required_prev: &Vec<TileId>,
        arrived: Vec<DrawableTile>,
    ) -> (to_fetch: Vec<TileId>)
        requires
            old(self).wf(),
        ensures
            final(self).wf(),
            final(self).ids() == cycled(
                old(self).ids(),
                zoom,
                required@,
                required_prev@,
                keys_of(arrived@),
            ),
            to_fetch@ == absent(required@, final(self).ids(), required@.len() as int),
            forall|id: TileId|
                required@.contains(id) ==> final(self).ids().contains(id) || to_fetch@.contains(id),
            covered(final(self).ids(), required@, required_prev@),
            forall|t: DrawableTile|
                final(self).entries().contains(t) ==> arrived@.contains(t) || old(
                    self,
                ).entries().contains(t),
    {
        self.evict_stale(zoom, required, required_prev);
        let ghost start = self.ids();
        let ghost all = arrived@;
        let mut rest = arrived;
        let ghost mut n: int = 0;
        while rest.len() > 0
            invariant
                self.wf(),
                0 <= n,
                n + rest@.len() == all.len(),
                rest@ == all.subrange(n, all.len() as int),
                self.ids() == installed_all(start, required@, keys_of(all), n),
                forall|t: DrawableTile|
                    self.entries().contains(t) ==> all.contains(t) || old(self).entries().contains(
                        t,
                    ),
            decreases rest@.len(),
        {
            let tile = rest.remove(0);
            assert(tile == all[n]);
            assert(keys_of(all)[n] == tile.tile_id);
            let _ = self.install(tile, required);
            proof {
                n = n + 1;
            }
            assert(rest@ =~= all.subrange(n, all.len() as int));
        }
        proof {
            lemma_cycle_covered(
                old(self).ids(),
                zoom,
                required@,
                required_prev@,
                keys_of(all),
                all.len() as int,
            );
        }
        self.missing(required)
    }
}

} // verus!
