//! The order in which the features of a tile are drawn: by ascending
//! z-order, the opaque features first, the blended ones after them.

use crate::tile::DrawableTile;
use crate::tile::IndexRange;
use vstd::prelude::*;

verus! {

/// How one feature is to be drawn. `z_order` stands for the feature's
/// z-index: a feature with a smaller value is drawn earlier.
#[derive(Clone, Copy, Debug, PartialEq, Eq, Structural)]
pub struct FeatureStyle {
    pub z_order: i64,
    pub alpha: bool,
    pub visible: bool,
    pub outline: bool,
}

/// A feature with its part of the index buffer and its style.
#[derive(Clone, Copy, Debug, PartialEq, Eq, Structural)]
pub struct StyledFeature {
    pub id: u32,
    pub range: IndexRange,
    pub style: FeatureStyle,
}

/// One indexed draw: the pipeline (blended or not), the stencil reference
/// set before it, the index range, and the single instance drawn.
#[derive(Clone, Copy, Debug, PartialEq, Eq, Structural)]
pub struct DrawCall {
    pub blend: bool,
    pub stencil: u32,
    pub range: IndexRange,
    pub instance: u32,
}

/// The features in ascending z-order.
pub open spec fn sorted(s: Seq<StyledFeature>) -> bool {
    forall|i: int, j: int| 0 <= i < j < s.len() ==> s[i].style.z_order <= s[j].style.z_order
}

/// The features of a tile, each with the style at its position.
pub open spec fn styled(features: Seq<(u32, IndexRange)>, styles: Seq<FeatureStyle>) -> Seq<
    StyledFeature,
> {
    Seq::new(
        features.len(),
        |i: int| StyledFeature { id: features[i].0, range: features[i].1, style: styles[i] },
    )
}

/// The features without their styles.
pub open spec fn bare(order: Seq<StyledFeature>) -> Seq<(u32, IndexRange)> {
    Seq::new(order.len(), |i: int| (order[i].id, order[i].range))
}

/// A feature is drawn in the pass `blend` if it belongs to that pass, is
/// visible and has indices to draw.
pub open spec fn drawn(f: StyledFeature, blend: bool) -> bool {
    f.style.alpha == blend && f.range.spec_len() > 0 && f.style.visible
}

/// The number of features among the first `n` that the pass `blend` draws.
pub open spec fn drawn_count(order: Seq<StyledFeature>, blend: bool, n: int) -> int
    decreases n,
{
    if n <= 0 {
        0
    } else {
        drawn_count(order, blend, n - 1) + if drawn(order[n - 1], blend) {
            1int
        } else {
            0int
        }
    }
}

/// The instance that holds the fill of tile `tile_id`.
pub open spec fn fill_instance(tile_id: u32) -> u32 {
    (tile_id << 1) | 1
}

/// The instance that holds the outline of tile `tile_id`.
pub open spec fn outline_instance(tile_id: u32) -> u32 {
    tile_id << 1
}

/// The draws of one feature: its fill, and its outline if it has one.
pub open spec fn feature_calls(f: StyledFeature, blend: bool, stencil: u32, tile_id: u32) -> Seq<
    DrawCall,
> {
    let fill = DrawCall { blend, stencil, range: f.range, instance: fill_instance(tile_id) };
    if f.style.outline {
        seq![fill, DrawCall { blend, stencil, range: f.range, instance: outline_instance(tile_id) }]
    } else {
        seq![fill]
    }
}

/// The draws of the pass `blend` over the first `n` features of `order`. The
/// stencil reference counts the features that the pass has drawn before.
pub open spec fn pass_calls(order: Seq<StyledFeature>, blend: bool, tile_id: u32, n: int) -> Seq<
    DrawCall,
>
    decreases n,
{
    if n <= 0 {
        Seq::empty()
    } else if drawn(order[n - 1], blend) {
        pass_calls(order, blend, tile_id, n - 1) + feature_calls(
            order[n - 1],
            blend,
            drawn_count(order, blend, n - 1) as u32,
            tile_id,
        )
    } else {
        pass_calls(order, blend, tile_id, n - 1)
    }
}

/// All draws of a tile whose features come in `order`: the opaque pass, then
/// the blended pass.
pub open spec fn plan_of(order: Seq<StyledFeature>, tile_id: u32) -> Seq<DrawCall> {
    pass_calls(order, false, tile_id, order.len() as int) + pass_calls(
        order,
        true,
        tile_id,
        order.len() as int,
    )
}

/// Those among the first `n` features that have the z-order `z`, in order.
pub open spec fn with_z(s: Seq<StyledFeature>, z: i64, n: int) -> Seq<StyledFeature>
    decreases n,
{
    if n <= 0 {
        Seq::empty()
    } else if s[n - 1].style.z_order == z {
        with_z(s, z, n - 1).push(s[n - 1])
    } else {
        with_z(s, z, n - 1)
    }
}

/// Features of equal z-order come in `a` in the order in which they come in
/// `b`.
pub open spec fn ties_as_in(a: Seq<StyledFeature>, b: Seq<StyledFeature>) -> bool {
    forall|z: i64| with_z(a, z, a.len() as int) == with_z(b, z, b.len() as int)
}

proof fn lemma_with_z_prefix(a: Seq<StyledFeature>, b: Seq<StyledFeature>, z: i64, n: int)
    requires
        n <= a.len(),
        n <= b.len(),
        forall|k: int| 0 <= k < n ==> a[k] == b[k],
    ensures
        with_z(a, z, n) == with_z(b, z, n),
    decreases n,
{
    if n > 0 {
        lemma_with_z_prefix(a, b, z, n - 1);
    }
}

proof fn lemma_insert_keeps_ties(s: Seq<StyledFeature>, at: int, x: StyledFeature, z: i64, n: int)
    requires
        0 <= at <= n <= s.len(),
        forall|k: int| at <= k < s.len() ==> s[k].style.z_order > x.style.z_order,
    ensures
        with_z(s.insert(at, x), z, n + 1) == if z == x.style.z_order {
            with_z(s, z, n).push(x)
        } else {
            with_z(s, z, n)
        },
    decreases n,
{
    let t = s.insert(at, x);
    if n == at {
        lemma_with_z_prefix(t, s, z, at);
        assert(t[at] == x);
    } else {
        lemma_insert_keeps_ties(s, at, x, z, n - 1);
        assert(t[n] == s[n - 1]);
    }
}

proof fn lemma_insert_multiset(s: Seq<StyledFeature>, i: int, x: StyledFeature)
    requires
        0 <= i <= s.len(),
    ensures
        s.insert(i, x).to_multiset() == s.to_multiset().insert(x),
{
    let t = s.insert(i, x);
    assert(t[i] == x);
    assert(t.remove(i) =~= s);
    vstd::seq_lib::to_multiset_remove(t, i);
    t.to_multiset_ensures();
    assert(t.contains(x));
    assert(t.to_multiset() =~= s.to_multiset().insert(x));
}

/// The features in ascending z-order; features of equal z-order keep the
/// order in which they came.
pub fn sort_by_zorder(features: &Vec<StyledFeature>) -> (order: Vec<StyledFeature>)
    ensures
        sorted(order@),
        ties_as_in(order@, features@),
        order@.to_multiset() == features@.to_multiset(),
        order@.len() == features@.len(),
{
    let mut order: Vec<StyledFeature> = Vec::new();
    let mut i: usize = 0;
    assert(features@.subrange(0, 0) =~= Seq::<StyledFeature>::empty());
    while i < features.len()
        invariant
            i <= features.len(),
            order@.len() == i,
            sorted(order@),
            forall|z: i64| with_z(order@, z, i as int) == with_z(features@, z, i as int),
            order@.to_multiset() == features@.subrange(0, i as int).to_multiset(),
        decreases features.len() - i,
    {
        let item: StyledFeature = features[i];
        let mut at: usize = 0;
        while at < order.len() && order[at].style.z_order <= item.style.z_order
            invariant
                at <= order.len(),
                forall|k: int| 0 <= k < at ==> order@[k].style.z_order <= item.style.z_order,
            decreases order.len() - at,
        {
            at = at + 1;
        }
        let ghost before = order@;
        let ghost done = i as int;
        proof {
            lemma_insert_multiset(order@, at as int, item);
            vstd::seq_lib::to_multiset_build(features@.subrange(0, i as int), item);
            assert(features@.subrange(0, i + 1) =~= features@.subrange(0, i as int).push(item));
        }
        order.insert(at, item);
        i = i + 1;
        proof {
            assert forall|z: i64| with_z(order@, z, i as int) == #[trigger] with_z(
                features@,
                z,
                i as int,
            ) by {
                lemma_insert_keeps_ties(before, at as int, item, z, done);
                assert(with_z(before, z, done) == with_z(features@, z, done));
            }
        }
    }
    assert(features@.subrange(0, i as int) =~= features@);
    order
}

fn push_pass(plan: &mut Vec<DrawCall>, order: &Vec<StyledFeature>, blend: bool, tile_id: u32)
    requires
        order.len() <= u32::MAX,
    ensures
        final(plan)@ == old(plan)@ + pass_calls(order@, blend, tile_id, order@.len() as int),
{
    let mut stencil: u32 = 0;
    let mut i: usize = 0;
    assert(plan@ =~= old(plan)@ + pass_calls(order@, blend, tile_id, 0));
    while i < order.len()
        invariant
            i <= order.len(),
            order.len() <= u32::MAX,
            stencil == drawn_count(order@, blend, i as int),
            stencil <= i,
            plan@ == old(plan)@ + pass_calls(order@, blend, tile_id, i as int),
        decreases order.len() - i,
    {
        let f: StyledFeature = order[i];
        let ghost before = plan@;
        if f.style.alpha == blend && f.range.len() > 0 && f.style.visible {
            plan.push(DrawCall { blend, stencil, range: f.range, instance: (tile_id << 1) | 1 });
            if f.style.outline {
                plan.push(DrawCall { blend, stencil, range: f.range, instance: tile_id << 1 });
            }
            assert(plan@ =~= before + feature_calls(f, blend, stencil, tile_id));
            stencil = stencil + 1;
        }
        i = i + 1;
        assert(plan@ =~= old(plan)@ + pass_calls(order@, blend, tile_id, i as int));
    }
}

/// The draws of a tile whose features come in `order`: first every opaque
/// feature that is visible and has indices, then every blended one, each
/// pass with stencil references that count up from zero. A feature with an
/// outline is drawn twice, fill first.
pub fn draw_plan(order: &Vec<StyledFeature>, tile_id: u32) -> (plan: Vec<DrawCall>)
    requires
        order.len() <= u32::MAX,
    ensures
        plan@ == plan_of(order@, tile_id),
{
    let mut plan: Vec<DrawCall> = Vec::new();
    push_pass(&mut plan, order, false, tile_id);
    push_pass(&mut plan, order, true, tile_id);
    plan
}

impl DrawableTile {
    /// The features of the tile, each with the style at its position in
    /// `styles`.
    pub fn styled_features(&self, styles: &Vec<FeatureStyle>) -> (v: Vec<StyledFeature>)
        requires
            styles.len() == self.features.len(),
        ensures
            v@ == styled(self.features@, styles@),
    {
        let mut v: Vec<StyledFeature> = Vec::new();
        let mut i: usize = 0;
        while i < self.features.len()
            invariant
                i <= self.features.len(),
                styles.len() == self.features.len(),
                v@.len() == i,
                forall|k: int| 0 <= k < i ==> v@[k] == styled(self.features@, styles@)[k],
            decreases self.features.len() - i,
        {
            let (id, range) = self.features[i];
            v.push(StyledFeature { id, range, style: styles[i] });
            i = i + 1;
        }
        assert(v@ =~= styled(self.features@, styles@));
        v
    }

    /// Brings the features of this tile into ascending z-order and gives the
    /// draws of the tile in that order. `styles` holds the style of each
    /// feature at the feature's position before the call.
    pub fn paint(&mut self, styles: &Vec<FeatureStyle>, tile_id: u32) -> (plan: Vec<DrawCall>)
        requires
            styles.len() == old(self).features.len(),
            old(self).features.len() <= u32::MAX,
        ensures
            final(self).tile_id == old(self).tile_id,
            final(self).index_count == old(self).index_count,
            final(self).extent == old(self).extent,
            exists|order: Seq<StyledFeature>|
                sorted(order) && ties_as_in(order, styled(old(self).features@, styles@))
                    && order.to_multiset() == styled(old(self).features@, styles@).to_multiset()
                    && #[trigger] plan_of(order, tile_id) == plan@ && final(self).features@
                    == bare(order),
    {
        let v = self.styled_features(styles);
        let order = sort_by_zorder(&v);
        let plan = draw_plan(&order, tile_id);
        let mut features: Vec<(u32, IndexRange)> = Vec::new();
        let mut i: usize = 0;
        while i < order.len()
            invariant
                i <= order.len(),
                features@.len() == i,
                forall|k: int| 0 <= k < i ==> features@[k] == bare(order@)[k],
            decreases order.len() - i,
        {
            features.push((order[i].id, order[i].range));
            i = i + 1;
        }
        self.features = features;
        assert(self.features@ =~= bare(order@));
        assert(plan_of(order@, tile_id) == plan@);
        plan
    }
}

} // verus!
