//! The winding of a polygon ring, by the shoelace sum.

use crate::geometry::coords;
use crate::geometry::Coord;
use crate::geometry::Point;
use vstd::prelude::*;

verus! {

/// Most vertices that `area` takes in one ring.
pub const MAX_RING: usize = 0x4000_0000;

/// Largest magnitude of a coordinate that `area` takes.
pub const MAX_COORD: i64 = 0x100_0000_0000;

/// The rotational direction of a ring.
#[derive(Clone, Copy, Debug, PartialEq, Eq, Structural)]
pub enum Winding {
    /// The shoelace sum is positive.
    Positive,
    /// The shoelace sum is negative.
    Negative,
    /// The ring encloses no area.
    Degenerate,
}

/// The cross product of the position vectors `a` and `b`.
pub open spec fn cross(a: Coord, b: Coord) -> int {
    a.x * b.y - b.x * a.y
}

/// The index after `i` on a ring of `n` vertices.
pub open spec fn succ(i: int, n: int) -> int {
    if i + 1 == n {
        0
    } else {
        i + 1
    }
}

/// The contribution of the edge that leaves vertex `i`.
pub open spec fn edge(ring: Seq<Coord>, i: int) -> int {
    cross(ring[i], ring[succ(i, ring.len() as int)])
}

/// The sum of the contributions of the first `k` edges.
pub open spec fn edge_sum(ring: Seq<Coord>, k: int) -> int
    decreases k,
{
    if k <= 0 {
        0
    } else {
        edge_sum(ring, k - 1) + edge(ring, k - 1)
    }
}

/// The shoelace sum of a ring, closed from its last vertex back to its
/// first: twice the signed area that the ring encloses.
pub open spec fn shoelace(ring: Seq<Coord>) -> int {
    edge_sum(ring, ring.len() as int)
}

/// The winding that a shoelace sum stands for.
pub open spec fn winding_of(sum: int) -> Winding {
    if sum > 0 {
        Winding::Positive
    } else if sum < 0 {
        Winding::Negative
    } else {
        Winding::Degenerate
    }
}

/// Every coordinate of `ring` has a magnitude of at most `MAX_COORD`.
pub open spec fn coords_bounded(ring: Seq<Point>) -> bool {
    forall|i: int|
        0 <= i < ring.len() ==> -MAX_COORD <= #[trigger] ring[i].x <= MAX_COORD && -MAX_COORD
            <= ring[i].y <= MAX_COORD
}

proof fn lemma_cross_bound(a: Coord, b: Coord)
    requires
        -MAX_COORD <= a.x <= MAX_COORD,
        -MAX_COORD <= a.y <= MAX_COORD,
        -MAX_COORD <= b.x <= MAX_COORD,
        -MAX_COORD <= b.y <= MAX_COORD,
    ensures
        -0x1_0000_0000_0000_0000_0000 <= a.x * b.y <= 0x1_0000_0000_0000_0000_0000,
        -0x1_0000_0000_0000_0000_0000 <= b.x * a.y <= 0x1_0000_0000_0000_0000_0000,
        -0x2_0000_0000_0000_0000_0000 <= cross(a, b) <= 0x2_0000_0000_0000_0000_0000,
{
    assert(-0x1_0000_0000_0000_0000_0000 <= a.x * b.y <= 0x1_0000_0000_0000_0000_0000)
        by (nonlinear_arith)
        requires
            -0x100_0000_0000 <= a.x <= 0x100_0000_0000,
            -0x100_0000_0000 <= b.y <= 0x100_0000_0000,
    ;
    assert(-0x1_0000_0000_0000_0000_0000 <= b.x * a.y <= 0x1_0000_0000_0000_0000_0000)
        by (nonlinear_arith)
        requires
            -0x100_0000_0000 <= b.x <= 0x100_0000_0000,
            -0x100_0000_0000 <= a.y <= 0x100_0000_0000,
    ;
}

/// The shoelace sum of the ring through `ring`, in order.
pub fn area(ring: &Vec<Point>) -> (sum: i128)
    requires
        ring.len() <= MAX_RING,
        coords_bounded(ring@),
    ensures
        sum == shoelace(coords(ring@)),
{
    let n: usize = ring.len();
    let mut sum: i128 = 0;
    let mut i: usize = 0;
    while i < n
        invariant
            n == ring.len(),
            n <= MAX_RING,
            i <= n,
            coords_bounded(ring@),
            sum == edge_sum(coords(ring@), i as int),
            -0x2_0000_0000_0000_0000_0000 * i <= sum <= 0x2_0000_0000_0000_0000_0000 * i,
        decreases n - i,
    {
        let j: usize = if i + 1 == n {
            0
        } else {
            i + 1
        };
        let a = ring[i];
        let b = ring[j];
        proof {
            lemma_cross_bound(a@, b@);
            assert(coords(ring@)[i as int] == a@);
            assert(coords(ring@)[j as int] == b@);
        }
        let term: i128 = (a.x as i128) * (b.y as i128) - (b.x as i128) * (a.y as i128);
        sum = sum + term;
        i = i + 1;
    }
    sum
}

/// The winding of the ring through `ring`.
pub fn winding(ring: &Vec<Point>) -> (w: Winding)
    requires
        ring.len() <= MAX_RING,
        coords_bounded(ring@),
    ensures
        w == winding_of(shoelace(coords(ring@))),
{
    let sum: i128 = area(ring);
    if sum > 0 {
        Winding::Positive
    } else if sum < 0 {
        Winding::Negative
    } else {
        Winding::Degenerate
    }
}

/// The ring that starts one vertex later and goes round in the same order.
pub open spec fn rotate_once(ring: Seq<Coord>) -> Seq<Coord> {
    if ring.len() == 0 {
        ring
    } else {
        ring.subrange(1, ring.len() as int).push(ring[0])
    }
}

/// The ring that starts `k` vertices later and goes round in the same order.
pub open spec fn rotated(ring: Seq<Coord>, k: nat) -> Seq<Coord>
    decreases k,
{
    if k == 0 {
        ring
    } else {
        rotate_once(rotated(ring, (k - 1) as nat))
    }
}

/// The ring through the same vertices in the opposite order.
pub open spec fn reversed(ring: Seq<Coord>) -> Seq<Coord> {
    Seq::new(ring.len(), |i: int| ring[ring.len() - 1 - i])
}

proof fn lemma_rotate_prefix(ring: Seq<Coord>, k: int)
    requires
        ring.len() >= 1,
        0 <= k <= ring.len() - 1,
    ensures
        edge_sum(rotate_once(ring), k) == edge_sum(ring, k + 1) - edge(ring, 0),
    decreases k,
{
    let r = rotate_once(ring);
    if k == 0 {
        assert(edge_sum(ring, 1) == edge_sum(ring, 0) + edge(ring, 0));
    } else {
        lemma_rotate_prefix(ring, k - 1);
        assert(r[k - 1] == ring[k]);
        assert(edge(r, k - 1) == edge(ring, k));
    }
}

/// The shoelace sum does not depend on the vertex at which the ring starts.
pub proof fn lemma_shoelace_rotate_once(ring: Seq<Coord>)
    ensures
        shoelace(rotate_once(ring)) == shoelace(ring),
{
    let n = ring.len() as int;
    if n >= 1 {
        let r = rotate_once(ring);
        lemma_rotate_prefix(ring, n - 1);
        assert(r[n - 1] == ring[0]);
        assert(edge(r, n - 1) == edge(ring, 0));
    }
}

/// The shoelace sum, and with it the winding, is the same for every cyclic
/// reindexing of a ring.
pub proof fn lemma_shoelace_rotated(ring: Seq<Coord>, k: nat)
    ensures
        shoelace(rotated(ring, k)) == shoelace(ring),
        winding_of(shoelace(rotated(ring, k))) == winding_of(shoelace(ring)),
    decreases k,
{
    if k > 0 {
        lemma_shoelace_rotated(ring, (k - 1) as nat);
        lemma_shoelace_rotate_once(rotated(ring, (k - 1) as nat));
    }
}

proof fn lemma_reverse_prefix(ring: Seq<Coord>, k: int)
    requires
        ring.len() >= 1,
        0 <= k <= ring.len() - 1,
    ensures
        edge_sum(reversed(ring), k) == -(edge_sum(ring, ring.len() - 1) - edge_sum(
            ring,
            ring.len() - 1 - k,
        )),
    decreases k,
{
    let n = ring.len() as int;
    let r = reversed(ring);
    if k > 0 {
        lemma_reverse_prefix(ring, k - 1);
        assert(r[k - 1] == ring[n - k]);
        assert(r[k] == ring[n - 1 - k]);
        assert(edge(r, k - 1) == -edge(ring, n - 1 - k));
        assert(edge_sum(ring, n - k) == edge_sum(ring, n - 1 - k) + edge(ring, n - 1 - k));
    }
}

/// Reversing the order of the vertices negates the shoelace sum: the winding
/// flips, and a ring without area stays without.
pub proof fn lemma_shoelace_reversed(ring: Seq<Coord>)
    ensures
        shoelace(reversed(ring)) == -shoelace(ring),
        winding_of(shoelace(ring)) == Winding::Positive <==> winding_of(shoelace(reversed(ring)))
            == Winding::Negative,
        winding_of(shoelace(ring)) == Winding::Negative <==> winding_of(shoelace(reversed(ring)))
            == Winding::Positive,
{
    let n = ring.len() as int;
    if n >= 1 {
        let r = reversed(ring);
        lemma_reverse_prefix(ring, n - 1);
        assert(r[n - 1] == ring[0]);
        assert(r[0] == ring[n - 1]);
        assert(edge(r, n - 1) == -edge(ring, n - 1));
        assert(edge_sum(ring, 0) == 0);
    }
}

} // verus!
