//! The command stream of a single closed ring, and the proof that decoding
//! gives the ring back.

use crate::geometry::decode;
use crate::geometry::pos_after;
use crate::geometry::run;
use crate::geometry::zigzag;
use crate::geometry::Coord;
use crate::geometry::Decoded;
use crate::geometry::GeomType;
use crate::geometry::Step;
use vstd::prelude::*;

verus! {

/// A difference of coordinates that one zig-zag word can hold.
pub open spec fn fits_delta(d: int) -> bool {
    -0x8000_0000 <= d < 0x8000_0000
}

/// The zig-zag word for the signed value `d`.
pub open spec fn zigzag_word(d: int) -> u32 {
    if d >= 0 {
        (2 * d) as u32
    } else {
        (-2 * d - 1) as u32
    }
}

/// Decoding a zig-zag word gives back the value that it was made from.
pub proof fn lemma_zigzag_inverse(d: int)
    requires
        fits_delta(d),
    ensures
        zigzag(zigzag_word(d)) == d,
{
}

/// The word at position `i` of the stream for the ring through `points`,
/// drawn from `origin`: a move-to of one pair, a line-to of all further
/// vertices, each as the difference to the vertex before, and a close-path.
pub open spec fn ring_word(points: Seq<Coord>, origin: Coord, i: int) -> u32 {
    let n = points.len() as int;
    if i == 0 {
        9
    } else if i == 1 {
        zigzag_word(points[0].x - origin.x)
    } else if i == 2 {
        zigzag_word(points[0].y - origin.y)
    } else if i == 3 {
        (2 + 8 * (n - 1)) as u32
    } else if i < 2 * n + 2 {
        let j = (i - 4) / 2 + 1;
        if (i - 4) % 2 == 0 {
            zigzag_word(points[j].x - points[j - 1].x)
        } else {
            zigzag_word(points[j].y - points[j - 1].y)
        }
    } else {
        15
    }
}

/// The stream for the ring through `points`, drawn from `origin`.
pub open spec fn encode_ring(points: Seq<Coord>, origin: Coord) -> Seq<u32> {
    Seq::new((2 * points.len() + 3) as nat, |i: int| ring_word(points, origin, i))
}

/// The path of the ring through `points`: a move-to, a line-to for each
/// further vertex, and a close.
pub open spec fn ring_steps(points: Seq<Coord>) -> Seq<Step> {
    Seq::new(
        (points.len() + 1) as nat,
        |i: int|
            if i == 0 {
                Step::MoveTo(points[0])
            } else if i < points.len() {
                Step::LineTo(points[i])
            } else {
                Step::Close
            },
    )
}

/// A ring that one stream can hold: at least one vertex, a vertex count that
/// fits a command word, and steps that fit a zig-zag word.
pub open spec fn encodable(points: Seq<Coord>, origin: Coord) -> bool {
    &&& 1 <= points.len() <= 0x2000_0000
    &&& fits_delta(points[0].x - origin.x)
    &&& fits_delta(points[0].y - origin.y)
    &&& forall|j: int|
        1 <= j < points.len() ==> fits_delta(#[trigger] points[j].x - points[j - 1].x)
            && fits_delta(points[j].y - points[j - 1].y)
}

proof fn lemma_line_positions(points: Seq<Coord>, origin: Coord, k: nat)
    requires
        encodable(points, origin),
        k <= points.len() - 1,
    ensures
        pos_after(encode_ring(points, origin), 4, points[0], k) == points[k as int],
    decreases k,
{
    if k > 0 {
        let s = encode_ring(points, origin);
        lemma_line_positions(points, origin, (k - 1) as nat);
        let i = 4 + 2 * (k - 1);
        assert(s[i] == ring_word(points, origin, i));
        assert(s[i + 1] == ring_word(points, origin, i + 1));
        assert((i - 4) / 2 + 1 == k && (i - 4) % 2 == 0);
        assert((i + 1 - 4) / 2 + 1 == k && (i + 1 - 4) % 2 == 1);
        assert(fits_delta(points[k as int].x - points[k - 1].x));
        lemma_zigzag_inverse(points[k as int].x - points[k - 1].x);
        lemma_zigzag_inverse(points[k as int].y - points[k - 1].y);
    }
}

/// Decoding the stream of a ring as a polygon gives the ring back: its
/// vertices at their absolute positions, in order, as one closed subpath;
/// the whole stream is read and the position rests on the last vertex.
pub proof fn lemma_ring_round_trip(points: Seq<Coord>, origin: Coord)
    requires
        encodable(points, origin),
    ensures
        decode(GeomType::Polygon, encode_ring(points, origin), 0, origin, Seq::empty()) == (Decoded {
            error: None,
            path: ring_steps(points),
            cursor: 2 * (points.len() as int) + 3,
            pos: points[points.len() - 1],
        }),
{
    let n = points.len() as int;
    let s = encode_ring(points, origin);
    let t = GeomType::Polygon;
    let last = points[n - 1];
    lemma_zigzag_inverse(points[0].x - origin.x);
    lemma_zigzag_inverse(points[0].y - origin.y);
    assert(s[0] == 9 && s[1] == ring_word(points, origin, 1) && s[2] == ring_word(
        points,
        origin,
        2,
    ));
    assert(s[3] == ring_word(points, origin, 3));
    assert(s[2 * n + 2] == 15);
    assert(s[3] % 8 == 2 && s[3] / 8 == n - 1);
    let first = pos_after(s, 1, origin, 1);
    assert(pos_after(s, 1, origin, 0) == origin);
    assert(first == points[0]);
    let path1 = Seq::<Step>::empty() + run(s, 1, origin, 1, 1);
    lemma_line_positions(points, origin, (n - 1) as nat);
    let path2 = path1 + run(s, 4, points[0], (n - 1) as nat, 2);
    let path3 = path2.push(Step::Close);
    assert forall|i: int| 0 <= i < n + 1 implies path3[i] == ring_steps(points)[i] by {
        if 1 <= i < n {
            lemma_line_positions(points, origin, i as nat);
        }
    }
    assert(path3 =~= ring_steps(points));
    let d3 = decode(t, s, 2 * n + 3, last, path3);
    assert(d3 == Decoded { error: None, path: path3, cursor: 2 * n + 3, pos: last });
    let d2 = decode(t, s, 2 * n + 2, last, path2);
    assert(d2 == d3);
    let d1 = decode(t, s, 3, points[0], path1);
    assert(d1 == d2);
    let d0 = decode(t, s, 0, origin, Seq::empty());
    assert(d0 == d1);
}

} // verus!
