//! The geometry command stream of a feature and its decoding into paths.
//!
//! A stream is a flat sequence of 32-bit words. A command word holds an
//! operation in its low three bits and a repeat count in the rest; move-to and
//! line-to are followed by that many pairs of zig-zag encoded deltas, each
//! added to a running absolute position.

use varint::ZigZag;
use vstd::prelude::*;

verus! {

/// Longest command stream that the decoder takes, in words.
pub const MAX_STREAM: usize = 0x4000_0000;

/// Largest magnitude of a coordinate from which decoding may start.
pub const MAX_START: i64 = 0x4000_0000_0000_0000;

/// Largest step of one coordinate that a single delta can make.
pub const MAX_DELTA: i64 = 0x8000_0000;

/// Operation code of a move-to command.
pub const OP_MOVE_TO: u32 = 1;

/// Operation code of a line-to command.
pub const OP_LINE_TO: u32 = 2;

/// Operation code of a close-path command.
pub const OP_CLOSE: u32 = 7;

/// The kind of geometry that a feature holds.
#[derive(Clone, Copy, Debug, PartialEq, Eq, Structural)]
pub enum GeomType {
    Unknown,
    Point,
    LineString,
    Polygon,
}

/// Why a command stream could not be decoded.
#[derive(Clone, Copy, Debug, PartialEq, Eq, Structural)]
pub enum DecodeError {
    /// The low three bits of a command word name no operation.
    UnknownCommand,
    /// A command is not legal for the geometry type: a line-to in a point
    /// geometry, or a close-path outside a polygon.
    Forbidden,
    /// A command announces more coordinate pairs than the stream holds.
    Truncated,
    /// The stream ended before the primitive was complete.
    Unterminated,
}

/// A position in tile-local coordinates.
#[derive(Clone, Copy, Debug, PartialEq, Eq, Structural)]
pub struct Point {
    pub x: i64,
    pub y: i64,
}

/// One element of a path.
#[derive(Clone, Copy, Debug, PartialEq, Eq, Structural)]
pub enum Segment {
    /// Starts a new subpath at the point.
    MoveTo(Point),
    /// Appends a straight line to the point.
    LineTo(Point),
    /// Closes the current ring.
    Close,
}

/// An ordered sequence of segments.
#[derive(Debug)]
pub struct Path {
    pub segments: Vec<Segment>,
}

/// A position with unbounded integer coordinates.
pub struct Coord {
    pub x: int,
    pub y: int,
}

/// A path element over unbounded coordinates.
pub enum Step {
    MoveTo(Coord),
    LineTo(Coord),
    Close,
}

impl View for Point {
    type V = Coord;

    open spec fn view(&self) -> Coord {
        Coord { x: self.x as int, y: self.y as int }
    }
}

impl View for Segment {
    type V = Step;

    open spec fn view(&self) -> Step {
        match *self {
            Segment::MoveTo(p) => Step::MoveTo(p@),
            Segment::LineTo(p) => Step::LineTo(p@),
            Segment::Close => Step::Close,
        }
    }
}

/// The steps that a sequence of segments stands for.
pub open spec fn steps(v: Seq<Segment>) -> Seq<Step> {
    v.map_values(|s: Segment| s@)
}

impl View for Path {
    type V = Seq<Step>;

    open spec fn view(&self) -> Seq<Step> {
        steps(self.segments@)
    }
}

/// The coordinates of a sequence of points.
pub open spec fn coords(v: Seq<Point>) -> Seq<Coord> {
    v.map_values(|p: Point| p@)
}

/// The positions that the first `n` steps name, in order; a close names
/// none.
pub open spec fn points_of(path: Seq<Step>, n: int) -> Seq<Coord>
    decreases n,
{
    if n <= 0 {
        Seq::empty()
    } else {
        match path[n - 1] {
            Step::MoveTo(p) => points_of(path, n - 1).push(p),
            Step::LineTo(p) => points_of(path, n - 1).push(p),
            Step::Close => points_of(path, n - 1),
        }
    }
}

impl Path {
    /// The points of the path, in order.
    pub fn points(&self) -> (pts: Vec<Point>)
        ensures
            coords(pts@) == points_of(self@, self@.len() as int),
    {
        let mut pts: Vec<Point> = Vec::new();
        let mut i: usize = 0;
        assert(coords(pts@) =~= Seq::<Coord>::empty());
        while i < self.segments.len()
            invariant
                i <= self.segments.len(),
                coords(pts@) == points_of(self@, i as int),
            decreases self.segments.len() - i,
        {
            let ghost before = pts@;
            assert(self@[i as int] == self.segments@[i as int]@);
            match self.segments[i] {
                Segment::MoveTo(p) => {
                    pts.push(p);
                    assert(coords(pts@) =~= coords(before).push(
                        p@,
                    ));
                },
                Segment::LineTo(p) => {
                    pts.push(p);
                    assert(coords(pts@) =~= coords(before).push(
                        p@,
                    ));
                },
                Segment::Close => {},
            }
            i = i + 1;
        }
        pts
    }
}

/// The views of a sequence of paths.
pub open spec fn path_views(v: Seq<Path>) -> Seq<Seq<Step>> {
    v.map_values(|p: Path| p@)
}

/// The signed value that the zig-zag word `n` stands for: even words count
/// up from zero, odd words count down from minus one.
pub open spec fn zigzag(n: u32) -> int {
    if n % 2 == 0 {
        (n / 2) as int
    } else {
        -((n / 2) as int) - 1
    }
}

/// `varint::ZigZag::<i32>::zigzag` on a `u32`: the signed value of a zig-zag
/// word, `(n >> 1) ^ -(n & 1)`.
#[verifier::external_body]
fn zigzag_decode(n: u32) -> (d: i32)
    ensures
        d == zigzag(n),
{
    ZigZag::<i32>::zigzag(&n)
}

/// The position reached from `origin` after the first `k` delta pairs that
/// start at index `start` of `s`.
pub open spec fn pos_after(s: Seq<u32>, start: int, origin: Coord, k: nat) -> Coord
    decreases k,
{
    if k == 0 {
        origin
    } else {
        let p = pos_after(s, start, origin, (k - 1) as nat);
        Coord {
            x: p.x + zigzag(s[start + 2 * (k - 1)]),
            y: p.y + zigzag(s[start + 2 * (k - 1) + 1]),
        }
    }
}

/// The step that operation `op` (move-to or line-to) makes to `p`.
pub open spec fn step_to(op: u32, p: Coord) -> Step {
    if op == OP_MOVE_TO {
        Step::MoveTo(p)
    } else {
        Step::LineTo(p)
    }
}

/// The steps of one move-to or line-to command with `count` delta pairs that
/// start at index `start`.
pub open spec fn run(s: Seq<u32>, start: int, origin: Coord, count: nat, op: u32) -> Seq<Step> {
    Seq::new(count, |i: int| step_to(op, pos_after(s, start, origin, (i + 1) as nat)))
}

/// What decoding one primitive yields: the steps gathered, the stream
/// position and the absolute position where decoding stopped, and the error
/// if it stopped on one.
pub struct Decoded {
    pub error: Option<DecodeError>,
    pub path: Seq<Step>,
    pub cursor: int,
    pub pos: Coord,
}

/// Decoding of one primitive of type `t` from `s`, from stream position
/// `cursor` and absolute position `pos`, with the steps `acc` gathered so far.
///
/// A point primitive ends after a move-to command and a line string after a
/// line-to command; a polygon runs to the end of the stream. On an error the
/// cursor rests on the offending command word.
pub open spec fn decode(t: GeomType, s: Seq<u32>, cursor: int, pos: Coord, acc: Seq<Step>) -> Decoded
    decreases s.len() - cursor,
{
    if cursor < 0 || cursor >= s.len() {
        Decoded {
            error: if t == GeomType::Polygon {
                None
            } else {
                Some(DecodeError::Unterminated)
            },
            path: acc,
            cursor,
            pos,
        }
    } else {
        let op = s[cursor] % 8;
        let count = (s[cursor] / 8) as nat;
        if op == OP_MOVE_TO || op == OP_LINE_TO {
            if op == OP_LINE_TO && t == GeomType::Point {
                Decoded { error: Some(DecodeError::Forbidden), path: acc, cursor, pos }
            } else if cursor + 1 + 2 * count > s.len() {
                Decoded { error: Some(DecodeError::Truncated), path: acc, cursor, pos }
            } else {
                let path = acc + run(s, cursor + 1, pos, count, op);
                let reached = pos_after(s, cursor + 1, pos, count);
                let next = cursor + 1 + 2 * count;
                if (op == OP_MOVE_TO && t == GeomType::Point) || (op == OP_LINE_TO && t
                    == GeomType::LineString) {
                    Decoded { error: None, path, cursor: next, pos: reached }
                } else {
                    decode(t, s, next, reached, path)
                }
            }
        } else if op == OP_CLOSE {
            if t == GeomType::Polygon {
                decode(t, s, cursor + 1, pos, acc.push(Step::Close))
            } else {
                Decoded { error: Some(DecodeError::Forbidden), path: acc, cursor, pos }
            }
        } else {
            Decoded { error: Some(DecodeError::UnknownCommand), path: acc, cursor, pos }
        }
    }
}

/// A position that the decoder can hold at stream position `cursor`: each
/// coordinate is at most `cursor` largest steps beyond `MAX_START`, so that
/// the words that are left cannot take it out of the range of 64 bits.
pub open spec fn within_reach(p: Coord, cursor: int) -> bool {
    &&& -MAX_START - cursor * MAX_DELTA <= p.x <= MAX_START + cursor * MAX_DELTA
    &&& -MAX_START - cursor * MAX_DELTA <= p.y <= MAX_START + cursor * MAX_DELTA
}

/// Decodes one primitive of type `geometry_type` from `geometry`, starting at
/// `*cursor` with the absolute position `*gcursor`, and leaves both where
/// decoding stopped, so that the next primitive of the feature continues from
/// there.
pub fn parse_one_to_path(
    geometry_type: GeomType,
    geometry: &Vec<u32>,
    cursor: &mut usize,
    gcursor: &mut Point,
) -> (r: Result<Path, DecodeError>)
    requires
        geometry.len() <= MAX_STREAM,
        within_reach(old(gcursor)@, *old(cursor) as int),
    ensures
        ({
            let d = decode(
                geometry_type,
                geometry@,
                *old(cursor) as int,
                old(gcursor)@,
                Seq::empty(),
            );
            &&& *final(cursor) == d.cursor
            &&& final(gcursor)@ == d.pos
            &&& *old(cursor) <= geometry.len() ==> *final(cursor) <= geometry.len()
            &&& within_reach(final(gcursor)@, *final(cursor) as int)
            &&& match r {
                Ok(p) => d.error is None && p@ == d.path,
                Err(e) => d.error == Some(e),
            }
        }),
{
    let ghost goal = decode(
        geometry_type,
        geometry@,
        *old(cursor) as int,
        old(gcursor)@,
        Seq::empty(),
    );
    let n: usize = geometry.len();
    let mut cur: usize = *cursor;
    let mut pos: Point = *gcursor;
    let mut segs: Vec<Segment> = Vec::new();
    assert(steps(segs@) =~= Seq::empty());
    if cur > n {
        return if geometry_type == GeomType::Polygon {
            Ok(Path { segments: segs })
        } else {
            Err(DecodeError::Unterminated)
        };
    }
    while cur < n
        invariant
            n == geometry.len(),
            n <= MAX_STREAM,
            cur <= n,
            within_reach(pos@, cur as int),
            goal == decode(
                geometry_type,
                geometry@,
                *old(cursor) as int,
                old(gcursor)@,
                Seq::empty(),
            ),
            goal == decode(geometry_type, geometry@, cur as int, pos@, steps(segs@)),
        decreases n - cur,
    {
        let word: u32 = geometry[cur];
        let op: u32 = word % 8;
        let count: u32 = word / 8;
        if op == OP_MOVE_TO || op == OP_LINE_TO {
            if op == OP_LINE_TO && geometry_type == GeomType::Point {
                *cursor = cur;
                *gcursor = pos;
                return Err(DecodeError::Forbidden);
            }
            if 2 * (count as u64) > (n - cur - 1) as u64 {
                *cursor = cur;
                *gcursor = pos;
                return Err(DecodeError::Truncated);
            }
            let ghost acc = steps(segs@);
            let ghost origin = pos@;
            let start: usize = cur + 1;
            let mut i: u32 = 0;
            cur = start;
            while i < count
                invariant
                    n == geometry.len(),
                    n <= MAX_STREAM,
                    i <= count,
                    start + 2 * count <= n,
                    cur == start + 2 * i,
                    op == OP_MOVE_TO || op == OP_LINE_TO,
                    pos@ == pos_after(geometry@, start as int, origin, i as nat),
                    within_reach(pos@, cur as int),
                    steps(segs@) == acc + run(geometry@, start as int, origin, i as nat, op),
                decreases count - i,
            {
                let dx: i32 = zigzag_decode(geometry[cur]);
                let dy: i32 = zigzag_decode(geometry[cur + 1]);
                let ghost before = segs@;
                pos = Point { x: pos.x + dx as i64, y: pos.y + dy as i64 };
                if op == OP_MOVE_TO {
                    segs.push(Segment::MoveTo(pos));
                } else {
                    segs.push(Segment::LineTo(pos));
                }
                cur = cur + 2;
                i = i + 1;
                assert(steps(segs@) =~= steps(before).push(step_to(op, pos@)));
                assert(acc + run(geometry@, start as int, origin, i as nat, op) =~= (acc + run(
                    geometry@,
                    start as int,
                    origin,
                    (i - 1) as nat,
                    op,
                )).push(step_to(op, pos@)));
            }
            if (op == OP_MOVE_TO && geometry_type == GeomType::Point) || (op == OP_LINE_TO
                && geometry_type == GeomType::LineString) {
                *cursor = cur;
                *gcursor = pos;
                return Ok(Path { segments: segs });
            }
        } else if op == OP_CLOSE {
            if geometry_type != GeomType::Polygon {
                *cursor = cur;
                *gcursor = pos;
                return Err(DecodeError::Forbidden);
            }
            let ghost before = segs@;
            segs.push(Segment::Close);
            assert(steps(segs@) =~= steps(before).push(Step::Close));
            cur = cur + 1;
        } else {
            *cursor = cur;
            *gcursor = pos;
            return Err(DecodeError::UnknownCommand);
        }
    }
    *cursor = cur;
    *gcursor = pos;
    if geometry_type == GeomType::Polygon {
        Ok(Path { segments: segs })
    } else {
        Err(DecodeError::Unterminated)
    }
}

/// Decoding never moves the cursor backwards, nor past the end of the stream.
pub proof fn lemma_decode_monotone(t: GeomType, s: Seq<u32>, cursor: int, pos: Coord, acc: Seq<Step>)
    ensures
        decode(t, s, cursor, pos, acc).cursor >= cursor,
        cursor <= s.len() ==> decode(t, s, cursor, pos, acc).cursor <= s.len(),
    decreases s.len() - cursor,
{
    if 0 <= cursor < s.len() {
        let op = s[cursor] % 8;
        let count = (s[cursor] / 8) as nat;
        if op == OP_MOVE_TO || op == OP_LINE_TO {
            if !(op == OP_LINE_TO && t == GeomType::Point) && cursor + 1 + 2 * count <= s.len() {
                lemma_decode_monotone(
                    t,
                    s,
                    cursor + 1 + 2 * count,
                    pos_after(s, cursor + 1, pos, count),
                    acc + run(s, cursor + 1, pos, count, op),
                );
            }
        } else if op == OP_CLOSE && t == GeomType::Polygon {
            lemma_decode_monotone(t, s, cursor + 1, pos, acc.push(Step::Close));
        }
    }
}

/// A primitive that decodes from inside the stream consumes at least one
/// word.
pub proof fn lemma_decode_advances(t: GeomType, s: Seq<u32>, cursor: int, pos: Coord, acc: Seq<Step>)
    requires
        0 <= cursor < s.len(),
        decode(t, s, cursor, pos, acc).error is None,
    ensures
        cursor < decode(t, s, cursor, pos, acc).cursor <= s.len(),
{
    let op = s[cursor] % 8;
    let count = (s[cursor] / 8) as nat;
    lemma_decode_monotone(t, s, cursor, pos, acc);
    if op == OP_MOVE_TO || op == OP_LINE_TO {
        lemma_decode_monotone(
            t,
            s,
            cursor + 1 + 2 * count,
            pos_after(s, cursor + 1, pos, count),
            acc + run(s, cursor + 1, pos, count, op),
        );
    } else {
        lemma_decode_monotone(t, s, cursor + 1, pos, acc.push(Step::Close));
    }
}

/// The paths of a whole feature: the primitives decoded one after another,
/// each continuing at the stream position and the absolute position where
/// the one before it ended, until the stream is used up. Only polygons and
/// line strings yield paths. The first primitive that fails gives the error.
pub open spec fn decode_all(
    t: GeomType,
    s: Seq<u32>,
    cursor: int,
    pos: Coord,
    acc: Seq<Seq<Step>>,
) -> Result<Seq<Seq<Step>>, DecodeError>
    decreases s.len() - cursor,
{
    if t != GeomType::Polygon && t != GeomType::LineString {
        Ok(acc)
    } else if cursor < 0 || cursor >= s.len() {
        Ok(acc)
    } else {
        let d = decode(t, s, cursor, pos, Seq::empty());
        match d.error {
            Some(e) => Err(e),
            None => {
                proof {
                    lemma_decode_advances(t, s, cursor, pos, Seq::empty());
                }
                decode_all(t, s, d.cursor, d.pos, acc.push(d.path))
            },
        }
    }
}

/// Decodes the command stream of one feature into its paths, in order: one
/// path per line string, and for a polygon one path that holds all its
/// rings. Point features yield no path.
pub fn geometry_commands_to_drawable(geometry_type: GeomType, geometry: &Vec<u32>) -> (r: Result<
    Vec<Path>,
    DecodeError,
>)
    requires
        geometry.len() <= MAX_STREAM,
    ensures
        match r {
            Ok(paths) => decode_all(
                geometry_type,
                geometry@,
                0,
                Coord { x: 0, y: 0 },
                Seq::empty(),
            ) == Ok::<Seq<Seq<Step>>, DecodeError>(path_views(paths@)),
            Err(e) => decode_all(geometry_type, geometry@, 0, Coord { x: 0, y: 0 }, Seq::empty())
                == Err::<Seq<Seq<Step>>, DecodeError>(e),
        },
{
    let mut paths: Vec<Path> = Vec::new();
    let mut cursor: usize = 0;
    let mut c = Point { x: 0, y: 0 };
    let ghost goal = decode_all(geometry_type, geometry@, 0, Coord { x: 0, y: 0 }, Seq::empty());
    assert(path_views(paths@) =~= Seq::empty());
    if geometry_type == GeomType::Polygon || geometry_type == GeomType::LineString {
        while cursor < geometry.len()
            invariant
                geometry.len() <= MAX_STREAM,
                cursor <= geometry.len(),
                within_reach(c@, cursor as int),
                geometry_type == GeomType::Polygon || geometry_type == GeomType::LineString,
                goal == decode_all(
                    geometry_type,
                    geometry@,
                    0,
                    Coord { x: 0, y: 0 },
                    Seq::empty(),
                ),
                goal == decode_all(
                    geometry_type,
                    geometry@,
                    cursor as int,
                    c@,
                    path_views(paths@),
                ),
            decreases geometry.len() - cursor,
        {
            let ghost before = paths@;
            let ghost start = cursor as int;
            let ghost from = c@;
            match parse_one_to_path(geometry_type, geometry, &mut cursor, &mut c) {
                Ok(path) => {
                    proof {
                        lemma_decode_advances(geometry_type, geometry@, start, from, Seq::empty());
                    }
                    paths.push(path);
                    assert(path_views(paths@) =~= path_views(before).push(path@));
                },
                Err(e) => {
                    return Err(e);
                },
            }
        }
    }
    Ok(paths)
}

} // verus!
