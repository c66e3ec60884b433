use maptiles::geometry::geometry_commands_to_drawable;
use maptiles::geometry::parse_one_to_path;
use maptiles::geometry::DecodeError;
use maptiles::geometry::GeomType;
use maptiles::geometry::Point;
use maptiles::geometry::Segment;

fn gp(x: i64, y: i64) -> Point {
    Point { x, y }
}

fn decode_one(t: GeomType, stream: Vec<u32>) -> (Result<Vec<Segment>, DecodeError>, usize, Point) {
    let mut cursor: usize = 0;
    let mut pos: Point = gp(0, 0);
    let r = parse_one_to_path(t, &stream, &mut cursor, &mut pos);
    (r.map(|p| p.segments), cursor, pos)
}

#[test]
fn polygon_stream_decodes_to_one_closed_ring() {
    let stream: Vec<u32> = vec![9, 0, 0, 26, 10, 10, 10, 0, 0, 10, 15];
    let (r, cursor, pos) = decode_one(GeomType::Polygon, stream);
    let expected: Vec<Segment> = vec![
        Segment::MoveTo(gp(0, 0)),
        Segment::LineTo(gp(5, 5)),
        Segment::LineTo(gp(10, 5)),
        Segment::LineTo(gp(10, 10)),
        Segment::Close,
    ];
    assert_eq!(r, Ok(expected));
    assert_eq!(cursor, 11);
    assert_eq!(pos, gp(10, 10));
}

#[test]
fn zigzag_words_decode_to_signed_deltas() {
    let (r, _, pos) = decode_one(GeomType::Point, vec![9, 3, 4]);
    assert_eq!(r, Ok(vec![Segment::MoveTo(gp(-2, 2))]));
    assert_eq!(pos, gp(-2, 2));
    let (r, _, _) = decode_one(GeomType::Point, vec![9, 1, 0]);
    assert_eq!(r, Ok(vec![Segment::MoveTo(gp(-1, 0))]));
    let (r, _, _) = decode_one(GeomType::Point, vec![9, 4294967295, 4294967294]);
    assert_eq!(r, Ok(vec![Segment::MoveTo(gp(-2147483648, 2147483647))]));
}

#[test]
fn encoded_ring_round_trips() {
    // (3,4) -> (13,4) -> (13,-6), drawn from (1,1)
    let stream: Vec<u32> = vec![9, 4, 6, 18, 20, 0, 0, 19, 15];
    let mut cursor: usize = 0;
    let mut pos: Point = gp(1, 1);
    let r = parse_one_to_path(GeomType::Polygon, &stream, &mut cursor, &mut pos);
    let expected: Vec<Segment> = vec![
        Segment::MoveTo(gp(3, 4)),
        Segment::LineTo(gp(13, 4)),
        Segment::LineTo(gp(13, -6)),
        Segment::Close,
    ];
    assert_eq!(r.map(|p| p.segments), Ok(expected));
    assert_eq!(cursor, 9);
    assert_eq!(pos, gp(13, -6));
}

#[test]
fn point_returns_after_move_to() {
    let (r, cursor, _) = decode_one(GeomType::Point, vec![17, 2, 2, 4, 4, 9, 0, 0]);
    assert_eq!(r, Ok(vec![Segment::MoveTo(gp(1, 1)), Segment::MoveTo(gp(3, 3))]));
    assert_eq!(cursor, 5);
}

#[test]
fn line_string_returns_after_line_to() {
    let stream: Vec<u32> = vec![9, 2, 2, 10, 4, 0, 9, 2, 2, 10, 0, 4];
    let mut cursor: usize = 0;
    let mut pos: Point = gp(0, 0);
    let first = parse_one_to_path(GeomType::LineString, &stream, &mut cursor, &mut pos);
    assert_eq!(
        first.map(|p| p.segments),
        Ok(vec![Segment::MoveTo(gp(1, 1)), Segment::LineTo(gp(3, 1))])
    );
    assert_eq!(cursor, 6);
    assert_eq!(pos, gp(3, 1));
    let second = parse_one_to_path(GeomType::LineString, &stream, &mut cursor, &mut pos);
    assert_eq!(
        second.map(|p| p.segments),
        Ok(vec![Segment::MoveTo(gp(4, 2)), Segment::LineTo(gp(4, 4))])
    );
    assert_eq!(cursor, 12);
    assert_eq!(pos, gp(4, 4));
}

#[test]
fn unknown_command_is_an_error() {
    let (r, cursor, _) = decode_one(GeomType::Polygon, vec![9, 0, 0, 3]);
    assert_eq!(r, Err(DecodeError::UnknownCommand));
    assert_eq!(cursor, 3);
    let (r, _, _) = decode_one(GeomType::Polygon, vec![0]);
    assert_eq!(r, Err(DecodeError::UnknownCommand));
}

#[test]
fn close_outside_polygon_is_forbidden() {
    let (r, _, _) = decode_one(GeomType::Point, vec![15]);
    assert_eq!(r, Err(DecodeError::Forbidden));
    let (r, _, _) = decode_one(GeomType::LineString, vec![15]);
    assert_eq!(r, Err(DecodeError::Forbidden));
    let (r, _, _) = decode_one(GeomType::Unknown, vec![15]);
    assert_eq!(r, Err(DecodeError::Forbidden));
}

#[test]
fn line_to_in_point_is_forbidden() {
    let (r, cursor, pos) = decode_one(GeomType::Point, vec![10, 2, 2]);
    assert_eq!(r, Err(DecodeError::Forbidden));
    assert_eq!(cursor, 0);
    assert_eq!(pos, gp(0, 0));
}

#[test]
fn short_stream_is_truncated() {
    let (r, cursor, _) = decode_one(GeomType::Polygon, vec![9, 0]);
    assert_eq!(r, Err(DecodeError::Truncated));
    assert_eq!(cursor, 0);
    let (r, _, _) = decode_one(GeomType::LineString, vec![9, 0, 0, 18, 2, 2, 2]);
    assert_eq!(r, Err(DecodeError::Truncated));
}

#[test]
fn unfinished_primitive_is_unterminated() {
    let (r, _, _) = decode_one(GeomType::LineString, vec![9, 0, 0]);
    assert_eq!(r, Err(DecodeError::Unterminated));
    let (r, _, _) = decode_one(GeomType::Point, vec![]);
    assert_eq!(r, Err(DecodeError::Unterminated));
    let (r, _, _) = decode_one(GeomType::Unknown, vec![9, 0, 0]);
    assert_eq!(r, Err(DecodeError::Unterminated));
}

#[test]
fn empty_polygon_stream_gives_empty_path() {
    let (r, cursor, _) = decode_one(GeomType::Polygon, vec![]);
    assert_eq!(r, Ok(vec![]));
    assert_eq!(cursor, 0);
}

#[test]
fn feature_with_two_line_strings() {
    let stream: Vec<u32> = vec![9, 2, 2, 10, 4, 0, 9, 2, 2, 10, 0, 4];
    let paths = geometry_commands_to_drawable(GeomType::LineString, &stream).unwrap();
    assert_eq!(paths.len(), 2);
    assert_eq!(paths[0].segments, vec![Segment::MoveTo(gp(1, 1)), Segment::LineTo(gp(3, 1))]);
    assert_eq!(paths[1].segments, vec![Segment::MoveTo(gp(4, 2)), Segment::LineTo(gp(4, 4))]);
}

#[test]
fn polygon_feature_holds_all_rings_in_one_path() {
    let stream: Vec<u32> = vec![9, 0, 0, 18, 8, 0, 0, 8, 15, 9, 3, 3, 18, 0, 4, 4, 0, 15];
    let paths = geometry_commands_to_drawable(GeomType::Polygon, &stream).unwrap();
    assert_eq!(paths.len(), 1);
    let expected: Vec<Segment> = vec![
        Segment::MoveTo(gp(0, 0)),
        Segment::LineTo(gp(4, 0)),
        Segment::LineTo(gp(4, 4)),
        Segment::Close,
        Segment::MoveTo(gp(2, 2)),
        Segment::LineTo(gp(2, 4)),
        Segment::LineTo(gp(4, 4)),
        Segment::Close,
    ];
    assert_eq!(paths[0].segments, expected);
}

#[test]
fn point_feature_yields_no_path() {
    let stream: Vec<u32> = vec![9, 2, 2];
    let paths = geometry_commands_to_drawable(GeomType::Point, &stream).unwrap();
    assert!(paths.is_empty());
    let paths = geometry_commands_to_drawable(GeomType::Polygon, &vec![]).unwrap();
    assert!(paths.is_empty());
}

#[test]
fn feature_decoding_reports_the_first_error() {
    let stream: Vec<u32> = vec![9, 2, 2, 10, 4, 0, 15];
    let r = geometry_commands_to_drawable(GeomType::LineString, &stream);
    assert_eq!(r.map(|v| v.len()), Err(DecodeError::Forbidden));
}
