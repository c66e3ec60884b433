use lyon::math::point;
use lyon::path::traits::SvgPathBuilder;
use lyon::path::Path as LyonPath;
use lyon::tessellation::BuffersBuilder;
use lyon::tessellation::FillOptions;
use lyon::tessellation::FillTessellator;
use lyon::tessellation::FillVertex;
use lyon::tessellation::VertexBuffers;
use maptiles::geometry::geometry_commands_to_drawable;
use maptiles::geometry::GeomType;
use maptiles::geometry::Point;
use maptiles::geometry::Segment;
use maptiles::tile::IndexRange;

fn fill_indices(segments: &Vec<Segment>) -> Vec<u32> {
    let mut builder = LyonPath::builder().with_svg();
    for segment in segments {
        match segment {
            Segment::MoveTo(p) => {
                builder.move_to(point(p.x as f32, p.y as f32));
            }
            Segment::LineTo(p) => {
                builder.line_to(point(p.x as f32, p.y as f32));
            }
            Segment::Close => builder.close(),
        }
    }
    let path = builder.build();
    let mut buffers: VertexBuffers<[f32; 2], u32> = VertexBuffers::new();
    let mut tessellator = FillTessellator::new();
    tessellator
        .tessellate_path(
            &path,
            &FillOptions::tolerance(0.0001),
            &mut BuffersBuilder::new(&mut buffers, |v: FillVertex| v.position().to_array()),
        )
        .unwrap();
    buffers.indices
}

#[test]
fn decoded_square_tessellates_into_two_triangles() {
    let stream: Vec<u32> = vec![9, 0, 0, 26, 20, 0, 0, 20, 19, 0, 15];
    let paths = geometry_commands_to_drawable(GeomType::Polygon, &stream).unwrap();
    assert_eq!(paths.len(), 1);
    let expected: Vec<Segment> = vec![
        Segment::MoveTo(Point { x: 0, y: 0 }),
        Segment::LineTo(Point { x: 10, y: 0 }),
        Segment::LineTo(Point { x: 10, y: 10 }),
        Segment::LineTo(Point { x: 0, y: 10 }),
        Segment::Close,
    ];
    assert_eq!(paths[0].segments, expected);
    let indices = fill_indices(&paths[0].segments);
    assert_eq!(indices.len(), 6);
    let range = IndexRange { start: 0, end: indices.len() as u32 };
    assert!(range.len() > 0);
}

#[test]
fn decoded_ring_of_four_points_gives_a_nonzero_index_range() {
    let stream: Vec<u32> = vec![9, 0, 0, 26, 10, 10, 10, 0, 0, 10, 15];
    let paths = geometry_commands_to_drawable(GeomType::Polygon, &stream).unwrap();
    assert_eq!(paths.len(), 1);
    assert_eq!(paths[0].segments.len(), 5);
    let indices = fill_indices(&paths[0].segments);
    let range = IndexRange { start: 0, end: indices.len() as u32 };
    assert!(range.len() > 0);
    assert_eq!(indices.len() % 3, 0);
}
