use maptiles::paint::draw_plan;
use maptiles::paint::sort_by_zorder;
use maptiles::paint::DrawCall;
use maptiles::paint::FeatureStyle;
use maptiles::paint::StyledFeature;
use maptiles::tile::DrawableTile;
use maptiles::tile::IndexRange;
use maptiles::tile::TileId;

fn style(z_order: i64, alpha: bool, visible: bool, outline: bool) -> FeatureStyle {
    FeatureStyle { z_order, alpha, visible, outline }
}

fn span(start: u32, end: u32) -> IndexRange {
    IndexRange { start, end }
}

#[test]
fn features_are_sorted_by_ascending_z_order() {
    let v: Vec<StyledFeature> = vec![
        StyledFeature { id: 1, range: span(0, 3), style: style(5, false, true, false) },
        StyledFeature { id: 2, range: span(3, 6), style: style(-1, false, true, false) },
        StyledFeature { id: 3, range: span(6, 9), style: style(5, true, true, false) },
        StyledFeature { id: 4, range: span(9, 12), style: style(2, false, true, false) },
    ];
    let ids: Vec<u32> = sort_by_zorder(&v).iter().map(|f| f.id).collect();
    assert_eq!(ids, vec![2, 4, 1, 3]);
}

#[test]
fn plan_draws_opaque_first_then_blended() {
    let order: Vec<StyledFeature> = vec![
        StyledFeature { id: 1, range: span(0, 3), style: style(0, true, true, false) },
        StyledFeature { id: 2, range: span(3, 6), style: style(1, false, true, true) },
        StyledFeature { id: 3, range: span(6, 6), style: style(2, false, true, false) },
        StyledFeature { id: 4, range: span(6, 9), style: style(3, false, false, false) },
        StyledFeature { id: 5, range: span(9, 12), style: style(4, false, true, false) },
        StyledFeature { id: 6, range: span(12, 15), style: style(5, true, true, true) },
    ];
    let plan = draw_plan(&order, 3);
    let expected: Vec<DrawCall> = vec![
        DrawCall { blend: false, stencil: 0, range: span(3, 6), instance: 7 },
        DrawCall { blend: false, stencil: 0, range: span(3, 6), instance: 6 },
        DrawCall { blend: false, stencil: 1, range: span(9, 12), instance: 7 },
        DrawCall { blend: true, stencil: 0, range: span(0, 3), instance: 7 },
        DrawCall { blend: true, stencil: 1, range: span(12, 15), instance: 7 },
        DrawCall { blend: true, stencil: 1, range: span(12, 15), instance: 6 },
    ];
    assert_eq!(plan, expected);
}

#[test]
fn tile_paint_orders_by_z_order() {
    let mut tile = DrawableTile {
        tile_id: TileId::new(1, 0, 0),
        index_count: 9,
        features: vec![(10, span(0, 3)), (11, span(3, 6)), (12, span(6, 9))],
        extent: 4096,
    };
    let styles: Vec<FeatureStyle> =
        vec![style(9, false, true, false), style(1, false, true, false), style(4, true, true, false)];
    let plan = tile.paint(&styles, 0);
    let expected: Vec<DrawCall> = vec![
        DrawCall { blend: false, stencil: 0, range: span(3, 6), instance: 1 },
        DrawCall { blend: false, stencil: 1, range: span(0, 3), instance: 1 },
        DrawCall { blend: true, stencil: 0, range: span(6, 9), instance: 1 },
    ];
    assert_eq!(plan, expected);
    assert_eq!(tile.features, vec![(11, span(3, 6)), (12, span(6, 9)), (10, span(0, 3))]);
    assert_eq!(tile.index_count, 9);
}

#[test]
fn empty_tile_has_an_empty_plan() {
    let order: Vec<StyledFeature> = vec![];
    assert!(draw_plan(&order, 1).is_empty());
}

#[test]
fn features_of_equal_z_order_keep_their_order() {
    let v: Vec<StyledFeature> = vec![
        StyledFeature { id: 1, range: span(0, 3), style: style(2, false, true, false) },
        StyledFeature { id: 2, range: span(3, 6), style: style(1, false, true, false) },
        StyledFeature { id: 3, range: span(6, 9), style: style(2, true, true, false) },
        StyledFeature { id: 4, range: span(9, 12), style: style(1, true, true, false) },
        StyledFeature { id: 5, range: span(12, 15), style: style(2, false, false, false) },
    ];
    let ids: Vec<u32> = sort_by_zorder(&v).iter().map(|f| f.id).collect();
    assert_eq!(ids, vec![2, 4, 1, 3, 5]);
}

#[test]
fn instance_of_the_last_tile_wraps_in_32_bits() {
    let order: Vec<StyledFeature> =
        vec![StyledFeature { id: 1, range: span(0, 3), style: style(0, false, true, true) }];
    let plan = draw_plan(&order, 2147483649);
    let expected: Vec<DrawCall> = vec![
        DrawCall { blend: false, stencil: 0, range: span(0, 3), instance: 3 },
        DrawCall { blend: false, stencil: 0, range: span(0, 3), instance: 2 },
    ];
    assert_eq!(plan, expected);
}
