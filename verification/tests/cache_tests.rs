use maptiles::cache::contains_id;
use maptiles::cache::TileCache;
use maptiles::tile::DrawableTile;
use maptiles::tile::IndexRange;
use maptiles::tile::Layer;
use maptiles::tile::Tile;
use maptiles::tile::TileId;

fn tid(z: u32, x: u32, y: u32) -> TileId {
    TileId::new(z, x, y)
}

fn drawable(id: TileId) -> DrawableTile {
    DrawableTile { tile_id: id, index_count: 6, features: vec![], extent: 4096 }
}

fn cache_with(ids: &[TileId]) -> TileCache {
    let mut c = TileCache::new();
    for id in ids {
        let all: Vec<TileId> = vec![*id];
        assert!(c.install(drawable(*id), &all));
    }
    c
}

#[test]
fn parent_is_evicted_when_all_four_siblings_are_resident() {
    let required: Vec<TileId> = vec![tid(5, 4, 6), tid(5, 5, 6), tid(5, 4, 7), tid(5, 5, 7)];
    let mut c = TileCache::new();
    let prev: Vec<TileId> = vec![tid(4, 2, 3)];
    assert!(c.install(drawable(tid(4, 2, 3)), &prev));
    assert!(c.install(drawable(tid(5, 4, 6)), &required));
    assert!(c.install(drawable(tid(5, 5, 6)), &required));
    assert!(c.install(drawable(tid(5, 4, 7)), &required));
    assert!(c.contains(tid(4, 2, 3)));
    assert!(c.install(drawable(tid(5, 5, 7)), &required));
    assert!(!c.contains(tid(4, 2, 3)));
    assert_eq!(c.len(), 4);
}

#[test]
fn parent_remains_with_three_of_four_siblings() {
    let required: Vec<TileId> = vec![tid(5, 4, 6), tid(5, 5, 6), tid(5, 4, 7), tid(5, 5, 7)];
    let mut c = cache_with(&[tid(4, 2, 3)]);
    assert!(c.install(drawable(tid(5, 4, 6)), &required));
    assert!(c.install(drawable(tid(5, 5, 6)), &required));
    assert!(c.install(drawable(tid(5, 5, 7)), &required));
    assert!(c.contains(tid(4, 2, 3)));
    assert_eq!(c.len(), 4);
    assert_eq!(c.missing(&required), vec![tid(5, 4, 7)]);
}

#[test]
fn siblings_outside_the_required_set_count_as_satisfied() {
    let required: Vec<TileId> = vec![tid(5, 4, 6), tid(5, 5, 6)];
    let mut c = cache_with(&[tid(4, 2, 3)]);
    assert!(c.install(drawable(tid(5, 4, 6)), &required));
    assert!(c.contains(tid(4, 2, 3)));
    assert!(c.install(drawable(tid(5, 5, 6)), &required));
    assert!(!c.contains(tid(4, 2, 3)));
}

#[test]
fn children_are_evicted_when_their_parent_arrives() {
    let mut c = cache_with(&[tid(6, 8, 12), tid(6, 9, 13), tid(6, 10, 12)]);
    let required: Vec<TileId> = vec![tid(5, 4, 6)];
    assert!(c.install(drawable(tid(5, 4, 6)), &required));
    assert!(!c.contains(tid(6, 8, 12)));
    assert!(!c.contains(tid(6, 9, 13)));
    assert!(c.contains(tid(6, 10, 12)));
    assert!(c.contains(tid(5, 4, 6)));
}

#[test]
fn tile_that_is_no_longer_required_is_dropped() {
    let mut c = cache_with(&[tid(5, 1, 1)]);
    let required: Vec<TileId> = vec![tid(5, 1, 1)];
    assert!(!c.install(drawable(tid(5, 2, 2)), &required));
    assert!(!c.contains(tid(5, 2, 2)));
    assert_eq!(c.keys(), vec![tid(5, 1, 1)]);
}

#[test]
fn refetched_tile_replaces_the_old_entry() {
    let mut c = cache_with(&[tid(5, 1, 1)]);
    let required: Vec<TileId> = vec![tid(5, 1, 1)];
    let fresh = DrawableTile { tile_id: tid(5, 1, 1), index_count: 99, features: vec![], extent: 512 };
    assert!(c.install(fresh, &required));
    assert_eq!(c.len(), 1);
    assert_eq!(c.try_get_tile(tid(5, 1, 1)).map(|t| t.index_count), Some(99));
}

#[test]
fn stale_tiles_leave_and_coverage_holds() {
    let mut c = cache_with(&[tid(4, 3, 3), tid(4, 7, 7), tid(9, 3, 3), tid(5, 1, 1), tid(5, 9, 9)]);
    assert_eq!(c.len(), 5);
    let required: Vec<TileId> = vec![tid(5, 1, 1), tid(5, 1, 2), tid(4, 7, 7)];
    let required_prev: Vec<TileId> = vec![tid(4, 3, 3), tid(5, 9, 9)];
    c.evict_stale(5, &required, &required_prev);
    assert_eq!(c.keys(), vec![tid(4, 3, 3), tid(5, 1, 1)]);
    for k in c.keys() {
        assert!(contains_id(&required, k) || contains_id(&required_prev, k));
    }
    assert_eq!(c.missing(&required), vec![tid(5, 1, 2), tid(4, 7, 7)]);
}

#[test]
fn at_zoom_zero_only_the_required_set_counts() {
    let mut c = cache_with(&[tid(0, 0, 0), tid(2, 0, 0)]);
    assert_eq!(c.len(), 2);
    let required: Vec<TileId> = vec![tid(0, 0, 0)];
    let required_prev: Vec<TileId> = vec![tid(2, 0, 0)];
    c.evict_stale(0, &required, &required_prev);
    assert_eq!(c.keys(), vec![tid(0, 0, 0)]);
}

#[test]
fn after_a_cycle_every_required_tile_is_resident_or_missing() {
    let mut c = cache_with(&[tid(2, 0, 0), tid(7, 1, 1)]);
    let required: Vec<TileId> = vec![tid(3, 0, 0), tid(3, 1, 0), tid(3, 0, 1), tid(3, 1, 1)];
    let required_prev: Vec<TileId> = vec![tid(2, 0, 0)];
    assert!(c.install(drawable(tid(3, 0, 0)), &required));
    assert_eq!(c.len(), 3);
    c.evict_stale(3, &required, &required_prev);
    let to_fetch = c.missing(&required);
    assert_eq!(to_fetch, vec![tid(3, 1, 0), tid(3, 0, 1), tid(3, 1, 1)]);
    assert!(c.install(drawable(tid(3, 1, 0)), &required));
    let pending = c.missing(&required);
    for id in &required {
        assert!(c.contains(*id) || contains_id(&pending, *id));
    }
    for k in c.keys() {
        assert!(contains_id(&required, k) || contains_id(&required_prev, k));
    }
    assert!(c.contains(tid(2, 0, 0)));
}

#[test]
fn remove_takes_one_tile_out() {
    let mut c = cache_with(&[tid(1, 0, 0), tid(1, 1, 0), tid(1, 1, 1)]);
    assert!(c.remove(tid(1, 1, 0)));
    assert!(!c.remove(tid(1, 1, 0)));
    assert_eq!(c.keys(), vec![tid(1, 0, 0), tid(1, 1, 1)]);
    assert!(c.try_get_tile(tid(1, 1, 0)).is_none());
}

#[test]
fn tile_id_relations() {
    assert_eq!(tid(5, 5, 7).parent(), Some(tid(4, 2, 3)));
    assert_eq!(tid(0, 0, 0).parent(), None);
    assert_eq!(tid(5, 5, 7).quad(), [tid(5, 4, 6), tid(5, 5, 6), tid(5, 4, 7), tid(5, 5, 7)]);
    assert_eq!(
        tid(4, 2, 3).children(),
        vec![tid(5, 4, 6), tid(5, 5, 6), tid(5, 4, 7), tid(5, 5, 7)]
    );
    assert!(tid(4294967295, 0, 0).children().is_empty());
    assert!(tid(3, 2147483648, 0).children().is_empty());
    assert!(tid(1, 0, 9) < tid(1, 1, 0));
    assert!(tid(1, 9, 9) < tid(2, 0, 0));
}

#[test]
fn drawable_tile_gathers_the_features_of_all_layers() {
    let a = Layer {
        name: String::from("water"),
        id: 1,
        indices_range: IndexRange { start: 0, end: 9 },
        features: vec![(7, IndexRange { start: 0, end: 6 }), (8, IndexRange { start: 6, end: 9 })],
    };
    let b = Layer {
        name: String::from("roads"),
        id: 2,
        indices_range: IndexRange { start: 9, end: 12 },
        features: vec![(3, IndexRange { start: 9, end: 12 })],
    };
    let tile = Tile { extent: 4096, layers: vec![a, b], index_count: 12 };
    let d = DrawableTile::load_from_tile_id(tid(3, 1, 2), &tile);
    assert_eq!(d.tile_id, tid(3, 1, 2));
    assert_eq!(d.index_count, 12);
    assert_eq!(d.extent, 4096);
    assert_eq!(
        d.features,
        vec![
            (7, IndexRange { start: 0, end: 6 }),
            (8, IndexRange { start: 6, end: 9 }),
            (3, IndexRange { start: 9, end: 12 })
        ]
    );
    assert_eq!(IndexRange { start: 6, end: 9 }.len(), 3);
    assert_eq!(IndexRange { start: 9, end: 6 }.len(), 0);
}

#[test]
fn update_cycle_evicts_installs_and_reports_what_to_fetch() {
    let mut c = cache_with(&[tid(4, 2, 3), tid(4, 9, 9), tid(8, 1, 1)]);
    let required: Vec<TileId> = vec![tid(5, 4, 6), tid(5, 5, 6), tid(5, 4, 7), tid(5, 5, 7)];
    let required_prev: Vec<TileId> = vec![tid(4, 2, 3)];
    let arrived: Vec<DrawableTile> =
        vec![drawable(tid(5, 4, 6)), drawable(tid(5, 9, 9)), drawable(tid(5, 5, 7))];
    let to_fetch = c.update(5, &required, &required_prev, arrived);
    assert_eq!(to_fetch, vec![tid(5, 5, 6), tid(5, 4, 7)]);
    assert_eq!(c.keys(), vec![tid(4, 2, 3), tid(5, 4, 6), tid(5, 5, 7)]);
    let rest: Vec<DrawableTile> = vec![drawable(tid(5, 5, 6)), drawable(tid(5, 4, 7))];
    let to_fetch = c.update(5, &required, &required_prev, rest);
    assert!(to_fetch.is_empty());
    assert_eq!(c.keys(), vec![tid(5, 4, 6), tid(5, 5, 7), tid(5, 5, 6), tid(5, 4, 7)]);
    assert!(!c.contains(tid(4, 2, 3)));
}

#[test]
fn feature_ranges_are_checked_against_the_index_count() {
    let good = DrawableTile {
        tile_id: tid(1, 0, 0),
        index_count: 12,
        features: vec![(1, IndexRange { start: 0, end: 6 }), (2, IndexRange { start: 6, end: 12 })],
        extent: 4096,
    };
    assert!(good.ranges_in_bounds());
    let beyond = DrawableTile {
        tile_id: tid(1, 0, 0),
        index_count: 12,
        features: vec![(1, IndexRange { start: 0, end: 13 })],
        extent: 4096,
    };
    assert!(!beyond.ranges_in_bounds());
    let backwards = DrawableTile {
        tile_id: tid(1, 0, 0),
        index_count: 12,
        features: vec![(1, IndexRange { start: 7, end: 6 })],
        extent: 4096,
    };
    assert!(!backwards.ranges_in_bounds());
}
