use tileworld::map::{build_map, MapError, TriggerDef, WorldMap};
use tileworld::world::World;

fn small_map() -> WorldMap {
    build_map(
        3,
        2,
        vec![vec![0, 5, 0, 0, 0, 9]],
        vec![9],
        vec![TriggerDef { from_x: 2, from_y: 0, to_x: 0, to_y: 1 }],
        vec![(0, 0), (1, 1)],
    )
    .expect("map should build")
}

#[test]
fn vacancy_follows_layers_and_vacant_ids() {
    let m = small_map();
    // tile id 5 blocks; tile id 9 is in the vacant set; 0 never blocks
    assert_eq!(m.vacants, vec![true, false, true, true, true, true]);
}

#[test]
fn vacancy_is_the_conjunction_over_layers() {
    let m = build_map(
        2,
        1,
        vec![vec![0, 3], vec![3, 0]],
        Vec::new(),
        Vec::new(),
        vec![(0, 0)],
    )
    .expect("map should build");
    assert_eq!(m.vacants, vec![false, false]);
}

#[test]
fn triggers_land_on_their_tile_in_order() {
    let m = small_map();
    assert_eq!(m.triggers[2].len(), 1);
    assert_eq!((m.triggers[2][0].to_x, m.triggers[2][0].to_y), (0, 1));
    assert!(m.triggers[0].is_empty());
}

#[test]
fn tile_index_is_row_major() {
    let m = small_map();
    assert_eq!(m.tile_index(0, 0), 0);
    assert_eq!(m.tile_index(2, 0), 2);
    assert_eq!(m.tile_index(0, 1), 3);
    assert_eq!(m.tile_index(2, 1), 5);
}

#[test]
fn bad_dimensions_are_rejected() {
    let r = build_map(0, 5, Vec::new(), Vec::new(), Vec::new(), vec![(0, 0)]);
    assert_eq!(r.unwrap_err(), MapError::BadDims);
}

#[test]
fn short_layer_is_rejected() {
    let r = build_map(2, 2, vec![vec![0, 0, 0]], Vec::new(), Vec::new(), vec![(0, 0)]);
    assert_eq!(r.unwrap_err(), MapError::BadLayer);
}

#[test]
fn off_grid_trigger_is_rejected() {
    let r = build_map(
        2,
        2,
        vec![vec![0, 0, 0, 0]],
        Vec::new(),
        vec![TriggerDef { from_x: 0, from_y: 0, to_x: 5, to_y: 0 }],
        vec![(0, 0)],
    );
    assert_eq!(r.unwrap_err(), MapError::BadTrigger);
}

#[test]
fn missing_spawn_points_are_rejected() {
    let r = build_map(2, 2, vec![vec![0, 0, 0, 0]], Vec::new(), Vec::new(), Vec::new());
    assert_eq!(r.unwrap_err(), MapError::BadSpawn);
}

#[test]
fn off_grid_spawn_point_is_rejected() {
    let r = build_map(2, 2, vec![vec![0, 0, 0, 0]], Vec::new(), Vec::new(), vec![(2, 0)]);
    assert_eq!(r.unwrap_err(), MapError::BadSpawn);
}

#[test]
fn new_world_is_empty() {
    let w = World::new(small_map());
    assert_eq!(w.units.len(), 0);
    assert_eq!(w.conns.len(), 0);
    assert_eq!(w.last_unit_id, 0);
    assert_eq!(w.occupancy.len(), 6);
}

#[test]
fn ping_refreshes_liveness() {
    let mut w = World::new(small_map());
    w.register_conn(1, 0);
    w.register_conn(2, 0);
    w.touch_conn(1, 25_000);
    let stale = w.stale_conn_ids(30_000, 30_000);
    assert_eq!(stale, vec![2]);
}

#[test]
fn connections_below_timeout_are_not_stale() {
    let mut w = World::new(small_map());
    w.register_conn(1, 0);
    assert!(w.stale_conn_ids(29_999, 30_000).is_empty());
    assert_eq!(w.stale_conn_ids(30_000, 30_000), vec![1]);
}

#[test]
fn removing_a_connection_leaves_the_rest() {
    let mut w = World::new(small_map());
    w.register_conn(1, 0);
    w.register_conn(2, 0);
    w.remove_conn(1);
    assert_eq!(w.conns.len(), 1);
    assert_eq!(w.conns[0].conn_id, 2);
}
