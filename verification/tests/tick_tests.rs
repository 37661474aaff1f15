use crypto::digest::Digest;
use crypto::sha1::Sha1;
use tileworld::commands::{handle_msg, ConnState, GlobalConfig};
use tileworld::map::{build_map, TriggerDef};
use tileworld::msg::{Effect, Msg};
use tileworld::world::World;

const UNIT_SPEED: i32 = 4;

fn tick_config() -> GlobalConfig {
    GlobalConfig {
        key: "secretkey".to_string(),
        default_img: "default.png".to_string(),
        privileged: vec!["admin".to_string()],
    }
}

fn strip_world(layer: Vec<i32>, defs: Vec<TriggerDef>) -> World {
    let width = layer.len() as i32;
    let map = build_map(width, 1, vec![layer], Vec::new(), defs, vec![(0, 0)])
        .expect("map should build");
    World::new(map)
}

fn sign(name: &str, key: &str) -> String {
    let mut hasher = Sha1::new();
    hasher.input_str(name);
    hasher.input_str(key);
    hasher.result_str()
}

fn spawn_at_origin(g: &GlobalConfig, world: &mut World, conn: &mut ConnState, name: &str) -> i32 {
    let mut m = Msg::bare("login".to_string());
    m.name = Some(name.to_string());
    m.signature = Some(sign(name, &g.key));
    handle_msg(g, world, conn, m, 0).expect("login should succeed");
    let effs = handle_msg(g, world, conn, Msg::bare("start".to_string()), 0)
        .expect("start should succeed");
    match &effs[0] {
        Effect::Send { msg, .. } => msg.id.expect("you carries the id"),
        other => panic!("first start effect should be a send: {:?}", other),
    }
}

fn set_speed(g: &GlobalConfig, world: &mut World, conn: &mut ConnState, id: i32, x: i32, y: i32) {
    let mut m = Msg::bare("speed".to_string());
    m.id = Some(id);
    m.x = Some(x);
    m.y = Some(y);
    handle_msg(g, world, conn, m, 0).expect("speed should be accepted");
}

#[test]
fn unit_moves_east_once_per_cooldown_regardless_of_tick_rate() {
    let g = tick_config();
    let mut world = strip_world(vec![0, 0, 0, 0, 0], Vec::new());
    let mut conn = ConnState::new(1);
    let id = spawn_at_origin(&g, &mut world, &mut conn, "alice");
    set_speed(&g, &mut world, &mut conn, id, 1, 0);

    let effs = world.tick(0, UNIT_SPEED);
    assert_eq!(effs.len(), 1);
    match &effs[0] {
        Effect::Broadcast { msg } => {
            assert_eq!(msg.cmd, "move");
            assert_eq!(msg.id, Some(id));
            assert_eq!((msg.x, msg.y), (Some(1), Some(0)));
            assert_eq!(msg.speed, Some(UNIT_SPEED));
        }
        other => panic!("a move should be broadcast: {:?}", other),
    }
    assert_eq!((world.units[0].x, world.units[0].y), (1, 0));

    // ticks inside the cooldown window never move the unit again
    for now in [10u64, 50, 100, 199] {
        let effs = world.tick(now, UNIT_SPEED);
        assert!(effs.is_empty(), "no move expected at {} ms", now);
        assert_eq!((world.units[0].x, world.units[0].y), (1, 0));
    }

    // once the cooldown has elapsed the next step happens
    let effs = world.tick(200, UNIT_SPEED);
    assert_eq!(effs.len(), 1);
    assert_eq!((world.units[0].x, world.units[0].y), (2, 0));
}

#[test]
fn unit_with_zero_speed_never_moves() {
    let g = tick_config();
    let mut world = strip_world(vec![0, 0, 0], Vec::new());
    let mut conn = ConnState::new(1);
    spawn_at_origin(&g, &mut world, &mut conn, "alice");
    for now in [0u64, 300, 1000] {
        assert!(world.tick(now, UNIT_SPEED).is_empty());
    }
    assert_eq!((world.units[0].x, world.units[0].y), (0, 0));
}

#[test]
fn warp_lands_unit_on_trigger_target_with_speed_zero() {
    let g = tick_config();
    let defs = vec![TriggerDef { from_x: 1, from_y: 0, to_x: 3, to_y: 0 }];
    let mut world = strip_world(vec![0, 0, 0, 0, 0], defs);
    let mut conn = ConnState::new(1);
    let id = spawn_at_origin(&g, &mut world, &mut conn, "alice");
    set_speed(&g, &mut world, &mut conn, id, 1, 0);
    let effs = world.tick(0, UNIT_SPEED);
    assert_eq!(effs.len(), 1);
    match &effs[0] {
        Effect::Broadcast { msg } => {
            assert_eq!(msg.cmd, "move");
            assert_eq!((msg.x, msg.y), (Some(3), Some(0)));
            assert_eq!(msg.speed, Some(0), "a warp reports speed 0");
        }
        other => panic!("a warp should be broadcast as a move: {:?}", other),
    }
    assert_eq!((world.units[0].x, world.units[0].y), (3, 0));
}

#[test]
fn last_registered_trigger_wins() {
    let g = tick_config();
    let defs = vec![
        TriggerDef { from_x: 1, from_y: 0, to_x: 2, to_y: 0 },
        TriggerDef { from_x: 1, from_y: 0, to_x: 4, to_y: 0 },
    ];
    let mut world = strip_world(vec![0, 0, 0, 0, 0], defs);
    let mut conn = ConnState::new(1);
    let id = spawn_at_origin(&g, &mut world, &mut conn, "alice");
    set_speed(&g, &mut world, &mut conn, id, 1, 0);
    world.tick(0, UNIT_SPEED);
    assert_eq!((world.units[0].x, world.units[0].y), (4, 0));
}

#[test]
fn movement_into_nonvacant_tile_is_blocked() {
    let g = tick_config();
    // tile 1 carries the nonzero tile id 7, so it is not vacant
    let mut world = strip_world(vec![0, 7, 0, 0, 0], Vec::new());
    let mut a = ConnState::new(1);
    let mut b = ConnState::new(2);
    let ida = spawn_at_origin(&g, &mut world, &mut a, "alice");
    // bob's unit is placed on the blocked tile by the privileged account
    let mut m = Msg::bare("login".to_string());
    m.name = Some("admin".to_string());
    m.signature = Some(sign("admin", &g.key));
    handle_msg(&g, &mut world, &mut b, m, 0).unwrap();
    let mut m = Msg::bare("start".to_string());
    m.x = Some(1);
    m.y = Some(0);
    handle_msg(&g, &mut world, &mut b, m, 0).expect("privileged start should succeed");
    assert_eq!((world.units[1].x, world.units[1].y), (1, 0));

    set_speed(&g, &mut world, &mut a, ida, 1, 0);
    let effs = world.tick(0, UNIT_SPEED);
    assert!(effs.is_empty(), "a blocked unit does not move");
    assert_eq!((world.units[0].x, world.units[0].y), (0, 0));
}

#[test]
fn movement_onto_occupied_tile_is_blocked() {
    let g = tick_config();
    // every tile is open terrain; only the occupant blocks
    let mut world = strip_world(vec![0, 0, 0, 0, 0], Vec::new());
    let mut a = ConnState::new(1);
    let mut b = ConnState::new(2);
    let ida = spawn_at_origin(&g, &mut world, &mut a, "alice");
    // bob's unit stands on the adjacent tile
    let mut m = Msg::bare("login".to_string());
    m.name = Some("admin".to_string());
    m.signature = Some(sign("admin", &g.key));
    handle_msg(&g, &mut world, &mut b, m, 0).unwrap();
    let mut m = Msg::bare("start".to_string());
    m.x = Some(1);
    m.y = Some(0);
    handle_msg(&g, &mut world, &mut b, m, 0).expect("privileged start should succeed");
    assert_eq!((world.units[1].x, world.units[1].y), (1, 0));

    set_speed(&g, &mut world, &mut a, ida, 1, 0);
    let effs = world.tick(0, UNIT_SPEED);
    assert!(effs.is_empty(), "a unit does not move onto an occupied tile");
    assert_eq!((world.units[0].x, world.units[0].y), (0, 0));
}

#[test]
fn tile_vacated_during_a_pass_opens_only_for_the_next_pass() {
    let g = tick_config();
    let mut world = strip_world(vec![0, 0, 0, 0, 0], Vec::new());
    let mut a = ConnState::new(1);
    let mut b = ConnState::new(2);
    let ida = spawn_at_origin(&g, &mut world, &mut a, "alice");
    let mut m = Msg::bare("login".to_string());
    m.name = Some("admin".to_string());
    m.signature = Some(sign("admin", &g.key));
    handle_msg(&g, &mut world, &mut b, m, 0).unwrap();
    let mut m = Msg::bare("start".to_string());
    m.x = Some(1);
    m.y = Some(0);
    handle_msg(&g, &mut world, &mut b, m, 0).expect("privileged start should succeed");
    let idb = world.units[1].id;

    // both head east; bob vacates tile 1 in the same pass, but alice's step
    // was decided against the occupancy the pass started from
    set_speed(&g, &mut world, &mut a, ida, 1, 0);
    set_speed(&g, &mut world, &mut b, idb, 1, 0);
    let effs = world.tick(0, UNIT_SPEED);
    assert_eq!(effs.len(), 1, "only bob moves in the first pass");
    assert_eq!((world.units[0].x, world.units[0].y), (0, 0));
    assert_eq!((world.units[1].x, world.units[1].y), (2, 0));

    // next pass: the vacated tile is open
    let effs = world.tick(200, UNIT_SPEED);
    assert_eq!(effs.len(), 2);
    assert_eq!((world.units[0].x, world.units[0].y), (1, 0));
    assert_eq!((world.units[1].x, world.units[1].y), (3, 0));
}

#[test]
fn movement_off_the_grid_is_skipped() {
    let g = tick_config();
    let mut world = strip_world(vec![0, 0, 0], Vec::new());
    let mut conn = ConnState::new(1);
    let id = spawn_at_origin(&g, &mut world, &mut conn, "alice");
    set_speed(&g, &mut world, &mut conn, id, -1, 0);
    let effs = world.tick(0, UNIT_SPEED);
    assert!(effs.is_empty());
    assert_eq!((world.units[0].x, world.units[0].y), (0, 0));
}

#[test]
fn occupancy_follows_a_moving_unit() {
    let g = tick_config();
    let mut world = strip_world(vec![0, 0, 0], Vec::new());
    let mut conn = ConnState::new(1);
    let id = spawn_at_origin(&g, &mut world, &mut conn, "alice");
    set_speed(&g, &mut world, &mut conn, id, 1, 0);
    assert_eq!(world.occupancy[0], vec![id]);
    world.tick(0, UNIT_SPEED);
    assert!(world.occupancy[0].is_empty());
    assert_eq!(world.occupancy[1], vec![id]);
}
