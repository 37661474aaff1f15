use crypto::digest::Digest;
use crypto::sha1::Sha1;
use tileworld::commands::{cleanup_conn, handle_msg, ConnState, GlobalConfig};
use tileworld::map::{build_map, TriggerDef};
use tileworld::msg::{CmdError, Effect, Msg};
use tileworld::world::World;

fn test_config() -> GlobalConfig {
    GlobalConfig {
        key: "secretkey".to_string(),
        default_img: "default.png".to_string(),
        privileged: vec!["admin".to_string()],
    }
}

fn open_map_world() -> World {
    // 5 x 1 strip, all tiles vacant, one spawn point at the west end.
    let map = build_map(
        5,
        1,
        vec![vec![0, 0, 0, 0, 0]],
        Vec::new(),
        Vec::<TriggerDef>::new(),
        vec![(0, 0)],
    )
    .expect("map should build");
    World::new(map)
}

fn bare(cmd: &str) -> Msg {
    Msg::bare(cmd.to_string())
}

fn signature_for(name: &str, key: &str) -> String {
    let mut hasher = Sha1::new();
    hasher.input_str(name);
    hasher.input_str(key);
    hasher.result_str()
}

fn login_as(g: &GlobalConfig, world: &mut World, conn: &mut ConnState, name: &str) {
    let mut m = bare("login");
    m.name = Some(name.to_string());
    m.signature = Some(signature_for(name, &g.key));
    let r = handle_msg(g, world, conn, m, 0);
    assert!(r.is_ok());
}

fn start_unit(g: &GlobalConfig, world: &mut World, conn: &mut ConnState) -> (i32, Vec<Effect>) {
    let effs = handle_msg(g, world, conn, bare("start"), 0).expect("start should succeed");
    let id = match &effs[0] {
        Effect::Send { to, msg } => {
            assert_eq!(*to, conn.conn_id);
            assert_eq!(msg.cmd, "you");
            msg.id.expect("you carries the id")
        }
        other => panic!("first start effect should be a targeted send: {:?}", other),
    };
    (id, effs)
}

#[test]
fn login_with_valid_signature_succeeds() {
    let g = test_config();
    let mut world = open_map_world();
    let mut conn = ConnState::new(1);
    let mut m = bare("login");
    m.name = Some("alice".to_string());
    m.signature = Some(signature_for("alice", "secretkey"));
    let r = handle_msg(&g, &mut world, &mut conn, m, 0);
    assert!(r.is_ok());
    assert_eq!(conn.username, Some("alice".to_string()));
}

#[test]
fn login_with_wrong_signature_is_auth_error() {
    let g = test_config();
    let mut world = open_map_world();
    let mut conn = ConnState::new(1);
    let mut m = bare("login");
    m.name = Some("alice".to_string());
    m.signature = Some("deadbeef".to_string());
    let r = handle_msg(&g, &mut world, &mut conn, m, 0);
    assert_eq!(r.unwrap_err(), CmdError::Auth);
    assert_eq!(conn.username, None);
}

#[test]
fn login_without_credentials_is_validation_error() {
    let g = test_config();
    let mut world = open_map_world();
    let mut conn = ConnState::new(1);
    let mut m = bare("login");
    m.name = Some("alice".to_string());
    let r = handle_msg(&g, &mut world, &mut conn, m, 0);
    assert_eq!(r.unwrap_err(), CmdError::Validation);
}

#[test]
fn start_before_login_is_auth_error() {
    let g = test_config();
    let mut world = open_map_world();
    let mut conn = ConnState::new(1);
    let r = handle_msg(&g, &mut world, &mut conn, bare("start"), 0);
    assert_eq!(r.unwrap_err(), CmdError::Auth);
}

#[test]
fn start_sends_you_and_broadcasts_unit() {
    let g = test_config();
    let mut world = open_map_world();
    let mut conn = ConnState::new(1);
    login_as(&g, &mut world, &mut conn, "alice");
    let (id, effs) = start_unit(&g, &mut world, &mut conn);
    assert_eq!(id, 1);
    // last effect: the broadcast every other client receives
    match effs.last().expect("start emits effects") {
        Effect::Broadcast { msg } => {
            assert_eq!(msg.cmd, "unit");
            assert_eq!(msg.id, Some(1));
            assert_eq!(msg.x, Some(0));
            assert_eq!(msg.y, Some(0));
            assert_eq!(msg.name.as_deref(), Some("alice"));
            assert_eq!(msg.img.as_deref(), Some("default.png"));
        }
        other => panic!("last start effect should be a broadcast: {:?}", other),
    }
    assert!(conn.unit_ids.contains(&1));
}

#[test]
fn second_start_describes_existing_units_to_caller() {
    let g = test_config();
    let mut world = open_map_world();
    let mut a = ConnState::new(1);
    let mut b = ConnState::new(2);
    login_as(&g, &mut world, &mut a, "alice");
    login_as(&g, &mut world, &mut b, "bob");
    let (ida, _) = start_unit(&g, &mut world, &mut a);
    let (idb, effs) = start_unit(&g, &mut world, &mut b);
    assert_eq!(ida, 1);
    assert_eq!(idb, 2);
    // you, one description of alice's unit, one broadcast: 3 effects
    assert_eq!(effs.len(), 3);
    match &effs[1] {
        Effect::Send { to, msg } => {
            assert_eq!(*to, 2);
            assert_eq!(msg.cmd, "unit");
            assert_eq!(msg.id, Some(1));
            assert_eq!(msg.name.as_deref(), Some("alice"));
        }
        other => panic!("expected a targeted unit description: {:?}", other),
    }
}

#[test]
fn start_ignores_overrides_for_unprivileged_user() {
    let g = test_config();
    let mut world = open_map_world();
    let mut conn = ConnState::new(1);
    login_as(&g, &mut world, &mut conn, "alice");
    let mut m = bare("start");
    m.x = Some(3);
    m.y = Some(0);
    m.img = Some("evil.png".to_string());
    m.text = Some("hi".to_string());
    m.style = Some("red".to_string());
    let r = handle_msg(&g, &mut world, &mut conn, m, 0).expect("start should succeed");
    drop(r);
    let u = &world.units[0];
    assert_eq!((u.x, u.y), (0, 0));
    assert_eq!(u.img, "default.png");
    assert_eq!(u.text, "");
    assert_eq!(u.style, "");
}

#[test]
fn start_honors_overrides_for_privileged_user() {
    let g = test_config();
    let mut world = open_map_world();
    let mut conn = ConnState::new(1);
    login_as(&g, &mut world, &mut conn, "admin");
    let mut m = bare("start");
    m.x = Some(3);
    m.y = Some(0);
    m.img = Some("crown.png".to_string());
    m.text = Some("king".to_string());
    m.style = Some("gold".to_string());
    handle_msg(&g, &mut world, &mut conn, m, 0).expect("start should succeed");
    let u = &world.units[0];
    assert_eq!((u.x, u.y), (3, 0));
    assert_eq!(u.img, "crown.png");
    assert_eq!(u.text, "king");
    assert_eq!(u.style, "gold");
}

#[test]
fn speed_with_magnitude_over_one_fails_and_changes_nothing() {
    let g = test_config();
    let mut world = open_map_world();
    let mut conn = ConnState::new(1);
    login_as(&g, &mut world, &mut conn, "alice");
    let (id, _) = start_unit(&g, &mut world, &mut conn);
    // set a direction first so a failure would be observable
    let mut m = bare("speed");
    m.id = Some(id);
    m.x = Some(1);
    m.y = Some(0);
    handle_msg(&g, &mut world, &mut conn, m, 0).expect("unit speed should be accepted");
    let mut m = bare("speed");
    m.id = Some(id);
    m.x = Some(1);
    m.y = Some(1);
    let r = handle_msg(&g, &mut world, &mut conn, m, 0);
    assert_eq!(r.unwrap_err(), CmdError::Validation);
    assert_eq!(world.units[0].speed, (1, 0));
    assert_eq!(world.units[0].direction, (1, 0));
}

#[test]
fn speed_keeps_direction_when_stopping() {
    let g = test_config();
    let mut world = open_map_world();
    let mut conn = ConnState::new(1);
    login_as(&g, &mut world, &mut conn, "alice");
    let (id, _) = start_unit(&g, &mut world, &mut conn);
    let mut m = bare("speed");
    m.id = Some(id);
    m.x = Some(0);
    m.y = Some(1);
    handle_msg(&g, &mut world, &mut conn, m, 0).unwrap();
    let mut m = bare("speed");
    m.id = Some(id);
    m.x = Some(0);
    m.y = Some(0);
    handle_msg(&g, &mut world, &mut conn, m, 0).unwrap();
    assert_eq!(world.units[0].speed, (0, 0));
    assert_eq!(world.units[0].direction, (0, 1));
}

#[test]
fn speed_on_unowned_unit_is_permission_error() {
    let g = test_config();
    let mut world = open_map_world();
    let mut a = ConnState::new(1);
    let mut b = ConnState::new(2);
    login_as(&g, &mut world, &mut a, "alice");
    login_as(&g, &mut world, &mut b, "bob");
    let (id, _) = start_unit(&g, &mut world, &mut a);
    let mut m = bare("speed");
    m.id = Some(id);
    m.x = Some(1);
    m.y = Some(0);
    let r = handle_msg(&g, &mut world, &mut b, m, 0);
    assert_eq!(r.unwrap_err(), CmdError::Permission);
}

#[test]
fn speed_on_dead_unit_is_not_found_error() {
    let g = test_config();
    let mut world = open_map_world();
    let mut conn = ConnState::new(1);
    login_as(&g, &mut world, &mut conn, "alice");
    // the connection believes it owns unit 99, but no such unit is live
    conn.unit_ids.push(99);
    let mut m = bare("speed");
    m.id = Some(99);
    m.x = Some(1);
    m.y = Some(0);
    let r = handle_msg(&g, &mut world, &mut conn, m, 0);
    assert_eq!(r.unwrap_err(), CmdError::NotFound);
}

#[test]
fn remove_of_unowned_unit_is_permission_error_and_unit_survives() {
    let g = test_config();
    let mut world = open_map_world();
    let mut a = ConnState::new(1);
    let mut b = ConnState::new(2);
    login_as(&g, &mut world, &mut a, "alice");
    login_as(&g, &mut world, &mut b, "bob");
    let (id, _) = start_unit(&g, &mut world, &mut a);
    let mut m = bare("remove");
    m.id = Some(id);
    let r = handle_msg(&g, &mut world, &mut b, m, 0);
    assert_eq!(r.unwrap_err(), CmdError::Permission);
    assert_eq!(world.units.len(), 1);
    assert_eq!(world.units[0].id, id);
}

#[test]
fn remove_of_owned_unit_broadcasts_and_deletes() {
    let g = test_config();
    let mut world = open_map_world();
    let mut conn = ConnState::new(1);
    login_as(&g, &mut world, &mut conn, "alice");
    let (id, _) = start_unit(&g, &mut world, &mut conn);
    let mut m = bare("remove");
    m.id = Some(id);
    let effs = handle_msg(&g, &mut world, &mut conn, m, 0).expect("remove should succeed");
    assert_eq!(effs.len(), 1);
    match &effs[0] {
        Effect::Broadcast { msg } => {
            assert_eq!(msg.cmd, "remove");
            assert_eq!(msg.id, Some(id));
        }
        other => panic!("remove should broadcast: {:?}", other),
    }
    assert_eq!(world.units.len(), 0);
    assert!(!conn.unit_ids.contains(&id));
    assert!(world.occupancy.iter().all(|row| row.is_empty()));
}

#[test]
fn chat_from_owner_broadcasts_verbatim() {
    let g = test_config();
    let mut world = open_map_world();
    let mut conn = ConnState::new(1);
    login_as(&g, &mut world, &mut conn, "alice");
    let (id, _) = start_unit(&g, &mut world, &mut conn);
    let mut m = bare("chat");
    m.id = Some(id);
    m.text = Some("hello there".to_string());
    let effs = handle_msg(&g, &mut world, &mut conn, m, 0).expect("chat should succeed");
    assert_eq!(effs.len(), 1);
    match &effs[0] {
        Effect::Broadcast { msg } => {
            assert_eq!(msg.cmd, "chat");
            assert_eq!(msg.id, Some(id));
            assert_eq!(msg.text.as_deref(), Some("hello there"));
        }
        other => panic!("chat should broadcast: {:?}", other),
    }
}

#[test]
fn chat_on_unowned_unit_is_permission_error() {
    let g = test_config();
    let mut world = open_map_world();
    let mut conn = ConnState::new(1);
    login_as(&g, &mut world, &mut conn, "alice");
    let mut m = bare("chat");
    m.id = Some(5);
    m.text = Some("nope".to_string());
    let r = handle_msg(&g, &mut world, &mut conn, m, 0);
    assert_eq!(r.unwrap_err(), CmdError::Permission);
}

#[test]
fn url_broadcasts_for_privileged_caller() {
    let g = test_config();
    let mut world = open_map_world();
    let mut admin = ConnState::new(1);
    login_as(&g, &mut world, &mut admin, "admin");
    let mut m = bare("url");
    m.x = Some(7);
    m.text = Some("http://example.test".to_string());
    let effs = handle_msg(&g, &mut world, &mut admin, m, 0).expect("url should succeed");
    assert_eq!(effs.len(), 1);
    match &effs[0] {
        Effect::Broadcast { msg } => {
            assert_eq!(msg.cmd, "url");
            assert_eq!(msg.x, Some(7));
            assert_eq!(msg.text.as_deref(), Some("http://example.test"));
        }
        other => panic!("url should broadcast: {:?}", other),
    }
}

#[test]
fn url_from_unprivileged_caller_is_permission_error() {
    let g = test_config();
    let mut world = open_map_world();
    let mut alice = ConnState::new(1);
    login_as(&g, &mut world, &mut alice, "alice");
    let mut m = bare("url");
    m.x = Some(7);
    m.text = Some("http://example.test".to_string());
    let r = handle_msg(&g, &mut world, &mut alice, m, 0);
    assert_eq!(r.unwrap_err(), CmdError::Permission);
}

#[test]
fn url_before_login_is_permission_error() {
    let g = test_config();
    let mut world = open_map_world();
    let mut conn = ConnState::new(1);
    let r = handle_msg(&g, &mut world, &mut conn, bare("url"), 0);
    assert_eq!(r.unwrap_err(), CmdError::Permission);
}

#[test]
fn close_asks_for_termination() {
    let g = test_config();
    let mut world = open_map_world();
    let mut conn = ConnState::new(1);
    let r = handle_msg(&g, &mut world, &mut conn, bare("close"), 0);
    assert_eq!(r.unwrap_err(), CmdError::Close);
}

#[test]
fn unknown_command_is_a_no_op() {
    let g = test_config();
    let mut world = open_map_world();
    let mut conn = ConnState::new(1);
    let effs = handle_msg(&g, &mut world, &mut conn, bare("dance"), 0)
        .expect("unknown commands are ignored");
    assert!(effs.is_empty());
}

#[test]
fn cleanup_removes_owned_units_and_connection() {
    let g = test_config();
    let mut world = open_map_world();
    world.register_conn(1, 0);
    let mut conn = ConnState::new(1);
    login_as(&g, &mut world, &mut conn, "alice");
    let (id1, _) = start_unit(&g, &mut world, &mut conn);
    let (id2, _) = start_unit(&g, &mut world, &mut conn);
    assert_eq!(world.units.len(), 2);
    let effs = cleanup_conn(&mut world, conn);
    assert_eq!(effs.len(), 2);
    let removed: Vec<i32> = effs
        .iter()
        .map(|e| match e {
            Effect::Broadcast { msg } => {
                assert_eq!(msg.cmd, "remove");
                msg.id.expect("remove carries the id")
            }
            other => panic!("cleanup should broadcast removes: {:?}", other),
        })
        .collect();
    assert_eq!(removed, vec![id1, id2]);
    assert_eq!(world.units.len(), 0);
    assert_eq!(world.conns.len(), 0);
}

#[test]
fn error_descriptions_are_stable() {
    assert_eq!(CmdError::Auth.describe(), "invalid credentials");
    assert_eq!(CmdError::Permission.describe(), "permission denied");
    assert_eq!(CmdError::Validation.describe(), "invalid command");
    assert_eq!(CmdError::NotFound.describe(), "no such unit");
    assert_eq!(CmdError::Protocol.describe(), "malformed message");
    assert_eq!(CmdError::Close.describe(), "closed");
}
