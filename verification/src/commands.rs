//! The command processor: validates one inbound message against the shared
//! world state and applies it, returning the deliveries it owes.

use vstd::prelude::*;
use vstd::math::abs;
use crate::map::contains_i32;
use crate::msg::{CmdError, Effect, Msg};
use crate::world::{ConnEntry, Unit, World};

verus! {

/// Server-wide read-only configuration.
pub struct GlobalConfig {
    /// Shared signing key: a login must present `sha1(name ++ key)` in hex.
    pub key: String,
    /// Image given to units whose owner supplies none.
    pub default_img: String,
    /// Account names allowed to override spawn parameters and to announce
    /// urls.
    pub privileged: Vec<String>,
}

/// Per-connection state, owned by that connection's handler alone.
pub struct ConnState {
    pub conn_id: i32,
    /// Set by a successful `login`.
    pub username: Option<String>,
    /// The units this connection may command.
    pub unit_ids: Vec<i32>,
}

impl ConnState {
    /// The state of a connection that has not logged in or spawned yet.
    pub fn new(conn_id: i32) -> (c: ConnState)
        ensures
            c.conn_id == conn_id,
            c.username is None,
            c.unit_ids@.len() == 0,
    {
        ConnState { conn_id, username: None, unit_ids: Vec::new() }
    }
}

/// Is this account name on the privileged list?
pub open spec fn privileged_name(g: GlobalConfig, name: Seq<char>) -> bool {
    exists|j: int| 0 <= j < g.privileged@.len() && (#[trigger] g.privileged@[j])@ == name
}

/// Decides `privileged_name` for a concrete account name.
#[verifier::loop_isolation(false)]
fn is_privileged(g: &GlobalConfig, name: &String) -> (r: bool)
    ensures
        r == privileged_name(*g, name@),
{
    let mut j: usize = 0;
    while j < g.privileged.len()
        invariant
            j <= g.privileged@.len(),
            forall|q: int| 0 <= q < j ==> (#[trigger] g.privileged@[q])@ != name@,
        decreases g.privileged@.len() - j,
    {
        if g.privileged[j] == *name {
            return true;
        }
        j += 1;
    }
    false
}

/// The hex-encoded SHA-1 digest of the text, as a pure function of its
/// characters.
pub uninterp spec fn sha1_hex_of(data: Seq<char>) -> Seq<char>;

/// Relies on rust-crypto's `Sha1` with `Digest::input_str` and
/// `Digest::result_str`: feeding two strings digests their concatenation,
/// and the hex result depends on those characters alone.
#[verifier::external_body]
fn sha1_hex(name: &str, key: &str) -> (r: String)
    ensures
        r@ == sha1_hex_of(name@ + key@),
{
    let mut hasher = crypto::sha1::Sha1::new();
    crypto::digest::Digest::input_str(&mut hasher, name);
    crypto::digest::Digest::input_str(&mut hasher, key);
    crypto::digest::Digest::result_str(&mut hasher)
}

/// Relies on rand's `random`: an arbitrary value; nothing is promised of it.
pub assume_specification<T>[ rand::random::<T> ]() -> (r: T)
    where
        rand::distributions::Standard: rand::distributions::Distribution<T>,
;

/// Position of the first occurrence of `x` in `v`, if any.
#[verifier::loop_isolation(false)]
fn find_pos(v: &Vec<i32>, x: i32) -> (r: Option<usize>)
    ensures
        match r {
            Some(p) => p < v@.len() && v@[p as int] == x && forall|q: int|
                0 <= q < p ==> v@[q] != x,
            None => !v@.contains(x),
        },
{
    let mut p: usize = 0;
    while p < v.len()
        invariant
            p <= v@.len(),
            forall|q: int| 0 <= q < p ==> v@[q] != x,
        decreases v@.len() - p,
    {
        if v[p] == x {
            return Some(p);
        }
        p += 1;
    }
    None
}

/// What `login` does: with both credentials present and the signature equal
/// to the hex SHA-1 of name followed by the server key, the connection takes
/// the name; a wrong signature is an authentication error and missing
/// credentials a validation error. Nothing else changes either way.
pub open spec fn login_post(
    g: GlobalConfig,
    c0: ConnState,
    c1: ConnState,
    m: Msg,
    r: Result<Vec<Effect>, CmdError>,
) -> bool {
    match (m.name, m.signature) {
        (Some(name), Some(sig)) => {
            if sig@ == sha1_hex_of(name@ + g.key@) {
                &&& r matches Ok(e) && e@.len() == 0
                &&& c1.username == m.name
                &&& c1.conn_id == c0.conn_id
                &&& c1.unit_ids == c0.unit_ids
            } else {
                &&& r matches Err(e) && e == CmdError::Auth
                &&& c1 == c0
            }
        },
        _ => (r matches Err(e) && e == CmdError::Validation) && c1 == c0,
    }
}

/// Authenticates the connection. The world is not involved.
pub fn handle_login(g: &GlobalConfig, conn: &mut ConnState, msg: Msg) -> (r: Result<
    Vec<Effect>,
    CmdError,
>)
    ensures
        login_post(*g, *old(conn), *final(conn), msg, r),
{
    match (msg.name, msg.signature) {
        (Some(name), Some(signature)) => {
            let hash = sha1_hex(name.as_str(), g.key.as_str());
            if hash == signature {
                conn.username = Some(name);
                Ok(Vec::new())
            } else {
                Err(CmdError::Auth)
            }
        },
        _ => Err(CmdError::Validation),
    }
}

/// What `speed` does: a missing coordinate pair or one that is not a unit
/// vector (or zero) is a validation error; a missing unit id a validation
/// error; an unowned id a permission error; a dead unit a not-found error.
/// On success the unit takes the new speed, and also the new direction when
/// the speed is nonzero. Errors leave every unit, speed and direction as
/// they were.
pub open spec fn speed_post(
    w0: World,
    w1: World,
    c: ConnState,
    m: Msg,
    r: Result<Vec<Effect>, CmdError>,
) -> bool {
    let speed_valid = m.x matches Some(x) && m.y matches Some(y) && abs(x as int) + abs(y as int)
        <= 1;
    if !speed_valid {
        (r matches Err(e) && e == CmdError::Validation) && w1 == w0
    } else if m.id is None {
        (r matches Err(e) && e == CmdError::Validation) && w1 == w0
    } else if !c.unit_ids@.contains(m.id.unwrap()) {
        (r matches Err(e) && e == CmdError::Permission) && w1 == w0
    } else if !w0.has_unit(m.id.unwrap()) {
        (r matches Err(e) && e == CmdError::NotFound) && w1 == w0
    } else {
        &&& r matches Ok(e) && e@.len() == 0
        &&& w1.map == w0.map
        &&& w1.occupancy == w0.occupancy
        &&& w1.conns == w0.conns
        &&& w1.last_unit_id == w0.last_unit_id
        &&& w1.units@.len() == w0.units@.len()
        &&& forall|i: int|
                0 <= i < w0.units@.len() && (#[trigger] w0.units@[i]).id != m.id.unwrap()
                ==> w1.units@[i] == w0.units@[i]
        &&& forall|i: int|
                0 <= i < w0.units@.len() && (#[trigger] w0.units@[i]).id == m.id.unwrap() ==> {
                    let v = (m.x.unwrap(), m.y.unwrap());
                    w1.units@[i] == Unit {
                        speed: v,
                        direction: if v == (0i32, 0i32) {
                            w0.units@[i].direction
                        } else {
                            v
                        },
                        ..w0.units@[i]
                    }
                }
    }
}

/// Sets an owned unit's speed, and its direction when the speed is nonzero.
pub fn handle_speed(world: &mut World, conn: &ConnState, msg: Msg) -> (r: Result<
    Vec<Effect>,
    CmdError,
>)
    requires
        old(world).wf(),
    ensures
        final(world).wf(),
        speed_post(*old(world), *final(world), *conn, msg, r),
{
    let (vx, vy) = match (msg.x, msg.y) {
        (Some(x), Some(y)) => (x, y),
        _ => {
            return Err(CmdError::Validation);
        },
    };
    let speed_ok = (vx == 0 && vy == 0) || (vx == 1 && vy == 0) || (vx == -1 && vy == 0) || (vx == 0
        && vy == 1) || (vx == 0 && vy == -1);
    proof {
        assert(speed_ok == (abs(vx as int) + abs(vy as int) <= 1));
    }
    if !speed_ok {
        return Err(CmdError::Validation);
    }
    let id = match msg.id {
        Some(id) => id,
        None => {
            return Err(CmdError::Validation);
        },
    };
    if !contains_i32(&conn.unit_ids, id) {
        return Err(CmdError::Permission);
    }
    match world.find_unit_index(id) {
        None => Err(CmdError::NotFound),
        Some(i) => {
            let u = &mut world.units[i];
            u.speed = (vx, vy);
            if vx != 0 || vy != 0 {
                u.direction = (vx, vy);
            }
            proof {
                World::lemma_wf_update_in_place(*old(world), *world, i as int);
                assert forall|j: int|
                    0 <= j < old(world).units@.len() && (#[trigger] old(world).units@[j]).id
                        != id implies world.units@[j] == old(world).units@[j] by {}
            }
            Ok(Vec::new())
        },
    }
}

/// What `click` does: validation, permission and existence checks as for
/// `speed`; then, if the unit has a direction and the tile it faces is on
/// the grid, one `call{x: unit, y: occupant}` broadcast per unit standing on
/// that tile, in occupancy order; otherwise nothing. The world never
/// changes.
pub open spec fn click_post(
    w: World,
    c: ConnState,
    m: Msg,
    r: Result<Vec<Effect>, CmdError>,
) -> bool {
    match m.id {
        None => r matches Err(e) && e == CmdError::Validation,
        Some(id) => {
            if !c.unit_ids@.contains(id) {
                r matches Err(e) && e == CmdError::Permission
            } else if !w.has_unit(id) {
                r matches Err(e) && e == CmdError::NotFound
            } else {
                forall|i: int|
                    0 <= i < w.units@.len() && (#[trigger] w.units@[i]).id == id ==> {
                        let u = w.units@[i];
                        let fx = u.x as int + u.direction.0 as int;
                        let fy = u.y as int + u.direction.1 as int;
                        if u.direction == (0i32, 0i32) || !w.map.in_bounds(fx, fy) {
                            r matches Ok(e) && e@.len() == 0
                        } else {
                            let row = w.occupancy@[w.map.tile_at(fx, fy)]@;
                            r matches Ok(e) && e@.len() == row.len() && forall|q: int|
                                0 <= q < row.len() ==> (#[trigger] e@[q]).is_broadcast()
                                    && e@[q].msg().is_call(id, row[q])
                        }
                    }
            }
        },
    }
}

/// Announces an owned unit to every unit on the tile it faces.
#[verifier::loop_isolation(false)]
pub fn handle_click(world: &World, conn: &ConnState, msg: Msg) -> (r: Result<
    Vec<Effect>,
    CmdError,
>)
    requires
        world.wf(),
    ensures
        click_post(*world, *conn, msg, r),
{
    let id = match msg.id {
        Some(id) => id,
        None => {
            return Err(CmdError::Validation);
        },
    };
    if !contains_i32(&conn.unit_ids, id) {
        return Err(CmdError::Permission);
    }
    match world.find_unit_index(id) {
        None => Err(CmdError::NotFound),
        Some(i) => {
            let dx = world.units[i].direction.0;
            let dy = world.units[i].direction.1;
            if dx == 0 && dy == 0 {
                return Ok(Vec::new());
            }
            let fx = world.units[i].x + dx;
            let fy = world.units[i].y + dy;
            if !(0 <= fx && fx < world.map.width && 0 <= fy && fy < world.map.height) {
                return Ok(Vec::new());
            }
            let t = world.map.tile_index(fx, fy);
            let row = &world.occupancy[t];
            let mut effs: Vec<Effect> = Vec::new();
            let mut k: usize = 0;
            while k < row.len()
                invariant
                    k <= row@.len(),
                    effs@.len() == k,
                    forall|q: int|
                        0 <= q < k ==> (#[trigger] effs@[q]).is_broadcast() && effs@[q].msg().is_call(
                            id,
                            row@[q],
                        ),
                decreases row@.len() - k,
            {
                effs.push(Effect::Broadcast { msg: Msg::call_msg(id, row[k]) });
                k += 1;
            }
            Ok(effs)
        },
    }
}

/// What `chat` does: a missing unit id is a validation error and an unowned
/// one a permission error; otherwise the id and text are broadcast verbatim.
pub open spec fn chat_post(c: ConnState, m: Msg, r: Result<Vec<Effect>, CmdError>) -> bool {
    match m.id {
        None => r matches Err(e) && e == CmdError::Validation,
        Some(id) => {
            if !c.unit_ids@.contains(id) {
                r matches Err(e) && e == CmdError::Permission
            } else {
                r matches Ok(e) && e@.len() == 1 && e@[0].is_broadcast() && e@[0].msg().is_chat(
                    m.id,
                    m.text,
                )
            }
        },
    }
}

/// Broadcasts a chat line from an owned unit.
pub fn handle_chat(conn: &ConnState, msg: Msg) -> (r: Result<Vec<Effect>, CmdError>)
    ensures
        chat_post(*conn, msg, r),
{
    let id = match msg.id {
        Some(id) => id,
        None => {
            return Err(CmdError::Validation);
        },
    };
    if !contains_i32(&conn.unit_ids, id) {
        return Err(CmdError::Permission);
    }
    let mut m = Msg::bare("chat".to_owned());
    m.id = Some(id);
    m.text = msg.text;
    let mut effs: Vec<Effect> = Vec::new();
    effs.push(Effect::Broadcast { msg: m });
    Ok(effs)
}

/// What `url` does: a privileged, logged-in caller broadcasts the
/// announcement; anyone else commits a permission error, fatal to the
/// connection like every error.
pub open spec fn url_post(
    g: GlobalConfig,
    c: ConnState,
    m: Msg,
    r: Result<Vec<Effect>, CmdError>,
) -> bool {
    if c.username matches Some(name) && privileged_name(g, name@) {
        r matches Ok(e) && e@.len() == 1 && e@[0].is_broadcast() && e@[0].msg().is_url(m.x, m.text)
    } else {
        r matches Err(e) && e == CmdError::Permission
    }
}

/// Broadcasts a privileged announcement; a permission error for anyone
/// else.
pub fn handle_url(g: &GlobalConfig, conn: &ConnState, msg: Msg) -> (r: Result<
    Vec<Effect>,
    CmdError,
>)
    ensures
        url_post(*g, *conn, msg, r),
{
    match &conn.username {
        Some(name) => {
            if is_privileged(g, name) {
                let mut m = Msg::bare("url".to_owned());
                m.x = msg.x;
                m.text = msg.text;
                let mut effs: Vec<Effect> = Vec::new();
                effs.push(Effect::Broadcast { msg: m });
                Ok(effs)
            } else {
                Err(CmdError::Permission)
            }
        },
        None => Err(CmdError::Permission),
    }
}

/// What `remove` does: a missing unit id is a validation error, an unowned
/// one a permission error that changes nothing, and a dead one a not-found
/// error. On success the id leaves the caller's owned list (its first
/// occurrence), the unit leaves the registry and its tile, and one
/// `remove{id}` broadcast goes out.
pub open spec fn remove_post(
    w0: World,
    w1: World,
    c0: ConnState,
    c1: ConnState,
    m: Msg,
    r: Result<Vec<Effect>, CmdError>,
) -> bool {
    match m.id {
        None => (r matches Err(e) && e == CmdError::Validation) && w1 == w0 && c1 == c0,
        Some(id) => {
            if !c0.unit_ids@.contains(id) {
                (r matches Err(e) && e == CmdError::Permission) && w1 == w0 && c1 == c0
            } else if !w0.has_unit(id) {
                (r matches Err(e) && e == CmdError::NotFound) && w1 == w0 && c1 == c0
            } else {
                &&& r matches Ok(e) && e@.len() == 1 && e@[0].is_broadcast()
                    && e@[0].msg().is_remove(id)
                &&& exists|i: int|
                        0 <= i < w0.units@.len() && (#[trigger] w0.units@[i]).id == id
                            && w1.units@ == w0.units@.remove(i)
                &&& !w1.has_unit(id)
                &&& w1.map == w0.map
                &&& w1.conns == w0.conns
                &&& w1.last_unit_id == w0.last_unit_id
                &&& exists|p: int|
                        0 <= p < c0.unit_ids@.len() && (#[trigger] c0.unit_ids@[p]) == id && (
                        forall|q: int| 0 <= q < p ==> c0.unit_ids@[q] != id)
                            && c1.unit_ids@ == c0.unit_ids@.remove(p)
                &&& c1.username == c0.username
                &&& c1.conn_id == c0.conn_id
            }
        },
    }
}

/// Deletes an owned unit from the world.
pub fn handle_remove(world: &mut World, conn: &mut ConnState, msg: Msg) -> (r: Result<
    Vec<Effect>,
    CmdError,
>)
    requires
        old(world).wf(),
    ensures
        final(world).wf(),
        remove_post(*old(world), *final(world), *old(conn), *final(conn), msg, r),
{
    let id = match msg.id {
        Some(id) => id,
        None => {
            return Err(CmdError::Validation);
        },
    };
    let pos = match find_pos(&conn.unit_ids, id) {
        Some(p) => p,
        None => {
            return Err(CmdError::Permission);
        },
    };
    proof {
        assert(old(conn).unit_ids@.contains(id));
    }
    match world.find_unit_index(id) {
        None => Err(CmdError::NotFound),
        Some(i) => {
            conn.unit_ids.remove(pos);
            world.remove_unit_at(i);
            let mut effs: Vec<Effect> = Vec::new();
            effs.push(Effect::Broadcast { msg: Msg::remove_msg(id) });
            Ok(effs)
        },
    }
}

/// The deliveries `start` owes once the unit `nu` has joined a world that
/// held the units of `w0`: first `you{id}` to the caller, then one
/// `unit{...}` description of every pre-existing unit to the caller alone,
/// in registry order, and last a `unit{...}` broadcast describing the
/// newcomer to everyone.
pub open spec fn start_effects_ok(effs: Seq<Effect>, w0: World, caller: i32, nu: Unit) -> bool {
    let n0 = w0.units@.len() as int;
    &&& effs.len() == n0 + 2
    &&& effs[0].is_send_to(caller)
    &&& effs[0].msg().is_you(nu.id)
    &&& forall|k: int|
            1 <= k <= n0 ==> {
                let u = w0.units@[k - 1];
                (#[trigger] effs[k]).is_send_to(caller) && effs[k].msg().is_unit_desc(
                    u.id,
                    u.x,
                    u.y,
                    u.name@,
                    u.img@,
                    u.text@,
                    u.style@,
                )
            }
    &&& effs[n0 + 1].is_broadcast()
    &&& effs[n0 + 1].msg().is_unit_desc(nu.id, nu.x, nu.y, nu.name@, nu.img@, nu.text@, nu.style@)
}

/// What `start` does when the spawn point at position `p` is drawn: an
/// unauthenticated caller is an authentication error and an exhausted id
/// counter a validation error. A privileged caller's supplied position,
/// image, text and style are honored — an off-grid position is a validation
/// error — while an unprivileged caller's are ignored. The new unit takes
/// the next id, stands still at the chosen tile, may move at once, joins
/// the caller's owned list, and the deliveries of `start_effects_ok` are
/// owed. Errors change nothing.
pub open spec fn start_post_at(
    g: GlobalConfig,
    w0: World,
    w1: World,
    c0: ConnState,
    c1: ConnState,
    m: Msg,
    now: u64,
    p: int,
    r: Result<Vec<Effect>, CmdError>,
) -> bool {
    match c0.username {
        None => (r matches Err(e) && e == CmdError::Auth) && w1 == w0 && c1 == c0,
        Some(name) => {
            let privd = privileged_name(g, name@);
            let override_pos = privd && m.x is Some && m.y is Some;
            if w0.last_unit_id == i32::MAX {
                (r matches Err(e) && e == CmdError::Validation) && w1 == w0 && c1 == c0
            } else if override_pos && !w0.map.in_bounds(m.x.unwrap() as int, m.y.unwrap() as int) {
                (r matches Err(e) && e == CmdError::Validation) && w1 == w0 && c1 == c0
            } else {
                let n0 = w0.units@.len() as int;
                let nu = w1.units@[n0];
                &&& w1.units@.len() == n0 + 1
                &&& forall|j: int| 0 <= j < n0 ==> #[trigger] w1.units@[j] == w0.units@[j]
                &&& nu.id == w0.last_unit_id + 1
                &&& nu.speed == (0i32, 0i32)
                &&& nu.direction == (0i32, 0i32)
                &&& nu.cooldown == now
                &&& nu.name@ == name@
                &&& nu.img@ == (if privd && m.img is Some {
                    m.img.unwrap()@
                } else {
                    g.default_img@
                })
                &&& nu.text@ == (if privd && m.text is Some {
                    m.text.unwrap()@
                } else {
                    Seq::<char>::empty()
                })
                &&& nu.style@ == (if privd && m.style is Some {
                    m.style.unwrap()@
                } else {
                    Seq::<char>::empty()
                })
                &&& (if override_pos {
                    nu.x == m.x.unwrap() && nu.y == m.y.unwrap()
                } else {
                    nu.x == w0.map.init_places@[p].0 && nu.y == w0.map.init_places@[p].1
                })
                &&& r matches Ok(effs) && start_effects_ok(effs@, w0, c0.conn_id, nu)
                &&& w1.map == w0.map
                &&& w1.conns == w0.conns
                &&& w1.last_unit_id == w0.last_unit_id + 1
                &&& c1.conn_id == c0.conn_id
                &&& c1.username == c0.username
                &&& c1.unit_ids@ == c0.unit_ids@.push(nu.id)
            }
        },
    }
}

/// `start` with the spawn draw fixed: spawns the caller's unit at the spawn
/// point in position `p`, unless a privileged caller supplied a position.
#[verifier::loop_isolation(false)]
pub fn start_unit_at(
    g: &GlobalConfig,
    world: &mut World,
    conn: &mut ConnState,
    msg: Msg,
    now: u64,
    p: usize,
) -> (r: Result<Vec<Effect>, CmdError>)
    requires
        old(world).wf(),
        p < old(world).map.init_places@.len(),
    ensures
        final(world).wf(),
        start_post_at(*g, *old(world), *final(world), *old(conn), *final(conn), msg, now, p as int, r),
{
    let uname = match &conn.username {
        Some(n) => n.clone(),
        None => {
            return Err(CmdError::Auth);
        },
    };
    let privd = is_privileged(g, &uname);
    if world.last_unit_id == i32::MAX {
        return Err(CmdError::Validation);
    }
    let place = world.map.init_places[p];
    let mut x = place.0;
    let mut y = place.1;
    if privd {
        if let (Some(mx), Some(my)) = (msg.x, msg.y) {
            if 0 <= mx && mx < world.map.width && 0 <= my && my < world.map.height {
                x = mx;
                y = my;
            } else {
                return Err(CmdError::Validation);
            }
        }
    }
    let mut img = g.default_img.clone();
    let mut text = String::new();
    let mut style = String::new();
    if privd {
        if let Some(mi) = msg.img {
            img = mi;
        }
        if let Some(mt) = msg.text {
            text = mt;
        }
        if let Some(ms) = msg.style {
            style = ms;
        }
    }
    proof {
        assert(old(world).map.in_bounds(
            old(world).map.init_places@[p as int].0 as int,
            old(world).map.init_places@[p as int].1 as int,
        ));
    }
    let id = world.spawn_unit(uname, img, text, style, x, y, now);
    conn.unit_ids.push(id);
    let caller = conn.conn_id;
    let n0 = world.units.len() - 1;
    let mut effs: Vec<Effect> = Vec::new();
    effs.push(Effect::Send { to: caller, msg: Msg::you_msg(id) });
    let mut k: usize = 0;
    while k < n0
        invariant
            k <= n0,
            n0 == old(world).units@.len(),
            effs@.len() == k + 1,
            effs@[0].is_send_to(caller),
            effs@[0].msg().is_you(id),
            forall|q: int|
                1 <= q <= k ==> {
                    let u = old(world).units@[q - 1];
                    (#[trigger] effs@[q]).is_send_to(caller) && effs@[q].msg().is_unit_desc(
                        u.id,
                        u.x,
                        u.y,
                        u.name@,
                        u.img@,
                        u.text@,
                        u.style@,
                    )
                },
        decreases n0 - k,
    {
        proof {
            assert(world.units@[k as int] == old(world).units@[k as int]);
        }
        let m = unit_desc_msg(&world.units[k]);
        effs.push(Effect::Send { to: caller, msg: m });
        k += 1;
    }
    let m = unit_desc_msg(&world.units[n0]);
    effs.push(Effect::Broadcast { msg: m });
    Ok(effs)
}

/// Builds the `unit{...}` message describing one live unit.
fn unit_desc_msg(u: &Unit) -> (m: Msg)
    ensures
        m.is_unit_desc(u.id, u.x, u.y, u.name@, u.img@, u.text@, u.style@),
{
    let mut m = Msg::bare("unit".to_owned());
    m.id = Some(u.id);
    m.x = Some(u.x);
    m.y = Some(u.y);
    m.name = Some(u.name.clone());
    m.img = Some(u.img.clone());
    m.text = Some(u.text.clone());
    m.style = Some(u.style.clone());
    m
}

/// What `start` does: some spawn point is drawn and `start_post_at` holds
/// of it.
pub open spec fn start_post(
    g: GlobalConfig,
    w0: World,
    w1: World,
    c0: ConnState,
    c1: ConnState,
    m: Msg,
    now: u64,
    r: Result<Vec<Effect>, CmdError>,
) -> bool {
    exists|p: int|
        0 <= p < w0.map.init_places@.len() && start_post_at(g, w0, w1, c0, c1, m, now, p, r)
}

/// Spawns a unit for the authenticated caller at a randomly drawn spawn
/// point.
pub fn handle_start(
    g: &GlobalConfig,
    world: &mut World,
    conn: &mut ConnState,
    msg: Msg,
    now: u64,
) -> (r: Result<Vec<Effect>, CmdError>)
    requires
        old(world).wf(),
    ensures
        final(world).wf(),
        start_post(*g, *old(world), *final(world), *old(conn), *final(conn), msg, now, r),
{
    let n = world.map.init_places.len();
    let draw: usize = rand::random::<usize>();
    let p = draw % n;
    start_unit_at(g, world, conn, msg, now, p)
}

/// What `ping` does: the caller's registry entry takes `now` as its last
/// sign of life; an unregistered caller changes nothing. Never an error.
pub open spec fn ping_post(
    w0: World,
    w1: World,
    conn_id: i32,
    now: u64,
    r: Result<Vec<Effect>, CmdError>,
) -> bool {
    &&& r matches Ok(e) && e@.len() == 0
    &&& w1.map == w0.map
    &&& w1.units == w0.units
    &&& w1.occupancy == w0.occupancy
    &&& w1.last_unit_id == w0.last_unit_id
    &&& (!w0.has_conn(conn_id) ==> w1 == w0)
    &&& (w0.has_conn(conn_id) ==> exists|i: int|
        0 <= i < w0.conns@.len() && (#[trigger] w0.conns@[i]).conn_id == conn_id && w1.conns@
            == w0.conns@.update(i, ConnEntry { conn_id, last_ping: now }))
}

/// Applies one decoded inbound message to the world on behalf of one
/// connection. Each recognized tag acts as its `..._post` predicate states;
/// an unrecognized tag is a harmless no-op; `close` reports the client's own
/// request to terminate. The world stays well-formed, its map never changes,
/// and the unit id counter never goes backwards.
pub fn handle_msg(
    g: &GlobalConfig,
    world: &mut World,
    conn: &mut ConnState,
    msg: Msg,
    now: u64,
) -> (r: Result<Vec<Effect>, CmdError>)
    requires
        old(world).wf(),
    ensures
        final(world).wf(),
        final(world).map == old(world).map,
        final(world).last_unit_id >= old(world).last_unit_id,
        msg.cmd@ == "login"@ ==> login_post(*g, *old(conn), *final(conn), msg, r) && *final(world)
            == *old(world),
        msg.cmd@ == "start"@ ==> start_post(
            *g,
            *old(world),
            *final(world),
            *old(conn),
            *final(conn),
            msg,
            now,
            r,
        ),
        msg.cmd@ == "speed"@ ==> speed_post(*old(world), *final(world), *old(conn), msg, r)
            && *final(conn) == *old(conn),
        msg.cmd@ == "click"@ ==> click_post(*old(world), *old(conn), msg, r) && *final(world)
            == *old(world) && *final(conn) == *old(conn),
        msg.cmd@ == "remove"@ ==> remove_post(
            *old(world),
            *final(world),
            *old(conn),
            *final(conn),
            msg,
            r,
        ),
        msg.cmd@ == "chat"@ ==> chat_post(*old(conn), msg, r) && *final(world) == *old(world)
            && *final(conn) == *old(conn),
        msg.cmd@ == "url"@ ==> url_post(*g, *old(conn), msg, r) && *final(world) == *old(world)
            && *final(conn) == *old(conn),
        msg.cmd@ == "ping"@ ==> ping_post(*old(world), *final(world), old(conn).conn_id, now, r)
            && *final(conn) == *old(conn),
        msg.cmd@ == "close"@ ==> (r matches Err(e) && e == CmdError::Close) && *final(world)
            == *old(world) && *final(conn) == *old(conn),
        !(msg.cmd@ == "login"@ || msg.cmd@ == "start"@ || msg.cmd@ == "speed"@ || msg.cmd@
            == "click"@ || msg.cmd@ == "remove"@ || msg.cmd@ == "chat"@ || msg.cmd@ == "url"@
            || msg.cmd@ == "ping"@ || msg.cmd@ == "close"@) ==> (r matches Ok(e) && e@.len() == 0)
            && *final(world) == *old(world) && *final(conn) == *old(conn),
{
    proof {
        lemma_cmd_tags_distinct();
    }
    if msg.cmd == "login".to_owned() {
        handle_login(g, conn, msg)
    } else if msg.cmd == "start".to_owned() {
        handle_start(g, world, conn, msg, now)
    } else if msg.cmd == "speed".to_owned() {
        handle_speed(world, conn, msg)
    } else if msg.cmd == "click".to_owned() {
        handle_click(world, conn, msg)
    } else if msg.cmd == "remove".to_owned() {
        handle_remove(world, conn, msg)
    } else if msg.cmd == "chat".to_owned() {
        handle_chat(conn, msg)
    } else if msg.cmd == "url".to_owned() {
        handle_url(g, conn, msg)
    } else if msg.cmd == "ping".to_owned() {
        world.touch_conn(conn.conn_id, now);
        Ok(Vec::new())
    } else if msg.cmd == "close".to_owned() {
        Err(CmdError::Close)
    } else {
        Ok(Vec::new())
    }
}

/// The units that survive when every unit whose id is listed in `ids` is
/// removed, in registry order.
pub open spec fn units_without(units: Seq<Unit>, ids: Seq<i32>) -> Seq<Unit>
    decreases units.len(),
{
    if units.len() == 0 {
        Seq::empty()
    } else {
        let rest = units_without(units.drop_last(), ids);
        if ids.contains(units.last().id) {
            rest
        } else {
            rest.push(units.last())
        }
    }
}

/// The units that survive when those with id `x` are removed, in order.
pub open spec fn strip_id(units: Seq<Unit>, x: i32) -> Seq<Unit>
    decreases units.len(),
{
    if units.len() == 0 {
        Seq::empty()
    } else {
        let rest = strip_id(units.drop_last(), x);
        if units.last().id == x {
            rest
        } else {
            rest.push(units.last())
        }
    }
}

/// The owned ids a teardown actually deletes, in owned order: those naming
/// a unit live in `w` that no earlier list entry already named.
pub open spec fn cleanup_list(ids: Seq<i32>, w: World) -> Seq<i32>
    decreases ids.len(),
{
    if ids.len() == 0 {
        Seq::empty()
    } else {
        let rest = cleanup_list(ids.drop_last(), w);
        if w.has_unit(ids.last()) && !ids.drop_last().contains(ids.last()) {
            rest.push(ids.last())
        } else {
            rest
        }
    }
}

/// Excluding nothing keeps every unit.
proof fn lemma_without_none(units: Seq<Unit>)
    ensures
        units_without(units, Seq::<i32>::empty()) == units,
    decreases units.len(),
{
    if units.len() > 0 {
        lemma_without_none(units.drop_last());
        assert(units.drop_last().push(units.last()) =~= units);
    }
}

/// Unfolds `cleanup_list` by one id.
proof fn lemma_cleanup_step(ids: Seq<i32>, w: World, k: int)
    requires
        0 <= k < ids.len(),
    ensures
        cleanup_list(ids.take(k + 1), w) == (if w.has_unit(ids[k]) && !ids.take(k).contains(
            ids[k],
        ) {
            cleanup_list(ids.take(k), w).push(ids[k])
        } else {
            cleanup_list(ids.take(k), w)
        }),
{
    assert(ids.take(k + 1).drop_last() =~= ids.take(k));
    assert(ids.take(k + 1).last() == ids[k]);
}

/// Excluding one more id strips exactly the units that carry it.
proof fn lemma_without_push_id(units: Seq<Unit>, ids: Seq<i32>, x: i32)
    ensures
        units_without(units, ids.push(x)) == strip_id(units_without(units, ids), x),
    decreases units.len(),
{
    if units.len() > 0 {
        lemma_without_push_id(units.drop_last(), ids, x);
        let u = units.last();
        let rest0 = units_without(units.drop_last(), ids);
        assert(ids.push(x).contains(u.id) <==> (ids.contains(u.id) || u.id == x)) by {
            if ids.contains(u.id) {
                let p = choose|p: int| 0 <= p < ids.len() && ids[p] == u.id;
                assert(ids.push(x)[p] == u.id);
            }
            if u.id == x {
                assert(ids.push(x)[ids.len() as int] == u.id);
            }
            if ids.push(x).contains(u.id) {
                let p = choose|p: int| 0 <= p < ids.push(x).len() && ids.push(x)[p] == u.id;
                if p < ids.len() {
                    assert(ids[p] == u.id);
                }
            }
        }
        if !ids.contains(u.id) {
            assert(rest0.push(u).drop_last() =~= rest0);
        }
    }
}

/// A sequence with no unit carrying id `x` is untouched by `strip_id`.
proof fn lemma_strip_absent(units: Seq<Unit>, x: i32)
    requires
        forall|a: int| 0 <= a < units.len() ==> (#[trigger] units[a]).id != x,
    ensures
        strip_id(units, x) == units,
    decreases units.len(),
{
    if units.len() > 0 {
        lemma_strip_absent(units.drop_last(), x);
        assert(units.drop_last().push(units.last()) =~= units);
    }
}

/// On a registry with pairwise distinct ids, stripping id `x` removes
/// exactly the one position that carries it.
proof fn lemma_strip_found(units: Seq<Unit>, x: i32, i: int)
    requires
        0 <= i < units.len(),
        units[i].id == x,
        forall|a: int, b: int|
            0 <= a < b < units.len() ==> (#[trigger] units[a]).id != (#[trigger] units[b]).id,
    ensures
        strip_id(units, x) == units.remove(i),
    decreases units.len(),
{
    let n = units.len() - 1;
    if i == n {
        assert forall|a: int| 0 <= a < units.drop_last().len() implies (#[trigger] units.drop_last(
        )[a]).id != x by {
            assert(units[a].id != units[n].id);
        }
        lemma_strip_absent(units.drop_last(), x);
        assert(units.remove(i) =~= units.drop_last());
    } else {
        assert(units.last().id != x) by {
            assert(units[i].id != units[n].id);
        }
        lemma_strip_found(units.drop_last(), x, i);
        units.remove_ensures(i);
        units.drop_last().remove_ensures(i);
        assert(strip_id(units, x) == units.drop_last().remove(i).push(units.last()));
        assert(units.drop_last().remove(i).push(units.last()) =~= units.remove(i));
    }
}

/// A unit id survives the exclusion of `ids` exactly when it was live and
/// is not excluded.
proof fn lemma_without_has(units: Seq<Unit>, ids: Seq<i32>, x: i32)
    ensures
        crate::world::seq_has_id(units_without(units, ids), x) <==> (crate::world::seq_has_id(
            units,
            x,
        ) && !ids.contains(x)),
    decreases units.len(),
{
    let w = units_without(units, ids);
    if units.len() == 0 {
    } else {
        lemma_without_has(units.drop_last(), ids, x);
        let u = units.last();
        let rest = units_without(units.drop_last(), ids);
        if crate::world::seq_has_id(units, x) {
            let i = choose|i: int| 0 <= i < units.len() && (#[trigger] units[i]).id == x;
            if i < units.len() - 1 {
                assert(units.drop_last()[i].id == x);
                assert(crate::world::seq_has_id(units.drop_last(), x));
            }
        }
        if crate::world::seq_has_id(units.drop_last(), x) {
            let i = choose|i: int|
                0 <= i < units.drop_last().len() && (#[trigger] units.drop_last()[i]).id == x;
            assert(units[i].id == x);
        }
        if !ids.contains(u.id) {
            assert(rest.push(u)[rest.len() as int] == u);
            assert forall|i: int| 0 <= i < rest.len() implies (#[trigger] rest.push(u)[i])
                == rest[i] by {}
            if crate::world::seq_has_id(rest, x) {
                let i = choose|i: int| 0 <= i < rest.len() && (#[trigger] rest[i]).id == x;
                assert(rest.push(u)[i].id == x);
            }
            if crate::world::seq_has_id(rest.push(u), x) {
                let i = choose|i: int|
                    0 <= i < rest.push(u).len() && (#[trigger] rest.push(u)[i]).id == x;
                if i < rest.len() {
                    assert(rest[i].id == x);
                }
            }
        }
    }
}

/// Tears one connection down: every unit it still owns is deleted — one
/// `remove{id}` broadcast each, in owned-list order — and its registry entry
/// is dropped. Units owned by nobody else and other connections survive
/// untouched, in order.
#[verifier::loop_isolation(false)]
pub fn cleanup_conn(world: &mut World, conn: ConnState) -> (effs: Vec<Effect>)
    requires
        old(world).wf(),
    ensures
        final(world).wf(),
        final(world).map == old(world).map,
        final(world).last_unit_id == old(world).last_unit_id,
        final(world).units@ == units_without(old(world).units@, conn.unit_ids@),
        forall|x: i32| conn.unit_ids@.contains(x) ==> !final(world).has_unit(x),
        !final(world).has_conn(conn.conn_id),
        !old(world).has_conn(conn.conn_id) ==> final(world).conns == old(world).conns,
        old(world).has_conn(conn.conn_id) ==> exists|i: int|
            0 <= i < old(world).conns@.len() && (#[trigger] old(world).conns@[i]).conn_id
                == conn.conn_id && final(world).conns@ == old(world).conns@.remove(i),
        ({
            let cl = cleanup_list(conn.unit_ids@, *old(world));
            effs@.len() == cl.len() && forall|q: int|
                0 <= q < cl.len() ==> (#[trigger] effs@[q]).is_broadcast()
                    && effs@[q].msg().is_remove(cl[q])
        }),
{
    let ghost w0 = *old(world);
    let ids = conn.unit_ids;
    proof {
        assert(ids@.take(0) =~= Seq::<i32>::empty());
        lemma_without_none(w0.units@);
    }
    let mut effs: Vec<Effect> = Vec::new();
    let mut k: usize = 0;
    while k < ids.len()
        invariant
            k <= ids@.len(),
            world.wf(),
            world.map == w0.map,
            world.conns == w0.conns,
            world.last_unit_id == w0.last_unit_id,
            world.units@ == units_without(w0.units@, ids@.take(k as int)),
            effs@.len() == cleanup_list(ids@.take(k as int), w0).len(),
            forall|q: int|
                0 <= q < effs@.len() ==> (#[trigger] effs@[q]).is_broadcast()
                    && effs@[q].msg().is_remove(cleanup_list(ids@.take(k as int), w0)[q]),
        decreases ids@.len() - k,
    {
        let x = ids[k];
        let ghost effs0 = effs@;
        let ghost cl0 = cleanup_list(ids@.take(k as int), w0);
        proof {
            assert(ids@.take(k as int + 1) =~= ids@.take(k as int).push(x));
            lemma_cleanup_step(ids@, w0, k as int);
            lemma_without_push_id(w0.units@, ids@.take(k as int), x);
            lemma_without_has(w0.units@, ids@.take(k as int), x);
        }
        match world.find_unit_index(x) {
            Some(i) => {
                proof {
                    assert(crate::world::seq_has_id(world.units@, x)) by {
                        assert(world.units@[i as int].id == x);
                    }
                    lemma_strip_found(world.units@, x, i as int);
                }
                world.remove_unit_at(i);
                effs.push(Effect::Broadcast { msg: Msg::remove_msg(x) });
                proof {
                    let cl1 = cleanup_list(ids@.take(k as int + 1), w0);
                    assert(cl1 == cl0.push(x));
                    assert forall|q: int| 0 <= q < effs@.len() implies (
                    #[trigger] effs@[q]).is_broadcast() && effs@[q].msg().is_remove(cl1[q]) by {
                        if q < cl0.len() {
                            assert(effs@[q] == effs0[q]);
                            assert(cl1[q] == cl0[q]);
                        } else {
                            assert(effs@[q] == effs@.last());
                            assert(cl1[q] == x);
                        }
                    }
                }
            },
            None => {
                proof {
                    assert(!crate::world::seq_has_id(world.units@, x));
                    assert forall|a: int| 0 <= a < world.units@.len() implies (
                    #[trigger] world.units@[a]).id != x by {}
                    lemma_strip_absent(world.units@, x);
                }
            },
        }
        k += 1;
    }
    proof {
        assert(ids@.take(ids@.len() as int) =~= ids@);
    }
    world.remove_conn(conn.conn_id);
    proof {
        assert forall|x: i32| ids@.contains(x) implies !world.has_unit(x) by {
            lemma_without_has(w0.units@, ids@, x);
        }
    }
    effs
}

/// The nine command tags are pairwise different strings.
proof fn lemma_cmd_tags_distinct()
    ensures
        "login"@ != "start"@,
        "login"@ != "speed"@,
        "login"@ != "click"@,
        "login"@ != "remove"@,
        "login"@ != "chat"@,
        "login"@ != "url"@,
        "login"@ != "ping"@,
        "login"@ != "close"@,
        "start"@ != "speed"@,
        "start"@ != "click"@,
        "start"@ != "remove"@,
        "start"@ != "chat"@,
        "start"@ != "url"@,
        "start"@ != "ping"@,
        "start"@ != "close"@,
        "speed"@ != "click"@,
        "speed"@ != "remove"@,
        "speed"@ != "chat"@,
        "speed"@ != "url"@,
        "speed"@ != "ping"@,
        "speed"@ != "close"@,
        "click"@ != "remove"@,
        "click"@ != "chat"@,
        "click"@ != "url"@,
        "click"@ != "ping"@,
        "click"@ != "close"@,
        "remove"@ != "chat"@,
        "remove"@ != "url"@,
        "remove"@ != "ping"@,
        "remove"@ != "close"@,
        "chat"@ != "url"@,
        "chat"@ != "ping"@,
        "chat"@ != "close"@,
        "url"@ != "ping"@,
        "url"@ != "close"@,
        "ping"@ != "close"@,
{
    reveal_strlit("login");
    reveal_strlit("start");
    reveal_strlit("speed");
    reveal_strlit("click");
    reveal_strlit("remove");
    reveal_strlit("chat");
    reveal_strlit("url");
    reveal_strlit("ping");
    reveal_strlit("close");
    assert("login"@.len() == 5);
    assert("login"@[0] == 'l');
    assert("login"@[1] == 'o');
    assert("login"@[2] == 'g');
    assert("login"@[3] == 'i');
    assert("login"@[4] == 'n');
    assert("start"@.len() == 5);
    assert("start"@[0] == 's');
    assert("start"@[1] == 't');
    assert("start"@[2] == 'a');
    assert("start"@[3] == 'r');
    assert("start"@[4] == 't');
    assert("speed"@.len() == 5);
    assert("speed"@[0] == 's');
    assert("speed"@[1] == 'p');
    assert("speed"@[2] == 'e');
    assert("speed"@[3] == 'e');
    assert("speed"@[4] == 'd');
    assert("click"@.len() == 5);
    assert("click"@[0] == 'c');
    assert("click"@[1] == 'l');
    assert("click"@[2] == 'i');
    assert("click"@[3] == 'c');
    assert("click"@[4] == 'k');
    assert("remove"@.len() == 6);
    assert("remove"@[0] == 'r');
    assert("remove"@[1] == 'e');
    assert("remove"@[2] == 'm');
    assert("remove"@[3] == 'o');
    assert("remove"@[4] == 'v');
    assert("remove"@[5] == 'e');
    assert("chat"@.len() == 4);
    assert("chat"@[0] == 'c');
    assert("chat"@[1] == 'h');
    assert("chat"@[2] == 'a');
    assert("chat"@[3] == 't');
    assert("url"@.len() == 3);
    assert("url"@[0] == 'u');
    assert("url"@[1] == 'r');
    assert("url"@[2] == 'l');
    assert("ping"@.len() == 4);
    assert("ping"@[0] == 'p');
    assert("ping"@[1] == 'i');
    assert("ping"@[2] == 'n');
    assert("ping"@[3] == 'g');
    assert("close"@.len() == 5);
    assert("close"@[0] == 'c');
    assert("close"@[1] == 'l');
    assert("close"@[2] == 'o');
    assert("close"@[3] == 's');
    assert("close"@[4] == 'e');
}

} // verus!
