//! The shared world state: unit registry, per-tile occupancy index,
//! connection registry and the monotonic unit id counter.

use vstd::prelude::*;
use vstd::math::abs;
use crate::map::WorldMap;

verus! {

/// One player-controlled entity.
pub struct Unit {
    /// Globally unique, assigned by the server, never reused.
    pub id: i32,
    pub x: i32,
    pub y: i32,
    /// Current velocity, one tile per step: `(0,0)`, `(±1,0)` or `(0,±1)`.
    pub speed: (i32, i32),
    /// Last nonzero `speed`; aims interactions. Persists through stops.
    pub direction: (i32, i32),
    /// Earliest instant (milliseconds) of the next timed move.
    pub cooldown: u64,
    pub name: String,
    pub img: String,
    pub text: String,
    pub style: String,
}

impl Unit {
    /// The same unit standing on `(x, y)`, next eligible to move at
    /// `cooldown`.
    pub open spec fn moved_to(self, x: i32, y: i32, cooldown: u64) -> Unit {
        Unit { x, y, cooldown, ..self }
    }

    /// `speed` and `direction` are unit vectors or zero.
    pub open spec fn vel_ok(self) -> bool {
        &&& abs(self.speed.0 as int) + abs(self.speed.1 as int) <= 1
        &&& abs(self.direction.0 as int) + abs(self.direction.1 as int) <= 1
    }
}

/// One live connection: its id and the instant of its last sign of life.
#[derive(Debug, Clone, Copy, PartialEq, Eq, Structural)]
pub struct ConnEntry {
    pub conn_id: i32,
    /// Refreshed on registration and on every `ping` command.
    pub last_ping: u64,
}

/// A connection whose last sign of life is at least `timeout` ago.
pub open spec fn conn_stale(e: ConnEntry, now: u64, timeout: u64) -> bool {
    e.last_ping + timeout <= now
}

/// The ids of the stale connections among `conns`, in registry order.
pub open spec fn stale_ids(conns: Seq<ConnEntry>, now: u64, timeout: u64) -> Seq<i32>
    decreases conns.len(),
{
    if conns.len() == 0 {
        Seq::empty()
    } else {
        let rest = stale_ids(conns.drop_last(), now, timeout);
        if conn_stale(conns.last(), now, timeout) {
            rest.push(conns.last().conn_id)
        } else {
            rest
        }
    }
}

/// Some unit in the sequence carries this id.
pub open spec fn seq_has_id(units: Seq<Unit>, id: i32) -> bool {
    exists|i: int| 0 <= i < units.len() && (#[trigger] units[i]).id == id
}

/// No value occurs twice in the sequence.
pub open spec fn row_distinct(s: Seq<i32>) -> bool {
    forall|a: int, b: int| 0 <= a < b < s.len() ==> s[a] != s[b]
}

/// What removing position `k` from a duplicate-free row does to its
/// contents: the value at `k` is gone, everything else stays.
proof fn lemma_remove_row(s: Seq<i32>, k: int)
    requires
        0 <= k < s.len(),
        row_distinct(s),
    ensures
        row_distinct(s.remove(k)),
        !s.remove(k).contains(s[k]),
        forall|x: i32| x != s[k] ==> (s.remove(k).contains(x) <==> s.contains(x)),
        s.remove(k).len() == s.len() - 1,
        forall|q: int| 0 <= q < k ==> #[trigger] s.remove(k)[q] == s[q],
        forall|q: int| k <= q < s.len() - 1 ==> #[trigger] s.remove(k)[q] == s[q + 1],
{
    s.remove_ensures(k);
    let r = s.remove(k);
    assert(!r.contains(s[k])) by {
        if r.contains(s[k]) {
            let q = choose|q: int| 0 <= q < r.len() && r[q] == s[k];
            if q < k {
                assert(s[q] == s[k]);
            } else {
                assert(s[q + 1] == s[k]);
            }
        }
    }
    assert forall|x: i32| x != s[k] && s.contains(x) implies r.contains(x) by {
        let p = choose|p: int| 0 <= p < s.len() && s[p] == x;
        if p < k {
            assert(r[p] == x);
        } else {
            assert(r[p - 1] == x);
        }
    }
    assert forall|x: i32| x != s[k] && r.contains(x) implies s.contains(x) by {
        let q = choose|q: int| 0 <= q < r.len() && r[q] == x;
        if q < k {
            assert(s[q] == x);
        } else {
            assert(s[q + 1] == x);
        }
    }
}

/// Appending a fresh value to a duplicate-free row keeps it duplicate-free.
proof fn lemma_push_row(s: Seq<i32>, x: i32)
    requires
        row_distinct(s),
        !s.contains(x),
    ensures
        row_distinct(s.push(x)),
        forall|y: i32| s.push(x).contains(y) <==> (s.contains(y) || y == x),
{
    let r = s.push(x);
    assert forall|a: int, b: int| 0 <= a < b < r.len() implies r[a] != r[b] by {
        if b == s.len() {
            assert(r[a] == s[a]);
            assert(!s.contains(x) ==> s[a] != x);
        }
    }
    assert forall|y: i32| s.contains(y) || y == x implies r.contains(y) by {
        if y == x {
            assert(r[s.len() as int] == x);
        } else {
            let p = choose|p: int| 0 <= p < s.len() && s[p] == y;
            assert(r[p] == y);
        }
    }
    assert forall|y: i32| r.contains(y) implies s.contains(y) || y == x by {
        let p = choose|p: int| 0 <= p < r.len() && r[p] == y;
        if p < s.len() {
            assert(s[p] == y);
        }
    }
}

/// Position of `id` in a row known to hold it.
#[verifier::loop_isolation(false)]
fn index_of_id(row: &Vec<i32>, id: i32) -> (k: usize)
    requires
        row@.contains(id),
    ensures
        k < row@.len(),
        row@[k as int] == id,
{
    let mut k: usize = 0;
    while k < row.len()
        invariant
            k <= row@.len(),
            forall|j: int| 0 <= j < k ==> row@[j] != id,
        decreases row@.len() - k,
    {
        if row[k] == id {
            return k;
        }
        k += 1;
    }
    proof {
        let p = choose|p: int| 0 <= p < row@.len() && row@[p] == id;
        assert(false);
    }
    0
}

/// The aggregate the whole server shares: the map, every live unit, the
/// derived per-tile occupancy index, every live connection, and the counter
/// from which unit ids are issued.
pub struct World {
    pub map: WorldMap,
    pub units: Vec<Unit>,
    /// Per tile (row-major), the ids of the units standing on it.
    pub occupancy: Vec<Vec<i32>>,
    pub conns: Vec<ConnEntry>,
    /// The largest unit id issued so far; ids count up from 1.
    pub last_unit_id: i32,
}

impl World {
    /// Row-major tile index of the unit at position `i` of the registry.
    pub open spec fn unit_tile(self, i: int) -> int {
        self.map.tile_at(self.units@[i].x as int, self.units@[i].y as int)
    }

    /// Some live unit with id `id` stands on tile `t`.
    pub open spec fn unit_on_tile(self, t: int, id: i32) -> bool {
        exists|i: int|
            0 <= i < self.units@.len() && (#[trigger] self.units@[i]).id == id
                && self.unit_tile(i) == t
    }

    /// No two registry entries share a unit id.
    pub open spec fn ids_distinct(self) -> bool {
        forall|i: int, j: int|
            0 <= i < j < self.units@.len()
            ==> (#[trigger] self.units@[i]).id != (#[trigger] self.units@[j]).id
    }

    /// Every unit stands on the grid, moves by a unit vector at most, and
    /// carries an id drawn from the counter.
    pub open spec fn units_ok(self) -> bool {
        forall|i: int|
            0 <= i < self.units@.len()
            ==> {
                let u = #[trigger] self.units@[i];
                &&& self.map.in_bounds(u.x as int, u.y as int)
                &&& u.vel_ok()
                &&& 0 < u.id
                &&& u.id <= self.last_unit_id
            }
    }

    /// Every unit's id is listed on the tile the unit stands on.
    pub open spec fn occ_complete(self) -> bool {
        forall|i: int|
            0 <= i < self.units@.len()
            ==> self.occupancy@[self.unit_tile(i)]@.contains((#[trigger] self.units@[i]).id)
    }

    /// Every listed id belongs to a live unit standing on that very tile.
    pub open spec fn occ_sound(self) -> bool {
        forall|t: int, k: int|
            0 <= t < self.occupancy@.len() && 0 <= k < self.occupancy@[t]@.len()
            ==> self.unit_on_tile(t, #[trigger] self.occupancy@[t]@[k])
    }

    /// No tile lists an id twice.
    pub open spec fn occ_distinct(self) -> bool {
        forall|t: int|
            0 <= t < self.occupancy@.len() ==> row_distinct((#[trigger] self.occupancy@[t])@)
    }

    /// No two registry entries share a connection id.
    pub open spec fn conns_distinct(self) -> bool {
        forall|i: int, j: int|
            0 <= i < j < self.conns@.len()
            ==> (#[trigger] self.conns@[i]).conn_id != (#[trigger] self.conns@[j]).conn_id
    }

    /// The world invariant: a well-formed map, one occupancy list per tile,
    /// and an occupancy index that agrees exactly with the unit registry.
    pub open spec fn wf(self) -> bool {
        &&& self.map.wf()
        &&& 0 <= self.last_unit_id
        &&& self.occupancy@.len() == self.map.tile_count()
        &&& self.ids_distinct()
        &&& self.units_ok()
        &&& self.occ_complete()
        &&& self.occ_sound()
        &&& self.occ_distinct()
        &&& self.conns_distinct()
    }

    /// A connection with this id is registered.
    pub open spec fn has_conn(self, conn_id: i32) -> bool {
        exists|i: int| 0 <= i < self.conns@.len() && (#[trigger] self.conns@[i]).conn_id == conn_id
    }

    /// A unit with this id is live.
    pub open spec fn has_unit(self, id: i32) -> bool {
        seq_has_id(self.units@, id)
    }

    /// An empty world over a well-formed map.
    #[verifier::loop_isolation(false)]
    pub fn new(map: WorldMap) -> (w: World)
        requires
            map.wf(),
        ensures
            w.wf(),
            w.map == map,
            w.units@.len() == 0,
            w.conns@.len() == 0,
            w.last_unit_id == 0,
    {
        let tiles = map.vacants.len();
        let mut occupancy: Vec<Vec<i32>> = Vec::new();
        let mut t: usize = 0;
        while t < tiles
            invariant
                t <= tiles,
                occupancy@.len() == t,
                forall|t2: int| 0 <= t2 < t ==> (#[trigger] occupancy@[t2])@.len() == 0,
            decreases tiles - t,
        {
            occupancy.push(Vec::new());
            t += 1;
        }
        World { map, units: Vec::new(), occupancy, conns: Vec::new(), last_unit_id: 0 }
    }

    /// Position of the unit with id `id` in the registry, if it is live.
    #[verifier::loop_isolation(false)]
    pub fn find_unit_index(&self, id: i32) -> (r: Option<usize>)
        ensures
            match r {
                Some(i) => i < self.units@.len() && self.units@[i as int].id == id,
                None => !self.has_unit(id),
            },
    {
        let mut i: usize = 0;
        while i < self.units.len()
            invariant
                i <= self.units@.len(),
                forall|j: int| 0 <= j < i ==> (#[trigger] self.units@[j]).id != id,
            decreases self.units@.len() - i,
        {
            if self.units[i].id == id {
                return Some(i);
            }
            i += 1;
        }
        None
    }

    /// Registers a connection, or refreshes its liveness stamp if the id is
    /// already present.
    #[verifier::loop_isolation(false)]
    pub fn register_conn(&mut self, conn_id: i32, now: u64)
        requires
            old(self).wf(),
        ensures
            final(self).wf(),
            final(self).map == old(self).map,
            final(self).units == old(self).units,
            final(self).occupancy == old(self).occupancy,
            final(self).last_unit_id == old(self).last_unit_id,
            !old(self).has_conn(conn_id) ==> final(self).conns@ == old(self).conns@.push(
                ConnEntry { conn_id, last_ping: now },
            ),
            old(self).has_conn(conn_id) ==> exists|i: int|
                0 <= i < old(self).conns@.len() && (#[trigger] old(self).conns@[i]).conn_id
                    == conn_id && final(self).conns@ == old(self).conns@.update(
                    i,
                    ConnEntry { conn_id, last_ping: now },
                ),
    {
        let n = self.conns.len();
        let mut i: usize = 0;
        while i < n
            invariant
                n == self.conns@.len(),
                i <= n,
                forall|j: int| 0 <= j < i ==> (#[trigger] self.conns@[j]).conn_id != conn_id,
                *self == *old(self),
            decreases n - i,
        {
            if self.conns[i].conn_id == conn_id {
                let ghost c0 = self.conns@;
                let e = &mut self.conns[i];
                e.last_ping = now;
                proof {
                    let c1 = self.conns@;
                    assert(c1 == c0.update(i as int, ConnEntry { conn_id, last_ping: now }));
                    assert forall|a: int, b: int| 0 <= a < b < c1.len() implies (
                    #[trigger] c1[a]).conn_id != (#[trigger] c1[b]).conn_id by {
                        assert(c0[a].conn_id != c0[b].conn_id);
                    }
                }
                return ;
            }
            i += 1;
        }
        self.conns.push(ConnEntry { conn_id, last_ping: now });
    }

    /// Refreshes a connection's liveness stamp; ignores an unknown id.
    #[verifier::loop_isolation(false)]
    pub fn touch_conn(&mut self, conn_id: i32, now: u64)
        requires
            old(self).wf(),
        ensures
            final(self).wf(),
            final(self).map == old(self).map,
            final(self).units == old(self).units,
            final(self).occupancy == old(self).occupancy,
            final(self).last_unit_id == old(self).last_unit_id,
            !old(self).has_conn(conn_id) ==> *final(self) == *old(self),
            old(self).has_conn(conn_id) ==> exists|i: int|
                0 <= i < old(self).conns@.len() && (#[trigger] old(self).conns@[i]).conn_id
                    == conn_id && final(self).conns@ == old(self).conns@.update(
                    i,
                    ConnEntry { conn_id, last_ping: now },
                ),
    {
        let n = self.conns.len();
        let mut i: usize = 0;
        while i < n
            invariant
                n == self.conns@.len(),
                i <= n,
                forall|j: int| 0 <= j < i ==> (#[trigger] self.conns@[j]).conn_id != conn_id,
                *self == *old(self),
            decreases n - i,
        {
            if self.conns[i].conn_id == conn_id {
                let ghost c0 = self.conns@;
                let e = &mut self.conns[i];
                e.last_ping = now;
                proof {
                    let c1 = self.conns@;
                    assert(c1 == c0.update(i as int, ConnEntry { conn_id, last_ping: now }));
                    assert forall|a: int, b: int| 0 <= a < b < c1.len() implies (
                    #[trigger] c1[a]).conn_id != (#[trigger] c1[b]).conn_id by {
                        assert(c0[a].conn_id != c0[b].conn_id);
                    }
                }
                return ;
            }
            i += 1;
        }
    }

    /// Drops a connection from the registry; ignores an unknown id.
    #[verifier::loop_isolation(false)]
    pub fn remove_conn(&mut self, conn_id: i32)
        requires
            old(self).wf(),
        ensures
            final(self).wf(),
            final(self).map == old(self).map,
            final(self).units == old(self).units,
            final(self).occupancy == old(self).occupancy,
            final(self).last_unit_id == old(self).last_unit_id,
            !old(self).has_conn(conn_id) ==> *final(self) == *old(self),
            old(self).has_conn(conn_id) ==> exists|i: int|
                0 <= i < old(self).conns@.len() && (#[trigger] old(self).conns@[i]).conn_id
                    == conn_id && final(self).conns@ == old(self).conns@.remove(i),
            !final(self).has_conn(conn_id),
    {
        let n = self.conns.len();
        let mut i: usize = 0;
        while i < n
            invariant
                n == self.conns@.len(),
                i <= n,
                forall|j: int| 0 <= j < i ==> (#[trigger] self.conns@[j]).conn_id != conn_id,
                *self == *old(self),
            decreases n - i,
        {
            if self.conns[i].conn_id == conn_id {
                let ghost c0 = self.conns@;
                self.conns.remove(i);
                proof {
                    let c1 = self.conns@;
                    c0.remove_ensures(i as int);
                    assert forall|a: int, b: int| 0 <= a < b < c1.len() implies (
                    #[trigger] c1[a]).conn_id != (#[trigger] c1[b]).conn_id by {
                        if a < i {
                            assert(c1[a] == c0[a]);
                        } else {
                            assert(c1[a] == c0[a + 1]);
                        }
                        if b < i {
                            assert(c1[b] == c0[b]);
                        } else {
                            assert(c1[b] == c0[b + 1]);
                        }
                    }
                    assert forall|a: int| 0 <= a < c1.len() implies (#[trigger] c1[a]).conn_id
                        != conn_id by {
                        if a < i {
                            assert(c1[a] == c0[a]);
                            assert(c0[a].conn_id != c0[i as int].conn_id);
                        } else {
                            assert(c1[a] == c0[a + 1]);
                            assert(c0[a + 1].conn_id != c0[i as int].conn_id);
                        }
                    }
                }
                return ;
            }
            i += 1;
        }
    }

    /// The ids of every connection whose last sign of life is at least
    /// `timeout` milliseconds before `now`, in registry order. The caller is
    /// expected to force those connections closed; the registry itself is
    /// only cleaned up by the normal disconnect path.
    #[verifier::loop_isolation(false)]
    pub fn stale_conn_ids(&self, now: u64, timeout: u64) -> (r: Vec<i32>)
        ensures
            r@ == stale_ids(self.conns@, now, timeout),
    {
        let mut r: Vec<i32> = Vec::new();
        let mut i: usize = 0;
        while i < self.conns.len()
            invariant
                i <= self.conns@.len(),
                r@ == stale_ids(self.conns@.take(i as int), now, timeout),
            decreases self.conns@.len() - i,
        {
            let e = self.conns[i];
            proof {
                assert(self.conns@.take(i + 1).drop_last() =~= self.conns@.take(i as int));
                assert(self.conns@.take(i + 1).last() == self.conns@[i as int]);
            }
            if e.last_ping <= now && now - e.last_ping >= timeout {
                r.push(e.conn_id);
            }
            i += 1;
        }
        proof {
            assert(self.conns@.take(self.conns@.len() as int) =~= self.conns@);
        }
        r
    }

    /// Law: every live unit's id was drawn from the counter, so the id the
    /// next spawn will issue — `last_unit_id + 1` — belongs to no live unit.
    /// Since every operation leaves the counter where it is or raises it
    /// (see their contracts), issued ids are strictly increasing and never
    /// reused, even after a unit is removed.
    pub proof fn lemma_next_id_fresh(self)
        requires
            self.wf(),
            self.last_unit_id < i32::MAX,
        ensures
            forall|i: int|
                0 <= i < self.units@.len() ==> 0 < (#[trigger] self.units@[i]).id
                    <= self.last_unit_id,
            !self.has_unit((self.last_unit_id + 1) as i32),
    {
        if self.has_unit((self.last_unit_id + 1) as i32) {
            let i = choose|i: int|
                0 <= i < self.units@.len() && (#[trigger] self.units@[i]).id == (
                self.last_unit_id + 1) as i32;
            assert(self.units@[i].id <= self.last_unit_id);
        }
    }

    /// Law: a live unit's position and the occupancy index agree exactly.
    /// The unit's id is listed on the tile given by its own `(x, y)` — once,
    /// since no tile lists an id twice — and on no other tile.
    pub proof fn lemma_occupancy_exact(self, i: int)
        requires
            self.wf(),
            0 <= i < self.units@.len(),
        ensures
            self.occupancy@[self.unit_tile(i)]@.contains(self.units@[i].id),
            forall|t: int|
                0 <= t < self.occupancy@.len() && t != self.unit_tile(i)
                    ==> !self.occupancy@[t]@.contains(self.units@[i].id),
    {
        let id = self.units@[i].id;
        assert forall|t: int|
            0 <= t < self.occupancy@.len() && t != self.unit_tile(i) implies !self.occupancy@[t]@.contains(
            id,
        ) by {
            if self.occupancy@[t]@.contains(id) {
                let k = choose|k: int| 0 <= k < self.occupancy@[t]@.len() && self.occupancy@[t]@[k]
                    == id;
                assert(self.unit_on_tile(t, id));
                self.lemma_on_tile_unique(i, t);
            }
        }
    }

    /// A live unit's id names exactly one tile: the one it stands on.
    pub proof fn lemma_on_tile_unique(self, i: int, t: int)
        requires
            self.ids_distinct(),
            0 <= i < self.units@.len(),
        ensures
            self.unit_on_tile(t, self.units@[i].id) <==> t == self.unit_tile(i),
    {
        let id = self.units@[i].id;
        if self.unit_on_tile(t, id) {
            let j = choose|j: int|
                0 <= j < self.units@.len() && (#[trigger] self.units@[j]).id == id
                    && self.unit_tile(j) == t;
            assert(j == i);
        }
        if t == self.unit_tile(i) {
            assert(self.units@[i].id == id && self.unit_tile(i) == t);
        }
    }

    /// Changing a unit's record without touching its id or position keeps
    /// the world well-formed, provided its velocity stays a unit vector.
    pub proof fn lemma_wf_update_in_place(w0: World, w1: World, i: int)
        requires
            w0.wf(),
            0 <= i < w0.units@.len(),
            w1.map == w0.map,
            w1.occupancy == w0.occupancy,
            w1.conns == w0.conns,
            w1.last_unit_id == w0.last_unit_id,
            w1.units@.len() == w0.units@.len(),
            forall|j: int| 0 <= j < w0.units@.len() && j != i ==> w1.units@[j] == w0.units@[j],
            w1.units@[i].id == w0.units@[i].id,
            w1.units@[i].x == w0.units@[i].x,
            w1.units@[i].y == w0.units@[i].y,
            w1.units@[i].vel_ok(),
        ensures
            w1.wf(),
    {
        assert forall|j: int| 0 <= j < w1.units@.len() implies (#[trigger] w1.units@[j]).id
            == w0.units@[j].id && w1.unit_tile(j) == w0.unit_tile(j) by {
            if j != i {
                assert(w1.units@[j] == w0.units@[j]);
            }
        }
        assert(w1.ids_distinct());
        assert(w1.units_ok());
        assert forall|j: int| 0 <= j < w1.units@.len() implies w1.occupancy@[w1.unit_tile(
            j,
        )]@.contains((#[trigger] w1.units@[j]).id) by {
            assert(w0.occupancy@[w0.unit_tile(j)]@.contains(w0.units@[j].id));
        }
        assert(w1.occ_complete());
        assert forall|t: int, k: int|
            0 <= t < w1.occupancy@.len() && 0 <= k < w1.occupancy@[t]@.len() implies w1.unit_on_tile(
            t,
            #[trigger] w1.occupancy@[t]@[k],
        ) by {
            let e = w0.occupancy@[t]@[k];
            assert(w0.unit_on_tile(t, e));
            let j = choose|j: int|
                0 <= j < w0.units@.len() && (#[trigger] w0.units@[j]).id == e && w0.unit_tile(j)
                    == t;
            assert(w1.units@[j].id == e && w1.unit_tile(j) == t);
        }
        assert(w1.occ_sound());
    }

    /// Moves the unit at registry position `i` to the in-bounds tile
    /// `(nx, ny)`: its id leaves the old tile's occupancy list, joins the new
    /// tile's, and its record takes the new position and cooldown stamp, as
    /// one step. Everything else stays as it was.
    pub fn move_unit_at(&mut self, i: usize, nx: i32, ny: i32, cooldown: u64)
        requires
            old(self).wf(),
            i < old(self).units@.len(),
            old(self).map.in_bounds(nx as int, ny as int),
        ensures
            final(self).wf(),
            final(self).map == old(self).map,
            final(self).conns == old(self).conns,
            final(self).last_unit_id == old(self).last_unit_id,
            final(self).units@ == old(self).units@.update(
                i as int,
                old(self).units@[i as int].moved_to(nx, ny, cooldown),
            ),
    {
        let ghost w0 = *old(self);
        let id = self.units[i].id;
        let ox = self.units[i].x;
        let oy = self.units[i].y;
        let ot = self.map.tile_index(ox, oy);
        let nt = self.map.tile_index(nx, ny);
        let ghost row_o0 = self.occupancy@[ot as int]@;
        let ghost row_n0 = self.occupancy@[nt as int]@;
        proof {
            assert(w0.occupancy@[w0.unit_tile(i as int)]@.contains(w0.units@[i as int].id));
            assert(row_o0.contains(id));
        }
        let k = index_of_id(&self.occupancy[ot], id);
        proof {
            lemma_remove_row(row_o0, k as int);
            if nt != ot {
                // the new tile cannot list the id yet: the unit stands on `ot`
                w0.lemma_on_tile_unique(i as int, nt as int);
                if row_n0.contains(id) {
                    let q = choose|q: int| 0 <= q < row_n0.len() && row_n0[q] == id;
                    assert(w0.unit_on_tile(nt as int, id));
                }
                lemma_push_row(row_n0, id);
            } else {
                lemma_push_row(row_o0.remove(k as int), id);
            }
        }
        let row = &mut self.occupancy[ot];
        row.remove(k);
        let row2 = &mut self.occupancy[nt];
        row2.push(id);
        let u = &mut self.units[i];
        u.x = nx;
        u.y = ny;
        u.cooldown = cooldown;
        proof {
            let w1 = *self;
            let units0 = w0.units@;
            let units1 = w1.units@;
            let occ0 = w0.occupancy@;
            let occ1 = w1.occupancy@;
            let row_o1 = row_o0.remove(k as int);
            let base = if nt == ot {
                row_o1
            } else {
                row_n0
            };
            assert(units1 == units0.update(i as int, units0[i as int].moved_to(nx, ny, cooldown)));
            assert(occ1.len() == occ0.len());
            assert(occ1[nt as int]@ == base.push(id));
            assert(nt != ot ==> occ1[ot as int]@ == row_o1);
            assert(forall|t2: int|
                0 <= t2 < occ1.len() && t2 != ot && t2 != nt ==> occ1[t2] == occ0[t2]);
            assert(units0[i as int].id == id);
            assert(w1.unit_tile(i as int) == nt as int);
            assert forall|a: int| 0 <= a < units1.len() && a != i implies units1[a] == units0[a]
                && (#[trigger] units1[a]).id != id by {
                assert(units0[a].id != units0[i as int].id);
            }
            assert(w1.ids_distinct());
            assert(w1.units_ok());
            assert forall|j: int| 0 <= j < units1.len() implies w1.occupancy@[w1.unit_tile(
                j,
            )]@.contains((#[trigger] units1[j]).id) by {
                if j == i {
                    assert(occ1[nt as int]@.contains(id));
                } else {
                    let e = units0[j].id;
                    let tj = w0.unit_tile(j);
                    w0.map.lemma_tile_at_range(units0[j].x as int, units0[j].y as int);
                    assert(w0.occupancy@[tj]@.contains(e));
                    assert(e != id);
                    assert(w1.unit_tile(j) == tj);
                    if tj == nt as int {
                        assert(base.contains(e));
                        assert(occ1[nt as int]@.contains(e));
                    } else if tj == ot as int {
                        assert(occ1[ot as int]@ == row_o1);
                        assert(row_o1.contains(e));
                    } else {
                        assert(occ1[tj] == occ0[tj]);
                    }
                }
            }
            assert(w1.occ_complete());
            assert forall|t2: int, k2: int|
                0 <= t2 < occ1.len() && 0 <= k2 < occ1[t2]@.len() implies w1.unit_on_tile(
                t2,
                #[trigger] occ1[t2]@[k2],
            ) by {
                let e = occ1[t2]@[k2];
                if t2 == nt as int && k2 == base.len() {
                    assert(e == id);
                    assert(units1[i as int].id == id && w1.unit_tile(i as int) == t2);
                } else {
                    let e0 = if t2 == nt as int {
                        base[k2]
                    } else if t2 == ot as int {
                        row_o1[k2]
                    } else {
                        occ0[t2]@[k2]
                    };
                    assert(e == e0);
                    // every such entry already named a unit other than `i`
                    assert(e != id) by {
                        if t2 == nt as int {
                            if nt == ot {
                                assert(!row_o1.contains(id));
                                assert(row_o1[k2] == e);
                            } else {
                                assert(!row_n0.contains(id));
                                assert(row_n0[k2] == e);
                            }
                        } else if t2 == ot as int {
                            assert(!row_o1.contains(id));
                            assert(row_o1[k2] == e);
                        } else {
                            if e == id {
                                assert(w0.unit_on_tile(t2, e));
                                w0.lemma_on_tile_unique(i as int, t2);
                            }
                        }
                    }
                    // find it in the old occupancy
                    assert(w0.unit_on_tile(t2, e)) by {
                        if t2 == nt as int && nt == ot {
                            if k2 < k {
                                assert(row_o0[k2] == e);
                            } else {
                                assert(row_o0[k2 + 1] == e);
                            }
                            assert(row_o0.contains(e));
                            let q = choose|q: int| 0 <= q < row_o0.len() && row_o0[q] == e;
                            assert(occ0[t2]@[q] == e);
                        } else if t2 == ot as int {
                            if k2 < k {
                                assert(row_o0[k2] == e);
                            } else {
                                assert(row_o0[k2 + 1] == e);
                            }
                            assert(row_o0.contains(e));
                            let q = choose|q: int| 0 <= q < row_o0.len() && row_o0[q] == e;
                            assert(occ0[t2]@[q] == e);
                        } else {
                            assert(occ0[t2]@[k2] == e);
                        }
                    }
                    let j = choose|j: int|
                        0 <= j < units0.len() && (#[trigger] units0[j]).id == e && w0.unit_tile(j)
                            == t2;
                    assert(j != i);
                    assert(units1[j] == units0[j]);
                    assert(units1[j].id == e && w1.unit_tile(j) == t2);
                }
            }
            assert(w1.occ_sound());
            assert forall|t2: int| 0 <= t2 < occ1.len() implies row_distinct(
                (#[trigger] occ1[t2])@,
            ) by {
                if t2 == nt as int {
                    assert(occ1[t2]@ == base.push(id));
                } else if t2 == ot as int {
                    assert(occ1[t2]@ == row_o1);
                } else {
                    assert(occ1[t2] == occ0[t2]);
                }
            }
            assert(w1.occ_distinct());
        }
    }

    /// Deletes the unit at registry position `i`: its record leaves the
    /// registry and its id leaves its tile's occupancy list, as one step.
    /// Everything else stays as it was.
    pub fn remove_unit_at(&mut self, i: usize)
        requires
            old(self).wf(),
            i < old(self).units@.len(),
        ensures
            final(self).wf(),
            final(self).map == old(self).map,
            final(self).conns == old(self).conns,
            final(self).last_unit_id == old(self).last_unit_id,
            final(self).units@ == old(self).units@.remove(i as int),
            !final(self).has_unit(old(self).units@[i as int].id),
    {
        let ghost w0 = *old(self);
        let id = self.units[i].id;
        let ox = self.units[i].x;
        let oy = self.units[i].y;
        let ot = self.map.tile_index(ox, oy);
        let ghost row_o0 = self.occupancy@[ot as int]@;
        proof {
            assert(w0.occupancy@[w0.unit_tile(i as int)]@.contains(w0.units@[i as int].id));
            assert(row_o0.contains(id));
        }
        let k = index_of_id(&self.occupancy[ot], id);
        proof {
            lemma_remove_row(row_o0, k as int);
        }
        let row = &mut self.occupancy[ot];
        row.remove(k);
        self.units.remove(i);
        proof {
            let w1 = *self;
            let units0 = w0.units@;
            let units1 = w1.units@;
            let occ0 = w0.occupancy@;
            let occ1 = w1.occupancy@;
            let row_o1 = row_o0.remove(k as int);
            units0.remove_ensures(i as int);
            assert(units1 == units0.remove(i as int));
            assert(occ1.len() == occ0.len());
            assert(occ1[ot as int]@ == row_o1);
            assert(forall|t2: int| 0 <= t2 < occ1.len() && t2 != ot ==> occ1[t2] == occ0[t2]);
            assert(units0[i as int].id == id);
            assert forall|a: int| 0 <= a < units1.len() implies (units1[a] == if a < i {
                units0[a]
            } else {
                units0[a + 1]
            }) && (#[trigger] units1[a]).id != id by {
                if a < i {
                    assert(units1[a] == units0[a]);
                    assert(units0[a].id != units0[i as int].id);
                } else {
                    assert(units1[a] == units0[a + 1]);
                    assert(units0[a + 1].id != units0[i as int].id);
                }
            }
            assert forall|a: int, b: int| 0 <= a < b < units1.len() implies (
            #[trigger] units1[a]).id != (#[trigger] units1[b]).id by {
                let a0 = if a < i {
                    a
                } else {
                    a + 1
                };
                let b0 = if b < i {
                    b
                } else {
                    b + 1
                };
                assert(units0[a0].id != units0[b0].id);
            }
            assert(w1.ids_distinct());
            assert(w1.units_ok());
            assert forall|j: int| 0 <= j < units1.len() implies w1.occupancy@[w1.unit_tile(
                j,
            )]@.contains((#[trigger] units1[j]).id) by {
                let j0 = if j < i {
                    j
                } else {
                    j + 1
                };
                let e = units0[j0].id;
                let tj = w0.unit_tile(j0);
                w0.map.lemma_tile_at_range(units0[j0].x as int, units0[j0].y as int);
                assert(w0.occupancy@[tj]@.contains(e));
                assert(e != id);
                assert(w1.unit_tile(j) == tj);
                if tj == ot as int {
                    assert(row_o1.contains(e));
                } else {
                    assert(occ1[tj] == occ0[tj]);
                }
            }
            assert(w1.occ_complete());
            assert forall|t2: int, k2: int|
                0 <= t2 < occ1.len() && 0 <= k2 < occ1[t2]@.len() implies w1.unit_on_tile(
                t2,
                #[trigger] occ1[t2]@[k2],
            ) by {
                let e = occ1[t2]@[k2];
                assert(e != id) by {
                    if t2 == ot as int {
                        assert(!row_o1.contains(id));
                        assert(row_o1[k2] == e);
                    } else {
                        if e == id {
                            assert(occ0[t2]@[k2] == e);
                            assert(w0.unit_on_tile(t2, e));
                            w0.lemma_on_tile_unique(i as int, t2);
                        }
                    }
                }
                assert(w0.unit_on_tile(t2, e)) by {
                    if t2 == ot as int {
                        if k2 < k {
                            assert(row_o0[k2] == e);
                        } else {
                            assert(row_o0[k2 + 1] == e);
                        }
                        assert(row_o0.contains(e));
                        let q = choose|q: int| 0 <= q < row_o0.len() && row_o0[q] == e;
                        assert(occ0[t2]@[q] == e);
                    } else {
                        assert(occ0[t2]@[k2] == e);
                    }
                }
                let j0 = choose|j0: int|
                    0 <= j0 < units0.len() && (#[trigger] units0[j0]).id == e && w0.unit_tile(j0)
                        == t2;
                assert(j0 != i);
                let j = if j0 < i {
                    j0
                } else {
                    j0 - 1
                };
                assert(units1[j] == units0[j0]);
                assert(units1[j].id == e && w1.unit_tile(j) == t2);
            }
            assert(w1.occ_sound());
            assert forall|t2: int| 0 <= t2 < occ1.len() implies row_distinct(
                (#[trigger] occ1[t2])@,
            ) by {
                if t2 != ot {
                    assert(occ1[t2] == occ0[t2]);
                }
            }
            assert(w1.occ_distinct());
            assert forall|j: int| 0 <= j < units1.len() implies (#[trigger] units1[j]).id
                != id by {}
            assert(!w1.has_unit(id));
        }
    }

    /// Issues the next unit id and places a fresh, motionless unit on the
    /// in-bounds tile `(x, y)`, eligible to move at once.
    pub fn spawn_unit(
        &mut self,
        name: String,
        img: String,
        text: String,
        style: String,
        x: i32,
        y: i32,
        now: u64,
    ) -> (id: i32)
        requires
            old(self).wf(),
            old(self).map.in_bounds(x as int, y as int),
            old(self).last_unit_id < i32::MAX,
        ensures
            final(self).wf(),
            id == old(self).last_unit_id + 1,
            !old(self).has_unit(id),
            final(self).last_unit_id == id,
            final(self).map == old(self).map,
            final(self).conns == old(self).conns,
            final(self).units@ == old(self).units@.push(
                Unit {
                    id,
                    x,
                    y,
                    speed: (0i32, 0i32),
                    direction: (0i32, 0i32),
                    cooldown: now,
                    name,
                    img,
                    text,
                    style,
                },
            ),
    {
        self.last_unit_id = self.last_unit_id + 1;
        let id = self.last_unit_id;
        let t = self.map.tile_index(x, y);
        let u = Unit {
            id,
            x,
            y,
            speed: (0, 0),
            direction: (0, 0),
            cooldown: now,
            name,
            img,
            text,
            style,
        };
        let ghost uu = u;
        self.units.push(u);
        let row = &mut self.occupancy[t];
        row.push(id);
        proof {
            let w0 = *old(self);
            let w1 = *self;
            let units0 = w0.units@;
            let units1 = w1.units@;
            let occ0 = w0.occupancy@;
            let occ1 = w1.occupancy@;
            let n0 = units0.len() as int;
            assert(units1 == units0.push(uu));
            assert(occ1.len() == occ0.len());
            assert(occ1[t as int]@ == occ0[t as int]@.push(id));
            assert(forall|t2: int| 0 <= t2 < occ1.len() && t2 != t ==> occ1[t2] == occ0[t2]);
            // the fresh id exceeds every live id, so it is on no tile yet
            assert forall|q: int| 0 <= q < occ0[t as int]@.len() implies occ0[t as int]@[q]
                != id by {
                let e = occ0[t as int]@[q];
                assert(w0.unit_on_tile(t as int, e));
                let j = choose|j: int|
                    0 <= j < units0.len() && (#[trigger] units0[j]).id == e && w0.unit_tile(j)
                        == t as int;
                assert(units0[j].id <= w0.last_unit_id);
            }
            assert(!occ0[t as int]@.contains(id));
            lemma_push_row(occ0[t as int]@, id);
            assert forall|i: int| 0 <= i < units1.len() implies {
                let x = #[trigger] units1[i];
                &&& w1.map.in_bounds(x.x as int, x.y as int)
                &&& x.vel_ok()
                &&& 0 < x.id
                &&& x.id <= w1.last_unit_id
            } by {
                if i < n0 {
                    assert(units1[i] == units0[i]);
                } else {
                    assert(units1[i] == uu);
                }
            }
            assert(w1.units_ok());
            assert forall|i: int| 0 <= i < units1.len() implies w1.occupancy@[w1.unit_tile(
                i,
            )]@.contains((#[trigger] units1[i]).id) by {
                if i < n0 {
                    assert(units1[i] == units0[i]);
                    w0.map.lemma_tile_at_range(units0[i].x as int, units0[i].y as int);
                    assert(w0.occupancy@[w0.unit_tile(i)]@.contains(units0[i].id));
                    assert(w1.unit_tile(i) == w0.unit_tile(i));
                    if w0.unit_tile(i) == t as int {
                        assert(occ1[t as int]@.contains(units0[i].id));
                    } else {
                        assert(occ1[w0.unit_tile(i)] == occ0[w0.unit_tile(i)]);
                    }
                } else {
                    assert(units1[i] == uu);
                    assert(w1.unit_tile(i) == t as int);
                    assert(occ1[t as int]@.contains(id));
                }
            }
            assert(w1.occ_complete());
            assert forall|t2: int, k: int|
                0 <= t2 < occ1.len() && 0 <= k < occ1[t2]@.len() implies w1.unit_on_tile(
                t2,
                #[trigger] occ1[t2]@[k],
            ) by {
                let e = occ1[t2]@[k];
                if t2 == t as int && k == occ0[t as int]@.len() {
                    assert(units1[n0] == uu);
                    assert(units1[n0].id == id && w1.unit_tile(n0) == t as int);
                } else {
                    assert(occ0[t2]@[k] == e);
                    assert(w0.unit_on_tile(t2, e));
                    let j = choose|j: int|
                        0 <= j < units0.len() && (#[trigger] units0[j]).id == e && w0.unit_tile(j)
                            == t2;
                    assert(units1[j] == units0[j]);
                    assert(units1[j].id == e && w1.unit_tile(j) == t2);
                }
            }
            assert(w1.occ_sound());
            assert forall|t2: int| 0 <= t2 < occ1.len() implies row_distinct(
                (#[trigger] occ1[t2])@,
            ) by {
                if t2 != t {
                    assert(occ1[t2] == occ0[t2]);
                }
            }
            assert(w1.occ_distinct());
        }
        id
    }
}

} // verus!
