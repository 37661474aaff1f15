//! The movement pass: once per interval, every unit with a nonzero speed
//! whose cooldown has elapsed attempts one step. Every step of one pass is
//! decided against the occupancy as it stood when the pass began.

use vstd::prelude::*;
use crate::map::WorldMap;
use crate::msg::{Effect, Msg};
use crate::world::{Unit, World};

verus! {

/// How long a unit rests between timed moves, in milliseconds.
pub const MOVE_COOLDOWN_MS: u64 = 200;

/// Is the unit due to attempt a step at `now`?
pub open spec fn tick_due(u: Unit, now: u64) -> bool {
    u.speed != (0i32, 0i32) && u.cooldown <= now
}

/// Where the pass at `now` takes the unit, if anywhere: the destination
/// tile and whether it was a warp. A unit that is due steps to the tile its
/// speed points at; if that tile carries warp triggers the unit is relocated
/// to the last registered trigger's target instead, and if the tile is off
/// the grid, not vacant, or occupied by another unit — `occ` is the
/// occupancy index the pass started from — the unit stays put.
pub open spec fn tick_target(
    map: WorldMap,
    occ: Seq<Vec<i32>>,
    u: Unit,
    now: u64,
) -> Option<(int, int, bool)> {
    if !tick_due(u, now) {
        None
    } else {
        let cx = u.x as int + u.speed.0 as int;
        let cy = u.y as int + u.speed.1 as int;
        if !map.in_bounds(cx, cy) {
            None
        } else {
            let t = map.tile_at(cx, cy);
            if map.triggers@[t]@.len() > 0 {
                let w = map.triggers@[t]@.last();
                Some((w.to_x as int, w.to_y as int, true))
            } else if map.vacants@[t] && occ[t]@.len() == 0 {
                Some((cx, cy, false))
            } else {
                None
            }
        }
    }
}

/// The unit's record after the pass at `now`.
pub open spec fn tick_unit(map: WorldMap, occ: Seq<Vec<i32>>, u: Unit, now: u64) -> Unit {
    match tick_target(map, occ, u, now) {
        None => u,
        Some(tgt) => u.moved_to(tgt.0 as i32, tgt.1 as i32, (now + MOVE_COOLDOWN_MS) as u64),
    }
}

/// The registry positions of the units the pass at `now` moves, in order.
pub open spec fn moved_list(map: WorldMap, occ: Seq<Vec<i32>>, units: Seq<Unit>, now: u64) -> Seq<
    int,
>
    decreases units.len(),
{
    if units.len() == 0 {
        Seq::empty()
    } else {
        let rest = moved_list(map, occ, units.drop_last(), now);
        if tick_target(map, occ, units.last(), now) is Some {
            rest.push(units.len() - 1)
        } else {
            rest
        }
    }
}

/// Every entry of `moved_list` is a position of `units`.
proof fn lemma_moved_list_bounds(map: WorldMap, occ: Seq<Vec<i32>>, units: Seq<Unit>, now: u64)
    ensures
        forall|q: int|
            0 <= q < moved_list(map, occ, units, now).len()
            ==> 0 <= #[trigger] moved_list(map, occ, units, now)[q] < units.len(),
    decreases units.len(),
{
    if units.len() > 0 {
        lemma_moved_list_bounds(map, occ, units.drop_last(), now);
        let rest = moved_list(map, occ, units.drop_last(), now);
        let mv = moved_list(map, occ, units, now);
        assert forall|q: int| 0 <= q < mv.len() implies 0 <= #[trigger] mv[q] < units.len() by {
            if q < rest.len() {
                assert(mv[q] == rest[q]);
            }
        }
    }
}

/// Unfolds `moved_list` by one unit.
proof fn lemma_moved_list_step(
    map: WorldMap,
    occ: Seq<Vec<i32>>,
    units: Seq<Unit>,
    now: u64,
    i: int,
)
    requires
        0 <= i < units.len(),
    ensures
        moved_list(map, occ, units.take(i + 1), now) == (if tick_target(
            map,
            occ,
            units[i],
            now,
        ) is Some {
            moved_list(map, occ, units.take(i), now).push(i)
        } else {
            moved_list(map, occ, units.take(i), now)
        }),
{
    assert(units.take(i + 1).drop_last() =~= units.take(i));
    assert(units.take(i + 1).last() == units[i]);
}

/// The effect at hand broadcasts the `move` message of the unit at registry
/// position `i`: its landing tile, and the configured speed constant for a
/// timed step or `0` for a warp.
pub open spec fn tick_move_effect(
    e: Effect,
    map: WorldMap,
    occ: Seq<Vec<i32>>,
    units: Seq<Unit>,
    now: u64,
    unit_speed: i32,
    i: int,
) -> bool {
    let u = units[i];
    &&& e.is_broadcast()
    &&& tick_target(map, occ, u, now) matches Some(tgt) && e.msg().is_move(
        u.id,
        tgt.0 as i32,
        tgt.1 as i32,
        if tgt.2 {
            0i32
        } else {
            unit_speed
        },
    )
}

/// The outbound broadcasts of one pass: one `move` message per moved unit,
/// in registry order.
pub open spec fn tick_effects_ok(
    effs: Seq<Effect>,
    map: WorldMap,
    occ: Seq<Vec<i32>>,
    units: Seq<Unit>,
    now: u64,
    unit_speed: i32,
) -> bool {
    let mv = moved_list(map, occ, units, now);
    &&& effs.len() == mv.len()
    &&& forall|q: int|
            0 <= q < mv.len() ==> tick_move_effect(
                #[trigger] effs[q],
                map,
                occ,
                units,
                now,
                unit_speed,
                mv[q],
            )
}

/// One unit's planned step agrees with `tick_target` over the pass's
/// starting state, and any destination is on the grid.
pub open spec fn plan_ok(
    map: WorldMap,
    occ: Seq<Vec<i32>>,
    u: Unit,
    now: u64,
    p: Option<(i32, i32, bool)>,
) -> bool {
    match (p, tick_target(map, occ, u, now)) {
        (Option::None, Option::None) => true,
        (Option::Some(a), Option::Some(b)) => {
            &&& a.0 == b.0
            &&& a.1 == b.1
            &&& a.2 == b.2
            &&& map.in_bounds(a.0 as int, a.1 as int)
        },
        _ => false,
    }
}

impl World {
    /// One movement pass at instant `now`. Every unit's step is decided
    /// against the occupancy index as the pass found it, then all steps are
    /// applied in registry order; the returned broadcasts report each move.
    /// Nothing else about the world changes.
    #[verifier::loop_isolation(false)]
    pub fn tick(&mut self, now: u64, unit_speed: i32) -> (effs: Vec<Effect>)
        requires
            old(self).wf(),
            now + MOVE_COOLDOWN_MS <= u64::MAX,
        ensures
            final(self).wf(),
            final(self).map == old(self).map,
            final(self).conns == old(self).conns,
            final(self).last_unit_id == old(self).last_unit_id,
            final(self).units@.len() == old(self).units@.len(),
            forall|i: int|
                0 <= i < old(self).units@.len()
                ==> final(self).units@[i] == tick_unit(
                    old(self).map,
                    old(self).occupancy@,
                    #[trigger] old(self).units@[i],
                    now,
                ),
            tick_effects_ok(
                effs@,
                old(self).map,
                old(self).occupancy@,
                old(self).units@,
                now,
                unit_speed,
            ),
    {
        let n = self.units.len();

        // first pass: decide every step against the current occupancy
        let mut plans: Vec<Option<(i32, i32, bool)>> = Vec::new();
        let mut i: usize = 0;
        while i < n
            invariant
                i <= n,
                plans@.len() == i,
                *self == *old(self),
                forall|j: int|
                    0 <= j < i ==> plan_ok(
                        old(self).map,
                        old(self).occupancy@,
                        old(self).units@[j],
                        now,
                        #[trigger] plans@[j],
                    ),
            decreases n - i,
        {
            let ghost u0 = self.units@[i as int];
            let sx = self.units[i].speed.0;
            let sy = self.units[i].speed.1;
            let cooldown = self.units[i].cooldown;
            let mut plan: Option<(i32, i32, bool)> = None;
            if (sx != 0 || sy != 0) && cooldown <= now {
                let cx = self.units[i].x + sx;
                let cy = self.units[i].y + sy;
                if 0 <= cx && cx < self.map.width && 0 <= cy && cy < self.map.height {
                    let t = self.map.tile_index(cx, cy);
                    let ntr = self.map.triggers[t].len();
                    if ntr > 0 {
                        let w = self.map.triggers[t][ntr - 1];
                        proof {
                            assert(tick_target(old(self).map, old(self).occupancy@, u0, now)
                                == Some((w.to_x as int, w.to_y as int, true)));
                        }
                        plan = Some((w.to_x, w.to_y, true));
                    } else if self.map.vacants[t] && self.occupancy[t].len() == 0 {
                        proof {
                            assert(tick_target(old(self).map, old(self).occupancy@, u0, now)
                                == Some((cx as int, cy as int, false)));
                        }
                        plan = Some((cx, cy, false));
                    } else {
                        proof {
                            assert(tick_target(old(self).map, old(self).occupancy@, u0, now)
                                is None);
                        }
                    }
                } else {
                    proof {
                        assert(tick_target(old(self).map, old(self).occupancy@, u0, now) is None);
                    }
                }
            } else {
                proof {
                    assert(!tick_due(u0, now));
                }
            }
            plans.push(plan);
            i += 1;
        }

        // second pass: apply the steps and queue their broadcasts
        let mut effs: Vec<Effect> = Vec::new();
        i = 0;
        proof {
            lemma_moved_list_bounds(old(self).map, old(self).occupancy@, old(self).units@, now);
        }
        while i < n
            invariant
                i <= n,
                plans@.len() == n,
                self.wf(),
                self.map == old(self).map,
                self.conns == old(self).conns,
                self.last_unit_id == old(self).last_unit_id,
                self.units@.len() == n,
                forall|j: int|
                    0 <= j < n ==> plan_ok(
                        old(self).map,
                        old(self).occupancy@,
                        old(self).units@[j],
                        now,
                        #[trigger] plans@[j],
                    ),
                forall|j: int| i <= j < n ==> self.units@[j] == old(self).units@[j],
                forall|j: int|
                    0 <= j < i ==> self.units@[j] == tick_unit(
                        old(self).map,
                        old(self).occupancy@,
                        #[trigger] old(self).units@[j],
                        now,
                    ),
                tick_effects_ok(
                    effs@,
                    old(self).map,
                    old(self).occupancy@,
                    old(self).units@.take(i as int),
                    now,
                    unit_speed,
                ),
            decreases n - i,
        {
            let ghost u0 = old(self).units@[i as int];
            let ghost mv0 = moved_list(
                old(self).map,
                old(self).occupancy@,
                old(self).units@.take(i as int),
                now,
            );
            let ghost effs0 = effs@;
            let id = self.units[i].id;
            proof {
                lemma_moved_list_step(
                    old(self).map,
                    old(self).occupancy@,
                    old(self).units@,
                    now,
                    i as int,
                );
                assert(old(self).units@.take(i as int + 1) =~= old(self).units@.take(
                    i as int,
                ).push(u0));
            }
            match plans[i] {
                Some(p) => {
                    let (nx, ny, warped) = p;
                    proof {
                        assert(plan_ok(old(self).map, old(self).occupancy@, u0, now, Some(p)));
                    }
                    self.move_unit_at(i, nx, ny, now + MOVE_COOLDOWN_MS);
                    let sp = if warped {
                        0
                    } else {
                        unit_speed
                    };
                    effs.push(Effect::Broadcast { msg: Msg::move_msg(id, nx, ny, sp) });
                },
                None => {
                    proof {
                        assert(plan_ok(
                            old(self).map,
                            old(self).occupancy@,
                            u0,
                            now,
                            Option::<(i32, i32, bool)>::None,
                        ));
                    }
                },
            }
            proof {
                let map0 = old(self).map;
                let occ0 = old(self).occupancy@;
                let units_p = old(self).units@.take(i as int);
                let units_a = old(self).units@.take(i as int + 1);
                let mv1 = moved_list(map0, occ0, units_a, now);
                lemma_moved_list_bounds(map0, occ0, units_p, now);
                assert forall|q: int| 0 <= q < mv1.len() implies tick_move_effect(
                    #[trigger] effs@[q],
                    map0,
                    occ0,
                    units_a,
                    now,
                    unit_speed,
                    mv1[q],
                ) by {
                    if q < mv0.len() {
                        assert(effs@[q] == effs0[q]);
                        assert(mv1[q] == mv0[q]);
                        assert(0 <= mv0[q] < i);
                        assert(units_a[mv0[q]] == units_p[mv0[q]]);
                        assert(tick_move_effect(
                            effs0[q],
                            map0,
                            occ0,
                            units_p,
                            now,
                            unit_speed,
                            mv0[q],
                        ));
                    } else {
                        assert(mv1[q] == i);
                        assert(units_a[i as int] == u0);
                        assert(effs@[q] == effs@.last());
                    }
                }
                assert(tick_effects_ok(effs@, map0, occ0, units_a, now, unit_speed));
            }
            i += 1;
        }
        proof {
            assert(old(self).units@.take(n as int) =~= old(self).units@);
        }
        effs
    }
}

/// A unit that just stepped is not due again before its cooldown elapses: a
/// second pass strictly less than `MOVE_COOLDOWN_MS` later leaves it
/// untouched, however often passes run and whatever the occupancy has
/// become by then.
pub proof fn lemma_move_rate(
    map: WorldMap,
    occ1: Seq<Vec<i32>>,
    occ2: Seq<Vec<i32>>,
    u: Unit,
    t1: u64,
    t2: u64,
)
    requires
        tick_target(map, occ1, u, t1) is Some,
        t1 + MOVE_COOLDOWN_MS <= u64::MAX,
        t2 < t1 + MOVE_COOLDOWN_MS,
    ensures
        tick_unit(map, occ2, tick_unit(map, occ1, u, t1), t2) == tick_unit(map, occ1, u, t1),
{
    let u1 = tick_unit(map, occ1, u, t1);
    assert(u1.cooldown == t1 + MOVE_COOLDOWN_MS);
    assert(!tick_due(u1, t2));
}

/// A unit whose candidate tile carries warp triggers lands on the last
/// registered trigger's declared target, as a warp, whatever its own speed
/// vector was and whoever stands on either tile.
pub proof fn lemma_warp_lands_on_target(map: WorldMap, occ: Seq<Vec<i32>>, u: Unit, now: u64)
    requires
        tick_due(u, now),
        map.in_bounds(u.x as int + u.speed.0 as int, u.y as int + u.speed.1 as int),
        map.triggers@[map.tile_at(u.x as int + u.speed.0 as int, u.y as int + u.speed.1 as int)]@.len()
            > 0,
    ensures
        ({
            let w = map.triggers@[map.tile_at(
                u.x as int + u.speed.0 as int,
                u.y as int + u.speed.1 as int,
            )]@.last();
            &&& tick_target(map, occ, u, now) == Some((w.to_x as int, w.to_y as int, true))
            &&& tick_unit(map, occ, u, now).x == w.to_x
            &&& tick_unit(map, occ, u, now).y == w.to_y
        }),
{
}

} // verus!
