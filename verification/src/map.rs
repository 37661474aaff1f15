//! The immutable world grid: tile vacancy, warp triggers and spawn points.

use vstd::prelude::*;

verus! {

/// A warp rule attached to a tile: a unit about to enter the tile is
/// relocated to `(to_x, to_y)` instead.
#[derive(Debug, Clone, Copy, PartialEq, Eq, Structural)]
pub struct WarpTrigger {
    pub to_x: i32,
    pub to_y: i32,
}

/// One declarative trigger rule as the map source states it: entering
/// `(from_x, from_y)` relocates the unit to `(to_x, to_y)`.
#[derive(Debug, Clone, Copy, PartialEq, Eq, Structural)]
pub struct TriggerDef {
    pub from_x: i32,
    pub from_y: i32,
    pub to_x: i32,
    pub to_y: i32,
}

/// Why a map description was rejected.
#[derive(Debug, Clone, Copy, PartialEq, Eq, Structural)]
pub enum MapError {
    /// Width or height not positive, or the tile count overflows `i32`.
    BadDims,
    /// A tile layer whose length is not `width * height`.
    BadLayer,
    /// A trigger whose source or target lies outside the grid.
    BadTrigger,
    /// No spawn point, or a spawn point outside the grid.
    BadSpawn,
}

/// The static world grid. Immutable once built.
#[derive(Debug)]
pub struct WorldMap {
    pub width: i32,
    pub height: i32,
    /// One flag per tile, row-major: may a unit step onto this tile?
    pub vacants: Vec<bool>,
    /// Per tile, the warp triggers registered for it, in registration order.
    pub triggers: Vec<Vec<WarpTrigger>>,
    /// Where new units may spawn.
    pub init_places: Vec<(i32, i32)>,
}

impl WorldMap {
    /// Number of tiles.
    pub open spec fn tile_count(self) -> int {
        self.width * self.height
    }

    /// Is `(x, y)` a tile of the grid?
    pub open spec fn in_bounds(self, x: int, y: int) -> bool {
        0 <= x < self.width && 0 <= y < self.height
    }

    /// Row-major index of tile `(x, y)`.
    pub open spec fn tile_at(self, x: int, y: int) -> int {
        x + y * self.width
    }

    /// Well-formedness: positive dimensions whose product fits `i32`, one
    /// vacancy flag and one trigger list per tile, every trigger target and
    /// every spawn point on the grid, and at least one spawn point.
    pub open spec fn wf(self) -> bool {
        &&& 0 < self.width
        &&& 0 < self.height
        &&& self.width * self.height <= i32::MAX
        &&& self.vacants@.len() == self.tile_count()
        &&& self.triggers@.len() == self.tile_count()
        &&& forall|t: int, k: int|
                0 <= t < self.triggers@.len() && 0 <= k < self.triggers@[t]@.len()
                ==> self.in_bounds(
                    (#[trigger] self.triggers@[t]@[k]).to_x as int,
                    self.triggers@[t]@[k].to_y as int,
                )
        &&& self.init_places@.len() > 0
        &&& forall|k: int|
                0 <= k < self.init_places@.len()
                ==> self.in_bounds(
                    (#[trigger] self.init_places@[k]).0 as int,
                    self.init_places@[k].1 as int,
                )
    }

    /// A tile index that every in-bounds coordinate pair maps into the
    /// vacancy and trigger tables.
    pub proof fn lemma_tile_at_range(self, x: int, y: int)
        requires
            self.wf(),
            self.in_bounds(x, y),
        ensures
            0 <= self.tile_at(x, y) < self.tile_count(),
    {
        assert(x + y * self.width < self.width * self.height) by (nonlinear_arith)
            requires
                0 <= x < self.width,
                0 <= y < self.height,
        ;
        assert(0 <= x + y * self.width) by (nonlinear_arith)
            requires
                0 <= x,
                0 <= y,
                0 < self.width,
        ;
    }

    /// Row-major index of the in-bounds tile `(x, y)`.
    pub fn tile_index(&self, x: i32, y: i32) -> (idx: usize)
        requires
            self.wf(),
            self.in_bounds(x as int, y as int),
        ensures
            idx == self.tile_at(x as int, y as int),
            idx < self.tile_count(),
    {
        proof {
            self.lemma_tile_at_range(x as int, y as int);
        }
        let idx: i64 = x as i64 + (y as i64) * (self.width as i64);
        idx as usize
    }
}

/// Is the tile at index `t` left open by every layer? A tile is open unless
/// some layer puts a nonzero tile id there that is not in the vacant id set.
pub open spec fn tile_open(layers: Seq<Vec<i32>>, vacant_ids: Seq<i32>, t: int) -> bool {
    forall|l: int|
        0 <= l < layers.len()
        ==> ((#[trigger] layers[l])@[t] == 0 || vacant_ids.contains(layers[l]@[t]))
}

/// The warp triggers that the rules `defs` attach to the tile with row-major
/// index `t`, in registration order.
pub open spec fn warp_list(defs: Seq<TriggerDef>, width: int, t: int) -> Seq<WarpTrigger>
    decreases defs.len(),
{
    if defs.len() == 0 {
        Seq::empty()
    } else {
        let rest = warp_list(defs.drop_last(), width, t);
        let d = defs.last();
        if d.from_x + d.from_y * width == t {
            rest.push(WarpTrigger { to_x: d.to_x, to_y: d.to_y })
        } else {
            rest
        }
    }
}

/// Positive dimensions whose tile count fits `i32`.
pub open spec fn dims_ok(width: int, height: int) -> bool {
    0 < width && 0 < height && width * height <= i32::MAX
}

/// Every layer describes each tile exactly once.
pub open spec fn layers_ok(layers: Seq<Vec<i32>>, tiles: int) -> bool {
    forall|l: int| 0 <= l < layers.len() ==> (#[trigger] layers[l])@.len() == tiles
}

/// Every trigger rule names an on-grid source and target.
pub open spec fn defs_ok(defs: Seq<TriggerDef>, width: int, height: int) -> bool {
    forall|j: int|
        0 <= j < defs.len()
        ==> {
            let d = #[trigger] defs[j];
            &&& 0 <= d.from_x < width
            &&& 0 <= d.from_y < height
            &&& 0 <= d.to_x < width
            &&& 0 <= d.to_y < height
        }
}

/// At least one spawn point, all of them on the grid.
pub open spec fn places_ok(places: Seq<(i32, i32)>, width: int, height: int) -> bool {
    &&& places.len() > 0
    &&& forall|k: int|
            0 <= k < places.len()
            ==> 0 <= (#[trigger] places[k]).0 < width && 0 <= places[k].1 < height
}

/// The product of two `i32`-range values stays well inside `i64`.
proof fn lemma_i32_mul_fits(a: int, b: int)
    requires
        i32::MIN <= a <= i32::MAX,
        i32::MIN <= b <= i32::MAX,
    ensures
        -0x4000000000000000 <= a * b <= 0x4000000000000000,
{
    assert(-0x4000000000000000 <= a * b <= 0x4000000000000000) by (nonlinear_arith)
        requires
            -0x80000000 <= a <= 0x7fffffff,
            -0x80000000 <= b <= 0x7fffffff,
    ;
}

/// One vacancy flag per tile: tile `t` stays open unless some layer marks it.
#[verifier::loop_isolation(false)]
fn build_vacants(tiles: usize, layers: &Vec<Vec<i32>>, vacant_ids: &Vec<i32>) -> (r: Vec<bool>)
    requires
        layers_ok(layers@, tiles as int),
    ensures
        r@.len() == tiles,
        forall|t: int| 0 <= t < tiles ==> r@[t] == tile_open(layers@, vacant_ids@, t),
{
    let mut r: Vec<bool> = Vec::new();
    let mut t: usize = 0;
    while t < tiles
        invariant
            layers_ok(layers@, tiles as int),
            t <= tiles,
            r@.len() == t,
            forall|t2: int| 0 <= t2 < t ==> r@[t2] == tile_open(layers@, vacant_ids@, t2),
        decreases tiles - t,
    {
        let mut open = true;
        let mut l: usize = 0;
        while l < layers.len()
            invariant
                layers_ok(layers@, tiles as int),
                t < tiles,
                l <= layers@.len(),
                open == (forall|l2: int|
                    0 <= l2 < l
                    ==> ((#[trigger] layers@[l2])@[t as int] == 0
                        || vacant_ids@.contains(layers@[l2]@[t as int]))),
            decreases layers@.len() - l,
        {
            let v = layers[l][t];
            if v != 0 && !contains_i32(vacant_ids, v) {
                open = false;
            }
            l += 1;
        }
        r.push(open);
        t += 1;
    }
    r
}

/// Unfolds `warp_list` by one rule.
proof fn lemma_warp_list_step(defs: Seq<TriggerDef>, width: int, t: int, j: int)
    requires
        0 <= j < defs.len(),
    ensures
        warp_list(defs.take(j + 1), width, t) == (if defs[j].from_x + defs[j].from_y * width
            == t {
            warp_list(defs.take(j), width, t).push(
                WarpTrigger { to_x: defs[j].to_x, to_y: defs[j].to_y },
            )
        } else {
            warp_list(defs.take(j), width, t)
        }),
{
    assert(defs.take(j + 1).drop_last() =~= defs.take(j));
    assert(defs.take(j + 1).last() == defs[j]);
}

/// One trigger list per tile, each in registration order.
#[verifier::loop_isolation(false)]
fn build_triggers(tiles: usize, width: i32, defs: &Vec<TriggerDef>) -> (r: Vec<Vec<WarpTrigger>>)
    requires
        tiles <= i32::MAX,
    ensures
        r@.len() == tiles,
        forall|t: int| 0 <= t < tiles ==> (#[trigger] r@[t])@ == warp_list(defs@, width as int, t),
{
    let mut r: Vec<Vec<WarpTrigger>> = Vec::new();
    let mut t: usize = 0;
    while t < tiles
        invariant
            t <= tiles,
            r@.len() == t,
            forall|t2: int|
                0 <= t2 < t ==> (#[trigger] r@[t2])@ == warp_list(defs@, width as int, t2),
        decreases tiles - t,
    {
        let mut row: Vec<WarpTrigger> = Vec::new();
        let mut j: usize = 0;
        while j < defs.len()
            invariant
                t < tiles,
                j <= defs@.len(),
                row@ == warp_list(defs@.take(j as int), width as int, t as int),
            decreases defs@.len() - j,
        {
            let d = defs[j];
            proof {
                lemma_i32_mul_fits(d.from_y as int, width as int);
                lemma_warp_list_step(defs@, width as int, t as int, j as int);
            }
            let from_tile: i64 = d.from_x as i64 + (d.from_y as i64) * (width as i64);
            if from_tile == t as i64 {
                row.push(WarpTrigger { to_x: d.to_x, to_y: d.to_y });
            }
            j += 1;
        }
        proof {
            assert(defs@.take(defs@.len() as int) =~= defs@);
        }
        r.push(row);
        t += 1;
    }
    r
}

/// Checks a map description and assembles the grid. Accepts exactly the
/// descriptions whose dimensions, layers, trigger rules and spawn points are
/// well-formed; rejections are reported in that order.
#[verifier::loop_isolation(false)]
pub fn build_map(
    width: i32,
    height: i32,
    layers: Vec<Vec<i32>>,
    vacant_ids: Vec<i32>,
    defs: Vec<TriggerDef>,
    init_places: Vec<(i32, i32)>,
) -> (r: Result<WorldMap, MapError>)
    ensures
        !dims_ok(width as int, height as int) ==> r == Err::<WorldMap, MapError>(MapError::BadDims),
        dims_ok(width as int, height as int) && !layers_ok(layers@, width * height)
            ==> r == Err::<WorldMap, MapError>(MapError::BadLayer),
        dims_ok(width as int, height as int) && layers_ok(layers@, width * height)
            && !defs_ok(defs@, width as int, height as int)
            ==> r == Err::<WorldMap, MapError>(MapError::BadTrigger),
        dims_ok(width as int, height as int) && layers_ok(layers@, width * height)
            && defs_ok(defs@, width as int, height as int)
            && !places_ok(init_places@, width as int, height as int)
            ==> r == Err::<WorldMap, MapError>(MapError::BadSpawn),
        dims_ok(width as int, height as int) && layers_ok(layers@, width * height)
            && defs_ok(defs@, width as int, height as int)
            && places_ok(init_places@, width as int, height as int)
            ==> (r matches Ok(m) && {
                &&& m.wf()
                &&& m.width == width
                &&& m.height == height
                &&& m.init_places == init_places
                &&& forall|t: int|
                        0 <= t < m.tile_count()
                        ==> m.vacants@[t] == tile_open(layers@, vacant_ids@, t)
                &&& forall|t: int|
                        0 <= t < m.tile_count()
                        ==> (#[trigger] m.triggers@[t])@ == warp_list(defs@, width as int, t)
            }),
{
    if width <= 0 || height <= 0 {
        return Err(MapError::BadDims);
    }
    proof {
        lemma_i32_mul_fits(width as int, height as int);
    }
    let tiles64: i64 = (width as i64) * (height as i64);
    if tiles64 > i32::MAX as i64 {
        return Err(MapError::BadDims);
    }
    let tiles: usize = tiles64 as usize;

    let mut l: usize = 0;
    while l < layers.len()
        invariant
            tiles == width * height,
            forall|l2: int| 0 <= l2 < l ==> (#[trigger] layers@[l2])@.len() == tiles,
        decreases layers@.len() - l,
    {
        if layers[l].len() != tiles {
            return Err(MapError::BadLayer);
        }
        l += 1;
    }

    let mut j: usize = 0;
    while j < defs.len()
        invariant
            forall|j2: int|
                0 <= j2 < j
                ==> {
                    let d = #[trigger] defs@[j2];
                    &&& 0 <= d.from_x < width
                    &&& 0 <= d.from_y < height
                    &&& 0 <= d.to_x < width
                    &&& 0 <= d.to_y < height
                },
        decreases defs@.len() - j,
    {
        let d = defs[j];
        if !(0 <= d.from_x && d.from_x < width && 0 <= d.from_y && d.from_y < height && 0 <= d.to_x
            && d.to_x < width && 0 <= d.to_y && d.to_y < height) {
            return Err(MapError::BadTrigger);
        }
        j += 1;
    }

    if init_places.len() == 0 {
        return Err(MapError::BadSpawn);
    }
    let mut k: usize = 0;
    while k < init_places.len()
        invariant
            forall|k2: int|
                0 <= k2 < k
                ==> 0 <= (#[trigger] init_places@[k2]).0 < width && 0 <= init_places@[k2].1
                    < height,
        decreases init_places@.len() - k,
    {
        let p = init_places[k];
        if !(0 <= p.0 && p.0 < width && 0 <= p.1 && p.1 < height) {
            return Err(MapError::BadSpawn);
        }
        k += 1;
    }

    let vacants = build_vacants(tiles, &layers, &vacant_ids);
    let triggers = build_triggers(tiles, width, &defs);

    let m = WorldMap { width, height, vacants, triggers, init_places };
    proof {
        assert forall|t: int, k2: int|
            0 <= t < m.triggers@.len() && 0 <= k2 < m.triggers@[t]@.len() implies m.in_bounds(
            (m.triggers@[t]@[k2]).to_x as int,
            m.triggers@[t]@[k2].to_y as int,
        ) by {
            lemma_warp_list_targets(defs@, width as int, height as int, t, k2);
        }
    }
    Ok(m)
}

/// Every entry of a `warp_list` drawn from on-grid rules targets the grid.
proof fn lemma_warp_list_targets(defs: Seq<TriggerDef>, width: int, height: int, t: int, k: int)
    requires
        defs_ok(defs, width, height),
        0 <= k < warp_list(defs, width, t).len(),
    ensures
        0 <= warp_list(defs, width, t)[k].to_x < width,
        0 <= warp_list(defs, width, t)[k].to_y < height,
    decreases defs.len(),
{
    if defs.len() > 0 {
        assert(defs.drop_last() =~= defs.take(defs.len() - 1));
        let rest = warp_list(defs.drop_last(), width, t);
        if k < rest.len() {
            lemma_warp_list_targets(defs.drop_last(), width, height, t, k);
        }
    }
}

/// Does `v` hold `x`?
pub fn contains_i32(v: &Vec<i32>, x: i32) -> (r: bool)
    ensures
        r == v@.contains(x),
{
    let mut j: usize = 0;
    while j < v.len()
        invariant
            0 <= j <= v@.len(),
            forall|k: int| 0 <= k < j ==> v@[k] != x,
        decreases v@.len() - j,
    {
        if v[j] == x {
            return true;
        }
        j += 1;
    }
    false
}

} // verus!
