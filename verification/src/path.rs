//! Unit pathing.

use crate::pos::{Pos, Visibility};
use crate::tile::{lemma_index_in_area, lemma_index_injective, TileMap};
use crate::unit::{scaled_points, MovementPoints};
use ahash::{AHashMap, AHashSet};
use vstd::prelude::*;
use vstd::set_lib::{lemma_int_range, lemma_len_subset, set_int_range};

verus! {

/// A point on a path.
#[derive(Clone, Copy, Debug, PartialEq, Eq, Structural)]
pub struct PathPoint {
    /// The position of the tile
    pub pos: Pos,
    /// The number of turns from the start it takes to arrive here
    pub turn: u32,
    /// The movement the unit has left at this point.
    pub movement_left: MovementPoints,
}

/// A path between two points: never empty.
#[derive(Debug)]
pub struct Path {
    points: Vec<PathPoint>,
}

impl View for Path {
    type V = Seq<PathPoint>;

    closed spec fn view(&self) -> Seq<PathPoint> {
        self.points@
    }
}

/// The positions that a sequence of path points passes through.
pub open spec fn positions(points: Seq<PathPoint>) -> Seq<Pos> {
    points.map_values(|p: PathPoint| p.pos)
}

impl Path {
    /// A path through the given points.
    pub fn new(points: Vec<PathPoint>) -> (path: Self)
        requires
            points.len() > 0,
        ensures
            path@ == points@,
    {
        Path { points }
    }

    pub fn start(&self) -> (p: PathPoint)
        requires
            self@.len() > 0,
        ensures
            p == self@[0],
    {
        self.points[0]
    }

    pub fn end(&self) -> (p: PathPoint)
        requires
            self@.len() > 0,
        ensures
            p == self@.last(),
    {
        self.points[self.points.len() - 1]
    }

    pub fn points(&self) -> (points: &[PathPoint])
        ensures
            points@ == self@,
    {
        self.points.as_slice()
    }

    /// Gets the next point to move to, if we begin at the starting position,
    /// and drops it from the path.
    pub fn next(&mut self) -> (p: Option<PathPoint>)
        requires
            old(self)@.len() > 0,
        ensures
            old(self)@.len() == 1 ==> p is None && final(self)@ == old(self)@,
            old(self)@.len() > 1 ==> p == Some(old(self)@[1]) && final(self)@ == old(self)@.remove(1),
    {
        if self.points.len() == 1 {
            None
        } else {
            Some(self.points.remove(1))
        }
    }

    /// The next point to move to, without dropping it.
    pub fn peek(&self) -> (p: Option<PathPoint>)
        ensures
            self@.len() > 1 ==> p == Some(self@[1]),
            self@.len() <= 1 ==> p is None,
    {
        if self.points.len() > 1 {
            Some(self.points[1])
        } else {
            None
        }
    }
}

/// What the pathfinder needs to know of a tile.
#[derive(Clone, Copy, Debug, PartialEq, Eq, Structural)]
pub struct TileInfo {
    /// Whether the tile is ocean.
    pub ocean: bool,
    /// Whether a city stands on the tile.
    pub has_city: bool,
    /// Whether a unit of a player that the moving player is at war with
    /// stands on the tile.
    pub has_enemy_units: bool,
    /// What entering the tile costs.
    pub movement_cost: MovementPoints,
}

/// What the pathfinder needs to know of one of the units being moved.
#[derive(Clone, Copy, Debug, PartialEq, Eq, Structural)]
pub struct MovingUnit {
    /// Whether the unit is a ship.
    pub ship: bool,
    /// The movement the unit has left this turn.
    pub movement_left: MovementPoints,
    /// The whole movement points the unit gets each turn.
    pub movement: u32,
    /// Whether the unit can attack (has a positive strength).
    pub can_fight: bool,
}

/// What the units being moved together amount to.
#[derive(Clone, Copy, Debug, PartialEq, Eq, Structural)]
pub struct Movers {
    /// Whether any of them is a ship.
    pub ship: bool,
    /// The least movement any of them has left.
    pub movement_left: MovementPoints,
    /// The least movement any of them gets per turn.
    pub movement_per_turn: u32,
    /// Whether any of them can fight.
    pub can_fight: bool,
}

/// The summary of a group of units: with no units, no ship, no fighter, and
/// the largest movement amounts.
pub open spec fn summarize(units: Seq<MovingUnit>) -> Movers
    decreases units.len(),
{
    if units.len() == 0 {
        Movers {
            ship: false,
            movement_left: MovementPoints { fixed: u32::MAX },
            movement_per_turn: u32::MAX,
            can_fight: false,
        }
    } else {
        let rest = summarize(units.drop_last());
        let unit = units.last();
        Movers {
            ship: rest.ship || unit.ship,
            movement_left: if unit.movement_left.spec_fixed() < rest.movement_left.spec_fixed() {
                unit.movement_left
            } else {
                rest.movement_left
            },
            movement_per_turn: if unit.movement < rest.movement_per_turn {
                unit.movement
            } else {
                rest.movement_per_turn
            },
            can_fight: rest.can_fight || unit.can_fight,
        }
    }
}

/// `b` is one of the up to eight tiles around `a` that lie on the map.
pub open spec fn adjacent(map: TileMap<TileInfo>, a: Pos, b: Pos) -> bool {
    &&& map.in_bounds(b)
    &&& b != a
    &&& a.x <= b.x + 1 && b.x <= a.x + 1
    &&& a.y <= b.y + 1 && b.y <= a.y + 1
}

/// Whether the movers may step onto the tile at `pos` on their way to `end`:
/// the tile is on the map and seen (or the player cheats), ships stay on
/// ocean or in cities and land units off the ocean, and no enemy unit stands
/// in the way, except at the end of a path of units that can fight.
pub open spec fn can_enter(map: TileMap<TileInfo>, cheat_mode: bool, movers: Movers, end: Pos, pos: Pos) -> bool {
    let tile = map.tile_at(pos);
    &&& map.in_bounds(pos)
    &&& cheat_mode || map.visibility_at(pos) != Visibility::Hidden
    &&& if movers.ship { tile.ocean || tile.has_city } else { !tile.ocean }
    &&& (pos != end || !movers.can_fight) ==> !tile.has_enemy_units
}

/// What stepping onto the tile at `pos` costs the movers: the tile's cost,
/// but never more than a whole turn of movement.
pub open spec fn step_cost(map: TileMap<TileInfo>, movers: Movers, pos: Pos) -> u32 {
    let cost = map.tile_at(pos).movement_cost.spec_fixed();
    let cap = scaled_points(movers.movement_per_turn);
    if cost <= cap { cost } else { cap }
}

/// `walk` is a way across the map that the movers may take toward `end`:
/// every step goes to an adjacent tile that they may enter.
pub open spec fn is_walk(map: TileMap<TileInfo>, cheat_mode: bool, movers: Movers, end: Pos, walk: Seq<Pos>) -> bool {
    &&& walk.len() > 0
    &&& forall|i: int| 0 <= i < walk.len() - 1 ==> {
        &&& adjacent(map, #[trigger] walk[i], walk[i + 1])
        &&& can_enter(map, cheat_mode, movers, end, walk[i + 1])
    }
}

/// The movers can get from `start` to `end`.
pub open spec fn reachable(map: TileMap<TileInfo>, cheat_mode: bool, movers: Movers, start: Pos, end: Pos) -> bool {
    exists|walk: Seq<Pos>| {
        &&& is_walk(map, cheat_mode, movers, end, walk)
        &&& walk[0] == start
        &&& walk.last() == end
    }
}

/// Moving along `walk` point by point, the points recorded for the first `n`
/// positions, with the turn and the movement left after them. The first
/// position costs nothing; entering the second starts the first turn; each
/// further position costs its step cost; when the movement runs out, the next
/// turn starts with a full turn of movement.
pub open spec fn simulate_prefix(map: TileMap<TileInfo>, movers: Movers, walk: Seq<Pos>, n: nat) -> (Seq<PathPoint>, int, MovementPoints)
    decreases n,
{
    if n == 0 {
        (Seq::empty(), 0, movers.movement_left)
    } else {
        let previous = simulate_prefix(map, movers, walk, (n - 1) as nat);
        let i = n - 1;
        let turn = if i == 1 { previous.1 + 1 } else { previous.1 };
        let left = if i == 0 {
            previous.2
        } else {
            let cost = step_cost(map, movers, walk[i]);
            MovementPoints {
                fixed: if previous.2.fixed >= cost { (previous.2.fixed - cost) as u32 } else { 0 },
            }
        };
        let points = previous.0.push(PathPoint { pos: walk[i], turn: turn as u32, movement_left: left });
        if left.spec_fixed() == 0 {
            (points, turn + 1, MovementPoints { fixed: scaled_points(movers.movement_per_turn) })
        } else {
            (points, turn, left)
        }
    }
}

/// What moving along `walk` costs the movers: the step costs of every
/// position after the first.
pub open spec fn walk_cost(map: TileMap<TileInfo>, movers: Movers, walk: Seq<Pos>) -> int
    decreases walk.len(),
{
    if walk.len() <= 1 {
        0
    } else {
        walk_cost(map, movers, walk.drop_last()) + step_cost(map, movers, walk.last())
    }
}

/// Entering a tile never costs the movers more than one whole turn of their
/// movement, nor more than the tile's own cost, and it costs one of the two.
pub proof fn lemma_step_cost_at_most_a_turn(map: TileMap<TileInfo>, movers: Movers, pos: Pos)
    ensures
        step_cost(map, movers, pos) <= scaled_points(movers.movement_per_turn),
        step_cost(map, movers, pos) <= map.tile_at(pos).movement_cost.spec_fixed(),
        step_cost(map, movers, pos) == map.tile_at(pos).movement_cost.spec_fixed()
            || step_cost(map, movers, pos) == scaled_points(movers.movement_per_turn),
{
}

/// A walk costs at most a whole turn of movement per step; where every tile
/// it enters costs at least a turn, it costs exactly a turn per step.
pub proof fn lemma_walk_cost_per_step(map: TileMap<TileInfo>, movers: Movers, walk: Seq<Pos>)
    requires
        walk.len() >= 1,
    ensures
        walk_cost(map, movers, walk) <= (walk.len() - 1) * scaled_points(movers.movement_per_turn),
        (forall|i: int| 1 <= i < walk.len() ==> #[trigger] map.tile_at(walk[i]).movement_cost.spec_fixed() >= scaled_points(movers.movement_per_turn))
            ==> walk_cost(map, movers, walk) == (walk.len() - 1) * scaled_points(movers.movement_per_turn),
    decreases walk.len(),
{
    let t = scaled_points(movers.movement_per_turn) as int;
    if walk.len() > 1 {
        let d = walk.drop_last();
        lemma_walk_cost_per_step(map, movers, d);
        lemma_step_cost_at_most_a_turn(map, movers, walk.last());
        assert((walk.len() - 1) * t == (d.len() - 1) * t + t) by (nonlinear_arith)
            requires
                d.len() == walk.len() - 1,
        ;
        if forall|i: int| 1 <= i < walk.len() ==> #[trigger] map.tile_at(walk[i]).movement_cost.spec_fixed() >= scaled_points(movers.movement_per_turn) {
            assert forall|i: int| 1 <= i < d.len() implies #[trigger] map.tile_at(d[i]).movement_cost.spec_fixed() >= scaled_points(movers.movement_per_turn) by {
                assert(d[i] == walk[i]);
            }
            assert(map.tile_at(walk[walk.len() - 1]).movement_cost.spec_fixed() >= scaled_points(movers.movement_per_turn));
        }
    }
}

/// Where every tile costs the movers at least a whole turn (and a turn gives
/// some movement), a walk no costlier than another has no more steps: the
/// cheapest path is then a path with the fewest steps.
pub proof fn lemma_cheaper_has_no_more_steps(map: TileMap<TileInfo>, movers: Movers, walk: Seq<Pos>, other: Seq<Pos>)
    requires
        walk.len() >= 1,
        other.len() >= 1,
        scaled_points(movers.movement_per_turn) > 0,
        forall|p: Pos| map.tile_at(p).movement_cost.spec_fixed() >= scaled_points(movers.movement_per_turn),
        walk_cost(map, movers, walk) <= walk_cost(map, movers, other),
    ensures
        walk.len() <= other.len(),
{
    let t = scaled_points(movers.movement_per_turn) as int;
    lemma_walk_cost_per_step(map, movers, walk);
    lemma_walk_cost_per_step(map, movers, other);
    assert((walk.len() - 1) * t <= (other.len() - 1) * t);
    assert(walk.len() <= other.len()) by (nonlinear_arith)
        requires
            (walk.len() - 1) * t <= (other.len() - 1) * t,
            t > 0,
    ;
}

/// The points of a path along `walk`, with the turn each is reached in and
/// the movement left there.
pub open spec fn simulate(map: TileMap<TileInfo>, movers: Movers, walk: Seq<Pos>) -> Seq<PathPoint> {
    simulate_prefix(map, movers, walk, walk.len()).0
}


// ---------------------------------------------------------------------------
// The pathfinder's tables.

/// The entries of the table that records, for each reached tile, the tile
/// it was reached from.
pub uninterp spec fn came_from_entries(m: AHashMap<(u32, u32), (u32, u32)>) -> Map<(u32, u32), (u32, u32)>;

/// The entries of the table of the cheapest known cost of reaching each tile.
pub uninterp spec fn cost_entries(m: AHashMap<(u32, u32), u64>) -> Map<(u32, u32), u64>;

/// The members of the set of tiles waiting to be explored.
pub uninterp spec fn open_members(s: AHashSet<(u32, u32)>) -> Set<(u32, u32)>;

/// Calls `AHashMap::new`: the table is empty.
#[verifier::external_body]
fn came_from_new() -> (map: AHashMap<(u32, u32), (u32, u32)>)
    ensures
        came_from_entries(map).dom().is_empty(),
{
    AHashMap::new()
}

/// Calls `AHashMap::insert`: the key now maps to the value, other entries
/// are unchanged.
#[verifier::external_body]
fn came_from_insert(map: &mut AHashMap<(u32, u32), (u32, u32)>, key: (u32, u32), value: (u32, u32))
    ensures
        came_from_entries(*final(map)) == came_from_entries(*old(map)).insert(key, value),
{
    map.insert(key, value);
}

/// Calls `AHashMap::get` and copies the value out.
#[verifier::external_body]
fn came_from_get(map: &AHashMap<(u32, u32), (u32, u32)>, key: (u32, u32)) -> (found: Option<(u32, u32)>)
    ensures
        found == (if came_from_entries(*map).contains_key(key) {
            Some(came_from_entries(*map)[key])
        } else {
            None
        }),
{
    map.get(&key).copied()
}

/// Calls `HashMap::clear` through `AHashMap`'s `DerefMut`: the table is empty.
#[verifier::external_body]
fn came_from_clear(map: &mut AHashMap<(u32, u32), (u32, u32)>)
    ensures
        came_from_entries(*final(map)).dom().is_empty(),
{
    map.clear();
}

/// Calls `AHashMap::new`: the table is empty.
#[verifier::external_body]
fn cost_new() -> (map: AHashMap<(u32, u32), u64>)
    ensures
        cost_entries(map).dom().is_empty(),
{
    AHashMap::new()
}

/// Calls `AHashMap::insert`: the key now maps to the value, other entries
/// are unchanged.
#[verifier::external_body]
fn cost_insert(map: &mut AHashMap<(u32, u32), u64>, key: (u32, u32), value: u64)
    ensures
        cost_entries(*final(map)) == cost_entries(*old(map)).insert(key, value),
{
    map.insert(key, value);
}

/// Calls `AHashMap::get` and copies the value out.
#[verifier::external_body]
fn cost_get(map: &AHashMap<(u32, u32), u64>, key: (u32, u32)) -> (found: Option<u64>)
    ensures
        found == (if cost_entries(*map).contains_key(key) {
            Some(cost_entries(*map)[key])
        } else {
            None
        }),
{
    map.get(&key).copied()
}

/// Calls `HashMap::clear` through `AHashMap`'s `DerefMut`: the table is empty.
#[verifier::external_body]
fn cost_clear(map: &mut AHashMap<(u32, u32), u64>)
    ensures
        cost_entries(*final(map)).dom().is_empty(),
{
    map.clear();
}

/// Calls `AHashSet::new`: the set is empty.
#[verifier::external_body]
fn open_new() -> (set: AHashSet<(u32, u32)>)
    ensures
        open_members(set).is_empty(),
{
    AHashSet::new()
}

/// Calls `HashSet::insert` through `AHashSet`'s `DerefMut`: the key is a
/// member, the other members are unchanged.
#[verifier::external_body]
fn open_insert(set: &mut AHashSet<(u32, u32)>, key: (u32, u32))
    ensures
        open_members(*final(set)) == open_members(*old(set)).insert(key),
{
    set.insert(key);
}

/// Calls `HashSet::remove` through `AHashSet`'s `DerefMut`: the key is no
/// member, the other members are unchanged.
#[verifier::external_body]
fn open_remove(set: &mut AHashSet<(u32, u32)>, key: (u32, u32))
    ensures
        open_members(*final(set)) == open_members(*old(set)).remove(key),
{
    set.remove(&key);
}

/// Calls `HashSet::contains` through `AHashSet`'s `Deref`.
#[verifier::external_body]
fn open_contains(set: &AHashSet<(u32, u32)>, key: (u32, u32)) -> (found: bool)
    ensures
        found == open_members(*set).contains(key),
{
    set.contains(&key)
}

/// Calls `HashSet::clear` through `AHashSet`'s `DerefMut`: the set is empty.
#[verifier::external_body]
fn open_clear(set: &mut AHashSet<(u32, u32)>)
    ensures
        open_members(*final(set)).is_empty(),
{
    set.clear();
}


// ---------------------------------------------------------------------------
// Building blocks of the search.

/// The order in which `tile_neighbors` lists the tile at `b` around `a`.
pub open spec fn neighbor_code(a: Pos, b: Pos) -> int {
    (b.y + 1 - a.y) * 3 + (b.x + 1 - a.x)
}

/// Gets the neighbors of the given tile (sideways and diagonally) that lie
/// on the map.
pub fn tile_neighbors(map: &TileMap<TileInfo>, pos: Pos) -> (neighbors: Vec<Pos>)
    requires
        map.wf(),
    ensures
        forall|b: Pos| neighbors@.contains(b) <==> adjacent(*map, pos, b),
        neighbors@.no_duplicates(),
{
    let mut neighbors: Vec<Pos> = Vec::new();
    let width = map.width();
    let height = map.height();
    let mut k: u32 = 0;
    while k < 9
        invariant
            0 <= k <= 9,
            width == map.spec_width(),
            height == map.spec_height(),
            neighbors@.no_duplicates(),
            forall|b: Pos| neighbors@.contains(b) <==> (adjacent(*map, pos, b) && neighbor_code(pos, b) < k),
        decreases 9 - k,
    {
        let dx = (k % 3) as u64;
        let dy = (k / 3) as u64;
        let cx = pos.x as u64 + dx;
        let cy = pos.y as u64 + dy;
        if k != 4 && cx >= 1 && cy >= 1 && cx - 1 < width as u64 && cy - 1 < height as u64 {
            let b = Pos { x: (cx - 1) as u32, y: (cy - 1) as u32 };
            assert(neighbor_code(pos, b) == k);
            assert(adjacent(*map, pos, b));
            assert(!neighbors@.contains(b));
            let ghost before = neighbors@;
            neighbors.push(b);
            assert(neighbors@ == before.push(b));
            assert forall|c: Pos| neighbors@.contains(c) implies (adjacent(*map, pos, c) && neighbor_code(pos, c) < k + 1) by {
                let i = choose|i: int| 0 <= i < neighbors@.len() && neighbors@[i] == c;
                if i < before.len() {
                    assert(before[i] == c);
                    assert(before.contains(c));
                }
            }
            assert forall|c: Pos| (adjacent(*map, pos, c) && neighbor_code(pos, c) < k + 1) implies neighbors@.contains(c) by {
                if c == b {
                    assert(neighbors@[neighbors@.len() - 1] == c);
                } else {
                    if neighbor_code(pos, c) == k {
                        assert(c.x == b.x && c.y == b.y);
                    }
                    assert(before.contains(c));
                    let i = choose|i: int| 0 <= i < before.len() && before[i] == c;
                    assert(neighbors@[i] == c);
                }
            }
        } else {
            assert forall|c: Pos| adjacent(*map, pos, c) && neighbor_code(pos, c) < k + 1 implies neighbor_code(pos, c) < k by {
                if neighbor_code(pos, c) == k {
                    assert(c.x as u64 + 1 == cx && c.y as u64 + 1 == cy);
                }
            }
        }
        k = k + 1;
    }
    neighbors
}

/// Sums up the units being moved.
fn summarize_units(units: &Vec<MovingUnit>) -> (movers: Movers)
    ensures
        movers == summarize(units@),
{
    let mut ship = false;
    let mut movement_left = MovementPoints::from_fixed_u32(u32::MAX);
    let mut movement_per_turn: u32 = u32::MAX;
    let mut can_fight = false;
    let mut i: usize = 0;
    while i < units.len()
        invariant
            0 <= i <= units.len(),
            summarize(units@.take(i as int)) == (Movers { ship, movement_left, movement_per_turn, can_fight }),
        decreases units.len() - i,
    {
        let unit = units[i];
        assert(units@.take(i + 1).drop_last() == units@.take(i as int));
        ship = ship || unit.ship;
        if unit.movement_left.as_fixed_u32() < movement_left.as_fixed_u32() {
            movement_left = unit.movement_left;
        }
        if unit.movement < movement_per_turn {
            movement_per_turn = unit.movement;
        }
        can_fight = can_fight || unit.can_fight;
        i = i + 1;
    }
    assert(units@.take(units.len() as int) == units@);
    Movers { ship, movement_left, movement_per_turn, can_fight }
}

/// After `n >= 1` points, the turn count is at most `n`, or `n + 1` once the
/// second point has been entered.
proof fn lemma_turn_bound(map: TileMap<TileInfo>, movers: Movers, walk: Seq<Pos>, n: nat)
    ensures
        0 <= simulate_prefix(map, movers, walk, n).1 <= n + 1,
        simulate_prefix(map, movers, walk, n).0.len() == n,
        n <= 1 ==> simulate_prefix(map, movers, walk, n).1 <= n,
    decreases n,
{
    if n > 0 {
        lemma_turn_bound(map, movers, walk, (n - 1) as nat);
    }
}

/// The turns recorded for the first `n` points never decrease, start at 0,
/// and never pass the turn count reached after them.
proof fn lemma_prefix_turns(map: TileMap<TileInfo>, movers: Movers, walk: Seq<Pos>, n: nat)
    requires
        n + 1 <= u32::MAX,
    ensures
        ({
            let r = simulate_prefix(map, movers, walk, n);
            &&& forall|i: int, j: int| 0 <= i < j < n ==> (#[trigger] r.0[i]).turn <= (#[trigger] r.0[j]).turn
            &&& forall|i: int| 0 <= i < n ==> (#[trigger] r.0[i]).turn <= r.1
            &&& n > 0 ==> r.0[0].turn == 0
        }),
    decreases n,
{
    lemma_turn_bound(map, movers, walk, n);
    if n > 0 {
        let m = (n - 1) as nat;
        lemma_prefix_turns(map, movers, walk, m);
        lemma_turn_bound(map, movers, walk, m);
        let previous = simulate_prefix(map, movers, walk, m);
        let r = simulate_prefix(map, movers, walk, n);
        let i = n - 1;
        let turn = if i == 1 { previous.1 + 1 } else { previous.1 };
        assert(0 <= turn <= n);
        assert(r.0 == previous.0.push(r.0[i]));
        assert(r.0[i].turn == turn);
        assert forall|a: int, b: int| 0 <= a < b < n implies (#[trigger] r.0[a]).turn <= (#[trigger] r.0[b]).turn by {
            assert(r.0[a] == previous.0[a]);
            if b < i {
                assert(r.0[b] == previous.0[b]);
            }
        }
        assert forall|a: int| 0 <= a < n implies (#[trigger] r.0[a]).turn <= r.1 by {
            if a < i {
                assert(r.0[a] == previous.0[a]);
            }
        }
        if n > 1 {
            assert(r.0[0] == previous.0[0]);
        }
    }
}

/// Along a path, the turn in which each point is reached never decreases,
/// counting from turn 0 at the start.
pub proof fn lemma_path_turns(map: TileMap<TileInfo>, movers: Movers, walk: Seq<Pos>)
    requires
        walk.len() + 1 <= u32::MAX,
    ensures
        simulate(map, movers, walk).len() == walk.len(),
        walk.len() > 0 ==> simulate(map, movers, walk)[0].turn == 0,
        forall|i: int, j: int| 0 <= i < j < walk.len() ==> (#[trigger] simulate(map, movers, walk)[i]).turn <= (#[trigger] simulate(map, movers, walk)[j]).turn,
{
    lemma_turn_bound(map, movers, walk, walk.len());
    lemma_prefix_turns(map, movers, walk, walk.len());
}

/// Earlier points stay as they were when later points are added.
proof fn lemma_simulate_prefix_extends(map: TileMap<TileInfo>, movers: Movers, walk: Seq<Pos>, n: nat, m: nat)
    requires
        n <= m,
    ensures
        simulate_prefix(map, movers, walk, m).0.take(n as int) == simulate_prefix(map, movers, walk, n).0,
    decreases m - n,
{
    lemma_turn_bound(map, movers, walk, n);
    lemma_turn_bound(map, movers, walk, m);
    if n < m {
        lemma_simulate_prefix_extends(map, movers, walk, n, (m - 1) as nat);
        lemma_turn_bound(map, movers, walk, (m - 1) as nat);
        assert(simulate_prefix(map, movers, walk, m).0.take(n as int) == simulate_prefix(map, movers, walk, (m - 1) as nat).0.take(n as int));
    } else {
        assert(simulate_prefix(map, movers, walk, m).0.take(n as int) == simulate_prefix(map, movers, walk, m).0);
    }
}

/// Simulates the movers' way along `walk`, recording the turn in which each
/// point is reached and the movement left there.
fn simulate_walk(map: &TileMap<TileInfo>, movers: Movers, walk: &Vec<Pos>) -> (points: Vec<PathPoint>)
    requires
        map.wf(),
        forall|i: int| 1 <= i < walk.len() ==> map.in_bounds(#[trigger] walk@[i]),
        walk.len() + 1 <= u32::MAX,
    ensures
        points@ == simulate(*map, movers, walk@),
{
    let mut points: Vec<PathPoint> = Vec::new();
    let mut current_movement_left = movers.movement_left;
    let mut current_turn: u32 = 0;
    let mut i: usize = 0;
    while i < walk.len()
        invariant
            map.wf(),
            forall|j: int| 1 <= j < walk.len() ==> map.in_bounds(#[trigger] walk@[j]),
            walk.len() + 1 <= u32::MAX,
            0 <= i <= walk.len(),
            simulate_prefix(*map, movers, walk@, i as nat) == (points@, current_turn as int, current_movement_left),
        decreases walk.len() - i,
    {
        proof {
            lemma_turn_bound(*map, movers, walk@, i as nat);
            lemma_turn_bound(*map, movers, walk@, (i + 1) as nat);
        }
        let pos = walk[i];
        if i != 0 {
            if i == 1 {
                current_turn = current_turn + 1;
            }
            let tile = map.tile(pos).unwrap();
            let movement_cost = tile.movement_cost.min(movers.movement_per_turn);
            current_movement_left = current_movement_left.saturating_sub(movement_cost);
        }
        points.push(PathPoint { pos, turn: current_turn, movement_left: current_movement_left });
        if current_movement_left.is_exhausted() {
            current_turn = current_turn + 1;
            current_movement_left = MovementPoints::from_u32(movers.movement_per_turn);
        }
        i = i + 1;
    }
    points
}


// ---------------------------------------------------------------------------
// Facts about the search's bookkeeping.

/// The position a table key stands for.
pub open spec fn key_pos(k: (u32, u32)) -> Pos {
    Pos { x: k.0, y: k.1 }
}

/// The largest cost of a single step.
spec fn max_step() -> int {
    u32::MAX as int
}

/// Every tile that the movers may enter from the tile at `k` has been
/// reached, at a cost no higher than through `k`.
spec fn closed_at(map: TileMap<TileInfo>, cheat_mode: bool, movers: Movers, end: Pos, g: Map<(u32, u32), u64>, k: (u32, u32)) -> bool {
    forall|m: Pos|
        #![trigger adjacent(map, key_pos(k), m)]
        adjacent(map, key_pos(k), m) && can_enter(map, cheat_mode, movers, end, m)
            ==> g.contains_key(m.key()) && g[m.key()] <= g[k] + step_cost(map, movers, m)
}

/// The tile at `k` was reached from the tile at `p`: an adjacent tile, already
/// reached, whose cost plus the step is at most the cost of `k`, and which
/// ranks below `k` by cost, then by the time its cost was last lowered.
spec fn parent_ok(
    map: TileMap<TileInfo>,
    cheat_mode: bool,
    movers: Movers,
    end: Pos,
    g: Map<(u32, u32), u64>,
    stamp: Map<(u32, u32), nat>,
    k: (u32, u32),
    p: (u32, u32),
) -> bool {
    &&& g.contains_key(p)
    &&& adjacent(map, key_pos(p), key_pos(k))
    &&& can_enter(map, cheat_mode, movers, end, key_pos(k))
    &&& g[p] + step_cost(map, movers, key_pos(k)) <= g[k]
    &&& (g[p] < g[k] || stamp[p] < stamp[k])
}

/// The sum of the costs of the reached tiles.
spec fn total_cost(g: Map<(u32, u32), u64>, disc: Seq<(u32, u32)>) -> int
    decreases disc.len(),
{
    if disc.len() == 0 {
        0
    } else {
        total_cost(g, disc.drop_last()) + g[disc.last()]
    }
}

/// A tile's rank among the reached tiles: by cost, then by the time its cost
/// was last lowered.
spec fn rank(g: Map<(u32, u32), u64>, stamp: Map<(u32, u32), nat>, clock: nat, k: (u32, u32)) -> int {
    g[k] * clock + stamp[k]
}

/// The order in which tiles lie in the `TileMap`, with the tiles off the map
/// after them.
spec fn tile_code(map: TileMap<TileInfo>, k: (u32, u32)) -> int {
    if map.in_bounds(key_pos(k)) {
        map.index_of(key_pos(k))
    } else {
        map.area()
    }
}

proof fn lemma_total_nonneg(g: Map<(u32, u32), u64>, disc: Seq<(u32, u32)>)
    ensures
        total_cost(g, disc) >= 0,
    decreases disc.len(),
{
    if disc.len() > 0 {
        lemma_total_nonneg(g, disc.drop_last());
    }
}

proof fn lemma_total_frame(g1: Map<(u32, u32), u64>, g2: Map<(u32, u32), u64>, disc: Seq<(u32, u32)>)
    requires
        forall|i: int| 0 <= i < disc.len() ==> g1[#[trigger] disc[i]] == g2[disc[i]],
    ensures
        total_cost(g1, disc) == total_cost(g2, disc),
    decreases disc.len(),
{
    if disc.len() > 0 {
        let rest = disc.drop_last();
        assert forall|i: int| 0 <= i < rest.len() implies g1[#[trigger] rest[i]] == g2[rest[i]] by {
            assert(rest[i] == disc[i]);
        }
        lemma_total_frame(g1, g2, rest);
        assert(g1[disc[disc.len() - 1]] == g2[disc[disc.len() - 1]]);
    }
}

/// Lowering the cost of one reached tile lowers the total by the difference.
proof fn lemma_total_update(g: Map<(u32, u32), u64>, disc: Seq<(u32, u32)>, k: (u32, u32), v: u64)
    requires
        disc.no_duplicates(),
        disc.contains(k),
    ensures
        total_cost(g.insert(k, v), disc) == total_cost(g, disc) - g[k] + v,
    decreases disc.len(),
{
    let rest = disc.drop_last();
    if disc.last() == k {
        assert(!rest.contains(k)) by {
            if rest.contains(k) {
                let i = choose|i: int| 0 <= i < rest.len() && rest[i] == k;
                assert(disc[i] == disc[disc.len() - 1]);
            }
        }
        assert forall|i: int| 0 <= i < rest.len() implies g.insert(k, v)[#[trigger] rest[i]] == g[rest[i]] by {
            assert(rest[i] != k);
        }
        lemma_total_frame(g.insert(k, v), g, rest);
    } else {
        let i = choose|i: int| 0 <= i < disc.len() && disc[i] == k;
        assert(rest[i] == k);
        assert(rest.no_duplicates()) by {
            assert forall|a: int, b: int| 0 <= a < rest.len() && 0 <= b < rest.len() && a != b implies rest[a] != rest[b] by {
                assert(rest[a] == disc[a] && rest[b] == disc[b]);
            }
        }
        lemma_total_update(g, rest, k, v);
    }
}

/// Reaching a new tile adds its cost to the total.
proof fn lemma_total_push(g: Map<(u32, u32), u64>, disc: Seq<(u32, u32)>, k: (u32, u32), v: u64)
    requires
        !disc.contains(k),
    ensures
        total_cost(g.insert(k, v), disc.push(k)) == total_cost(g, disc) + v,
{
    assert(disc.push(k).drop_last() == disc);
    assert forall|i: int| 0 <= i < disc.len() implies g.insert(k, v)[#[trigger] disc[i]] == g[disc[i]] by {
        assert(disc[i] != k);
    }
    lemma_total_frame(g.insert(k, v), g, disc);
}

/// Distinct tiles, each on the map or the starting tile, number at most one
/// more than the tiles of the map.
proof fn lemma_distinct_tiles_bound(map: TileMap<TileInfo>, start: Pos, s: Seq<(u32, u32)>)
    requires
        map.wf(),
        s.no_duplicates(),
        forall|i: int| 0 <= i < s.len() ==> #[trigger] s[i] == start.key() || map.in_bounds(key_pos(s[i])),
    ensures
        s.len() <= map.area() + 1,
{
    let codes = s.map_values(|k: (u32, u32)| tile_code(map, k));
    assert forall|i: int| 0 <= i < s.len() implies 0 <= #[trigger] codes[i] <= map.area() by {
        if map.in_bounds(key_pos(s[i])) {
            lemma_index_in_area(s[i].0 as int, s[i].1 as int, map.spec_width() as int, map.spec_height() as int);
        }
    }
    assert(codes.no_duplicates()) by {
        assert forall|i: int, j: int| 0 <= i < codes.len() && 0 <= j < codes.len() && i != j implies codes[i] != codes[j] by {
            assert(s[i] != s[j]);
            if map.in_bounds(key_pos(s[i])) && map.in_bounds(key_pos(s[j])) {
                if codes[i] == codes[j] {
                    lemma_index_injective(s[i].0 as int, s[i].1 as int, s[j].0 as int, s[j].1 as int, map.spec_width() as int);
                }
            } else if map.in_bounds(key_pos(s[i])) {
                lemma_index_in_area(s[i].0 as int, s[i].1 as int, map.spec_width() as int, map.spec_height() as int);
            } else if map.in_bounds(key_pos(s[j])) {
                lemma_index_in_area(s[j].0 as int, s[j].1 as int, map.spec_width() as int, map.spec_height() as int);
            }
        }
    }
    codes.unique_seq_to_set();
    lemma_int_range(0, map.area() + 1);
    assert(codes.to_set().subset_of(set_int_range(0, map.area() + 1))) by {
        assert forall|c: int| codes.to_set().contains(c) implies set_int_range(0, map.area() + 1).contains(c) by {
            assert(codes.contains(c));
            let i = choose|i: int| 0 <= i < codes.len() && codes[i] == c;
        }
    }
    lemma_len_subset(codes.to_set(), set_int_range(0, map.area() + 1));
}

/// A tile's parent ranks below it.
proof fn lemma_parent_rank(g: Map<(u32, u32), u64>, stamp: Map<(u32, u32), nat>, clock: nat, k: (u32, u32), p: (u32, u32))
    requires
        g[p] <= g[k],
        g[p] < g[k] || stamp[p] < stamp[k],
        stamp[p] < clock,
        stamp[k] < clock,
    ensures
        0 <= rank(g, stamp, clock, p) < rank(g, stamp, clock, k),
{
    let a = g[p] as int;
    let b = g[k] as int;
    let c = clock as int;
    assert(0 <= a * c) by (nonlinear_arith)
        requires
            0 <= a,
            0 <= c,
    ;
    if a < b {
        assert(a * c + c <= b * c) by (nonlinear_arith)
            requires
                a < b,
                0 <= c,
        ;
        assert(0 <= b * c) by (nonlinear_arith)
            requires
                0 <= b,
                0 <= c,
        ;
    }
}

/// Every tile of a walk that starts at a reached tile has been reached, when
/// every reached tile is closed.
proof fn lemma_walk_reached(
    map: TileMap<TileInfo>,
    cheat_mode: bool,
    movers: Movers,
    end: Pos,
    g: Map<(u32, u32), u64>,
    walk: Seq<Pos>,
    n: int,
)
    requires
        is_walk(map, cheat_mode, movers, end, walk),
        0 <= n < walk.len(),
        g.contains_key(walk[0].key()),
        forall|k: (u32, u32)| #[trigger] g.contains_key(k) ==> closed_at(map, cheat_mode, movers, end, g, k),
    ensures
        g.contains_key(walk[n].key()),
    decreases n,
{
    if n > 0 {
        lemma_walk_reached(map, cheat_mode, movers, end, g, walk, n - 1);
        let k = walk[n - 1].key();
        assert(key_pos(k) == walk[n - 1]);
        assert(closed_at(map, cheat_mode, movers, end, g, k));
        assert(adjacent(map, walk[n - 1], walk[n]));
    }
}


// ---------------------------------------------------------------------------
// The search.

/// A tile waiting to be explored, with the cost at which it was reached.
#[derive(Clone, Copy, Debug, PartialEq, Eq, Structural)]
struct OpenEntry {
    score: u128,
    pos: Pos,
}

/// Pathfinding engine. Uses A* with an estimate of zero for the rest of the
/// way, which never overestimates: tiles are explored cheapest first, and the
/// search goes on until no tile waits, so the path it finds is a cheapest one.
///
/// Retains heap allocations for efficiency.
pub struct Pathfinder {
    open_set: Vec<OpenEntry>,
    in_open_set: AHashSet<(u32, u32)>,
    came_from: AHashMap<(u32, u32), (u32, u32)>,
    g_score: AHashMap<(u32, u32), u64>,
}

impl Pathfinder {
    /// No search is under way: every table is empty.
    pub closed spec fn is_idle(&self) -> bool {
        &&& self.open_set@.len() == 0
        &&& open_members(self.in_open_set).is_empty()
        &&& came_from_entries(self.came_from).dom().is_empty()
        &&& cost_entries(self.g_score).dom().is_empty()
    }

    pub fn new() -> (pathfinder: Self)
        ensures
            pathfinder.is_idle(),
    {
        Pathfinder {
            open_set: Vec::new(),
            in_open_set: open_new(),
            came_from: came_from_new(),
            g_score: cost_new(),
        }
    }

    fn reset(&mut self)
        ensures
            final(self).is_idle(),
    {
        self.open_set.clear();
        open_clear(&mut self.in_open_set);
        came_from_clear(&mut self.came_from);
        cost_clear(&mut self.g_score);
    }

    /// The bookkeeping of a search from `start` toward `end` holds together.
    /// `busy` names the tile whose neighbors are being explored, if any.
    spec fn search_inv(
        &self,
        map: TileMap<TileInfo>,
        cheat_mode: bool,
        movers: Movers,
        start: Pos,
        end: Pos,
        disc: Seq<(u32, u32)>,
        stamp: Map<(u32, u32), nat>,
        clock: nat,
        busy: Option<(u32, u32)>,
    ) -> bool {
        let g = cost_entries(self.g_score);
        let came = came_from_entries(self.came_from);
        let members = open_members(self.in_open_set);
        let open = self.open_set@;
        &&& map.wf()
        &&& map.area() + 2 <= u32::MAX
        &&& g.contains_key(start.key()) && g[start.key()] == 0
        &&& disc.no_duplicates()
        &&& disc.len() <= map.area() + 1
        &&& forall|k: (u32, u32)| #[trigger] g.contains_key(k) <==> disc.contains(k)
        &&& forall|k: (u32, u32)| #[trigger] came.contains_key(k) <==> (g.contains_key(k) && k != start.key())
        &&& forall|k: (u32, u32)| #[trigger] came.contains_key(k) ==> parent_ok(map, cheat_mode, movers, end, g, stamp, k, came[k])
        &&& forall|k: (u32, u32)| #[trigger] g.contains_key(k) ==> {
            &&& stamp.contains_key(k)
            &&& stamp[k] < clock
            &&& g[k] <= disc.len() * max_step()
            &&& (k == start.key() || map.in_bounds(key_pos(k)))
        }
        &&& forall|i: int| 0 <= i < open.len() ==> members.contains(#[trigger] open[i].pos.key())
        &&& forall|k: (u32, u32)| #[trigger] members.contains(k) ==> {
            &&& g.contains_key(k)
            &&& exists|i: int| 0 <= i < open.len() && #[trigger] open[i].pos.key() == k
        }
        &&& forall|i: int, j: int| 0 <= i < open.len() && 0 <= j < open.len() && i != j ==> #[trigger] open[i].pos != #[trigger] open[j].pos
        &&& forall|k: (u32, u32)| #[trigger] g.contains_key(k) ==> members.contains(k) || busy == Some(k) || k == end.key() || closed_at(map, cheat_mode, movers, end, g, k)
    }

    /// One tile of a search, with its bookkeeping.
    spec fn relaxed(
        &self,
        old_self: &Pathfinder,
        map: TileMap<TileInfo>,
        cheat_mode: bool,
        movers: Movers,
        start: Pos,
        end: Pos,
        e: Pos,
        m: Pos,
        old_disc: Seq<(u32, u32)>,
        disc: Seq<(u32, u32)>,
        stamp: Map<(u32, u32), nat>,
        clock: nat,
    ) -> bool {
        &&& self.search_inv(map, cheat_mode, movers, start, end, disc, stamp, clock, Some(e.key()))
        &&& cost_entries(self.g_score).contains_key(m.key())
        &&& forall|k: (u32, u32)| #[trigger] cost_entries(old_self.g_score).contains_key(k) ==> cost_entries(self.g_score).contains_key(k)
        &&& forall|k: (u32, u32)| #[trigger] cost_entries(old_self.g_score).contains_key(k)
            ==> cost_entries(self.g_score)[k] <= cost_entries(old_self.g_score)[k]
                && (k != m.key() ==> cost_entries(self.g_score)[k] == cost_entries(old_self.g_score)[k])
        &&& cost_entries(self.g_score)[m.key()] <= cost_entries(old_self.g_score)[e.key()] + step_cost(map, movers, m)
        &&& measure_below(
            disc.len(),
            total_cost(cost_entries(self.g_score), disc),
            self.open_set@.len(),
            old_disc.len(),
            total_cost(cost_entries(old_self.g_score), old_disc),
            old_self.open_set@.len(),
        )
    }

    /// Explores the step from the tile at `e` to its neighbor `m`: where it
    /// is cheaper than the cheapest known way to `m`, records it and puts `m`
    /// among the tiles waiting to be explored.
    fn relax(
        &mut self,
        map: &TileMap<TileInfo>,
        cheat_mode: bool,
        movers: Movers,
        start: Pos,
        end: Pos,
        e: Pos,
        m: Pos,
        Ghost(disc): Ghost<Seq<(u32, u32)>>,
        Ghost(stamp): Ghost<Map<(u32, u32), nat>>,
        Ghost(clock): Ghost<nat>,
    ) -> (r: (Ghost<Seq<(u32, u32)>>, Ghost<Map<(u32, u32), nat>>, Ghost<nat>))
        requires
            old(self).search_inv(*map, cheat_mode, movers, start, end, disc, stamp, clock, Some(e.key())),
            cost_entries(old(self).g_score).contains_key(e.key()),
            adjacent(*map, e, m),
            can_enter(*map, cheat_mode, movers, end, m),
        ensures
            final(self).relaxed(&*old(self), *map, cheat_mode, movers, start, end, e, m, disc, r.0@, r.1@, r.2@),
    {
        let ek = (e.x, e.y);
        let mk = (m.x, m.y);
        let ghost g = cost_entries(self.g_score);
        let ghost came = came_from_entries(self.came_from);
        let ghost members = open_members(self.in_open_set);
        let ghost open = self.open_set@;
        assert(key_pos(ek) == e && key_pos(mk) == m);
        let tile = map.tile(m).unwrap();
        let cost = tile.movement_cost.min(movers.movement_per_turn).as_fixed_u32() as u64;
        assert(cost == step_cost(*map, movers, m));
        let ge = cost_get(&self.g_score, ek).unwrap();
        assert(disc.len() * max_step() + max_step() <= u64::MAX) by (nonlinear_arith)
            requires
                disc.len() <= map.area() + 1,
                map.area() + 2 <= u32::MAX,
                max_step() == u32::MAX,
        ;
        let tentative = ge + cost;
        let better = match cost_get(&self.g_score, mk) {
            None => true,
            Some(gm) => tentative < gm,
        };
        if !better {
            proof {
                lemma_total_nonneg(g, disc);
            }
            return (Ghost(disc), Ghost(stamp), Ghost(clock));
        }
        assert(mk != start.key());
        let ghost is_new = !g.contains_key(mk);
        let ghost new_disc = if is_new { disc.push(mk) } else { disc };
        let ghost new_stamp = stamp.insert(mk, clock);
        let ghost new_clock = clock + 1;
        came_from_insert(&mut self.came_from, mk, ek);
        cost_insert(&mut self.g_score, mk, tentative);
        let was_member = open_contains(&self.in_open_set, mk);
        if !was_member {
            open_insert(&mut self.in_open_set, mk);
            let score = tentative as u128;
            self.open_set.push(OpenEntry { score, pos: m });
        }
        proof {
            let g2 = cost_entries(self.g_score);
            let came2 = came_from_entries(self.came_from);
            let members2 = open_members(self.in_open_set);
            let open2 = self.open_set@;
            assert(g2 == g.insert(mk, tentative));
            assert(came2 == came.insert(mk, ek));
            // The reached tiles.
            if is_new {
                assert(!disc.contains(mk));
                assert(new_disc.no_duplicates()) by {
                    assert forall|a: int, b: int| 0 <= a < new_disc.len() && 0 <= b < new_disc.len() && a != b implies new_disc[a] != new_disc[b] by {
                        if a < disc.len() && b < disc.len() {
                            assert(new_disc[a] == disc[a] && new_disc[b] == disc[b]);
                        } else if a < disc.len() {
                            assert(disc.contains(new_disc[a]));
                        } else {
                            assert(disc.contains(new_disc[b]));
                        }
                    }
                }
                assert forall|k: (u32, u32)| #[trigger] g2.contains_key(k) <==> new_disc.contains(k) by {
                    if new_disc.contains(k) && k != mk {
                        let i = choose|i: int| 0 <= i < new_disc.len() && new_disc[i] == k;
                        assert(disc[i] == k);
                    }
                    if g.contains_key(k) {
                        let i = choose|i: int| 0 <= i < disc.len() && disc[i] == k;
                        assert(new_disc[i] == k);
                    }
                    if k == mk {
                        assert(new_disc[disc.len() as int] == mk);
                    }
                }
                assert forall|i: int| 0 <= i < new_disc.len() implies #[trigger] new_disc[i] == start.key() || map.in_bounds(key_pos(new_disc[i])) by {
                    if i < disc.len() {
                        assert(disc[i] == new_disc[i]);
                        assert(g.contains_key(disc[i]));
                    }
                }
                lemma_distinct_tiles_bound(*map, start, new_disc);
                lemma_total_push(g, disc, mk, tentative);
                lemma_total_nonneg(g, disc);
            } else {
                assert(disc.contains(mk));
                lemma_total_update(g, disc, mk, tentative);
            }
            // The parents.
            assert forall|k: (u32, u32)| #[trigger] came2.contains_key(k) implies parent_ok(*map, cheat_mode, movers, end, g2, new_stamp, k, came2[k]) by {
                if k == mk {
                    assert(came2[k] == ek);
                    assert(ek != mk);
                } else {
                    assert(came.contains_key(k));
                    assert(parent_ok(*map, cheat_mode, movers, end, g, stamp, k, came[k]));
                    assert(came2[k] == came[k]);
                }
            }
            assert forall|k: (u32, u32)| #[trigger] g2.contains_key(k) implies {
                &&& new_stamp.contains_key(k)
                &&& new_stamp[k] < new_clock
                &&& g2[k] <= new_disc.len() * max_step()
                &&& (k == start.key() || map.in_bounds(key_pos(k)))
            } by {
                if k != mk {
                    assert(g.contains_key(k));
                    assert(disc.len() * max_step() <= new_disc.len() * max_step()) by (nonlinear_arith)
                        requires
                            disc.len() <= new_disc.len(),
                            0 <= max_step(),
                    ;
                } else if is_new {
                    assert(new_disc.len() * max_step() == disc.len() * max_step() + max_step()) by (nonlinear_arith)
                        requires
                            new_disc.len() == disc.len() + 1,
                    ;
                }
            }
            // The tiles waiting to be explored.
            assert forall|i: int| 0 <= i < open2.len() implies members2.contains(#[trigger] open2[i].pos.key()) by {
                if i < open.len() {
                    assert(open2[i] == open[i]);
                }
            }
            assert forall|k: (u32, u32)| #[trigger] members2.contains(k) implies {
                &&& g2.contains_key(k)
                &&& exists|i: int| 0 <= i < open2.len() && #[trigger] open2[i].pos.key() == k
            } by {
                if members.contains(k) {
                    let i = choose|i: int| 0 <= i < open.len() && #[trigger] open[i].pos.key() == k;
                    assert(open2[i] == open[i]);
                } else {
                    assert(k == mk && !was_member);
                    assert(open2[open.len() as int].pos.key() == k);
                }
            }
            assert forall|i: int, j: int| 0 <= i < open2.len() && 0 <= j < open2.len() && i != j implies #[trigger] open2[i].pos != #[trigger] open2[j].pos by {
                if i < open.len() && j < open.len() {
                    assert(open2[i] == open[i] && open2[j] == open[j]);
                } else if i < open.len() {
                    assert(open2[i] == open[i]);
                    assert(members.contains(open[i].pos.key()));
                    assert(open2[j].pos == m);
                } else {
                    assert(open2[j] == open[j]);
                    assert(members.contains(open[j].pos.key()));
                    assert(open2[i].pos == m);
                }
            }
            assert forall|k: (u32, u32)| #[trigger] g2.contains_key(k) implies members2.contains(k) || Some(e.key()) == Some(k) || k == end.key() || closed_at(*map, cheat_mode, movers, end, g2, k) by {
                if k != mk && !members.contains(k) && Some(e.key()) != Some(k) && k != end.key() {
                    assert(g.contains_key(k));
                    assert(closed_at(*map, cheat_mode, movers, end, g, k));
                    assert forall|n: Pos| #![trigger adjacent(*map, key_pos(k), n)] adjacent(*map, key_pos(k), n) && can_enter(*map, cheat_mode, movers, end, n) implies g2.contains_key(n.key()) && g2[n.key()] <= g2[k] + step_cost(*map, movers, n) by {
                        assert(g.contains_key(n.key()));
                        assert(g[n.key()] <= g[k] + step_cost(*map, movers, n));
                    }
                }
            }
        }
        (Ghost(new_disc), Ghost(new_stamp), Ghost(new_clock))
    }

    /// Explores every neighbor of the tile at `e`.
    fn explore(
        &mut self,
        map: &TileMap<TileInfo>,
        cheat_mode: bool,
        movers: Movers,
        start: Pos,
        end: Pos,
        e: Pos,
        Ghost(disc): Ghost<Seq<(u32, u32)>>,
        Ghost(stamp): Ghost<Map<(u32, u32), nat>>,
        Ghost(clock): Ghost<nat>,
    ) -> (r: (Ghost<Seq<(u32, u32)>>, Ghost<Map<(u32, u32), nat>>, Ghost<nat>))
        requires
            old(self).search_inv(*map, cheat_mode, movers, start, end, disc, stamp, clock, Some(e.key())),
            cost_entries(old(self).g_score).contains_key(e.key()),
            e != end,
        ensures
            final(self).search_inv(*map, cheat_mode, movers, start, end, r.0@, r.1@, r.2@, None),
            measure_below(
                r.0@.len(),
                total_cost(cost_entries(final(self).g_score), r.0@),
                final(self).open_set@.len(),
                disc.len(),
                total_cost(cost_entries(old(self).g_score), disc),
                old(self).open_set@.len(),
            ),
    {
        let neighbors = tile_neighbors(map, e);
        let ghost mut d = disc;
        let ghost mut st = stamp;
        let ghost mut cl = clock;
        proof {
            lemma_total_nonneg(cost_entries(self.g_score), disc);
        }
        let ghost ge = cost_entries(self.g_score)[e.key()];
        let mut j: usize = 0;
        while j < neighbors.len()
            invariant
                0 <= j <= neighbors.len(),
                forall|b: Pos| neighbors@.contains(b) <==> adjacent(*map, e, b),
                e != end,
                self.search_inv(*map, cheat_mode, movers, start, end, d, st, cl, Some(e.key())),
                cost_entries(self.g_score).contains_key(e.key()),
                cost_entries(self.g_score)[e.key()] == ge,
                forall|i: int| 0 <= i < j && can_enter(*map, cheat_mode, movers, end, #[trigger] neighbors@[i]) ==> {
                    &&& cost_entries(self.g_score).contains_key(neighbors@[i].key())
                    &&& cost_entries(self.g_score)[neighbors@[i].key()] <= ge + step_cost(*map, movers, neighbors@[i])
                },
                measure_below(
                    d.len(),
                    total_cost(cost_entries(self.g_score), d),
                    self.open_set@.len(),
                    disc.len(),
                    total_cost(cost_entries(old(self).g_score), disc),
                    old(self).open_set@.len(),
                ),
            decreases neighbors.len() - j,
        {
            let m = neighbors[j];
            assert(neighbors@.contains(m));
            if can_enter_exec(map, cheat_mode, &movers, end, m) {
                let ghost before = cost_entries(self.g_score);
                let (a, b, c) = self.relax(map, cheat_mode, movers, start, end, e, m, Ghost(d), Ghost(st), Ghost(cl));
                proof {
                    d = a@;
                    st = b@;
                    cl = c@;
                    assert(e.key() != m.key());
                    assert forall|i: int| 0 <= i < j + 1 && can_enter(*map, cheat_mode, movers, end, #[trigger] neighbors@[i]) implies {
                        &&& cost_entries(self.g_score).contains_key(neighbors@[i].key())
                        &&& cost_entries(self.g_score)[neighbors@[i].key()] <= ge + step_cost(*map, movers, neighbors@[i])
                    } by {
                        if i < j {
                            assert(before.contains_key(neighbors@[i].key()));
                        }
                    }
                }
            }
            j = j + 1;
        }
        proof {
            let g = cost_entries(self.g_score);
            assert(closed_at(*map, cheat_mode, movers, end, g, e.key())) by {
                assert(key_pos(e.key()) == e);
                assert forall|n: Pos| #![trigger adjacent(*map, key_pos(e.key()), n)] adjacent(*map, key_pos(e.key()), n) && can_enter(*map, cheat_mode, movers, end, n) implies g.contains_key(n.key()) && g[n.key()] <= g[e.key()] + step_cost(*map, movers, n) by {
                    assert(neighbors@.contains(n));
                    let i = choose|i: int| 0 <= i < neighbors@.len() && neighbors@[i] == n;
                }
            }
        }
        (Ghost(d), Ghost(st), Ghost(cl))
    }

    /// Follows the recorded steps back from `end` until a tile reached from
    /// nowhere, which is `start`.
    fn follow_chain(
        &self,
        map: &TileMap<TileInfo>,
        cheat_mode: bool,
        movers: Movers,
        start: Pos,
        end: Pos,
        Ghost(stamp): Ghost<Map<(u32, u32), nat>>,
        Ghost(clock): Ghost<nat>,
    ) -> (chain: Vec<Pos>)
        requires
            parents_inv(*map, cheat_mode, movers, start, end, cost_entries(self.g_score), came_from_entries(self.came_from), stamp, clock),
            cost_entries(self.g_score).contains_key(end.key()),
        ensures
            chain_ok(cost_entries(self.g_score), came_from_entries(self.came_from), stamp, clock, chain@),
            chain@[0] == end,
            chain@.last() == start,
    {
        let ghost g = cost_entries(self.g_score);
        let ghost came = came_from_entries(self.came_from);
        let mut chain: Vec<Pos> = Vec::new();
        chain.push(end);
        let mut current = end;
        proof {
            lemma_parent_rank_nonneg(g, stamp, clock, end.key());
        }
        loop
            invariant
                parents_inv(*map, cheat_mode, movers, start, end, g, came, stamp, clock),
                g == cost_entries(self.g_score),
                came == came_from_entries(self.came_from),
                chain_ok(g, came, stamp, clock, chain@),
                chain@[0] == end,
                chain@.last() == current,
                rank(g, stamp, clock, current.key()) >= 0,
            ensures
                chain_ok(g, came, stamp, clock, chain@),
                chain@[0] == end,
                chain@.last() == current,
                !came.contains_key(current.key()),
            decreases rank(g, stamp, clock, current.key()),
        {
            match came_from_get(&self.came_from, (current.x, current.y)) {
                Some(p) => {
                    let next = Pos { x: p.0, y: p.1 };
                    proof {
                        assert(next.key() == p);
                        let k = current.key();
                        assert(parent_ok(*map, cheat_mode, movers, end, g, stamp, k, p));
                        lemma_parent_rank(g, stamp, clock, k, p);
                        assert(chain@[chain@.len() - 1] == current);
                    }
                    let ghost before = chain@;
                    chain.push(next);
                    current = next;
                    proof {
                        lemma_chain_extend(g, came, stamp, clock, before, next);
                    }
                }
                None => {
                    break;
                }
            }
        }
        assert(current.key() == start.key());
        assert(current == start);
        chain
    }

    /// Follows the recorded steps back from `end` to `start`.
    #[verifier::rlimit(40)]
    fn trace_back(
        &self,
        map: &TileMap<TileInfo>,
        cheat_mode: bool,
        movers: Movers,
        start: Pos,
        end: Pos,
        Ghost(disc): Ghost<Seq<(u32, u32)>>,
        Ghost(stamp): Ghost<Map<(u32, u32), nat>>,
        Ghost(clock): Ghost<nat>,
        Ghost(busy): Ghost<Option<(u32, u32)>>,
    ) -> (walk: Vec<Pos>)
        requires
            self.search_inv(*map, cheat_mode, movers, start, end, disc, stamp, clock, busy),
            cost_entries(self.g_score).contains_key(end.key()),
        ensures
            walk@.len() > 0,
            walk@[0] == start,
            walk@.last() == end,
            is_walk(*map, cheat_mode, movers, end, walk@),
            walk@.len() <= map.area() + 1,
            forall|i: int| 1 <= i < walk@.len() ==> map.in_bounds(#[trigger] walk@[i]),
            walk@.no_duplicates(),
            walk_cost(*map, movers, walk@) <= cost_entries(self.g_score)[end.key()],
            start == end ==> walk@.len() == 1,
    {
        let ghost g = cost_entries(self.g_score);
        let ghost came = came_from_entries(self.came_from);
        let chain = self.follow_chain(map, cheat_mode, movers, start, end, Ghost(stamp), Ghost(clock));
        proof {
            lemma_chain_bound(*map, cheat_mode, movers, start, end, g, came, stamp, clock, chain@);
        }
        let mut walk: Vec<Pos> = Vec::new();
        let mut i = chain.len();
        while i > 0
            invariant
                0 <= i <= chain@.len(),
                walk@.len() == chain@.len() - i,
                forall|j: int| 0 <= j < walk@.len() ==> #[trigger] walk@[j] == chain@[chain@.len() - 1 - j],
            decreases i,
        {
            i = i - 1;
            walk.push(chain[i]);
        }
        proof {
            let n = chain@.len() as int;
            let w = walk@;
            let c = chain@;
            lemma_reversed_chain_walk(*map, cheat_mode, movers, start, end, g, came, stamp, clock, c, w);
            lemma_chain_walk_cost(*map, cheat_mode, movers, end, g, came, stamp, c, w, n - 1);
            assert(w.take(n) == w);
            assert(w[n - 1] == c[0]);
            assert forall|a: int, b: int| 0 <= a < w.len() && 0 <= b < w.len() && a != b implies w[a] != w[b] by {
                let ia = n - 1 - a;
                let ib = n - 1 - b;
                assert(w[a] == c[ia] && w[b] == c[ib]);
                if ia < ib {
                    assert(rank(g, stamp, clock, c[ib].key()) < rank(g, stamp, clock, c[ia].key()));
                } else {
                    assert(rank(g, stamp, clock, c[ia].key()) < rank(g, stamp, clock, c[ib].key()));
                }
            }
            if start == end && n > 1 {
                assert(rank(g, stamp, clock, c[n - 1].key()) < rank(g, stamp, clock, c[0].key()));
            }
        }
        walk
    }

    /// Takes the waiting tile with the lowest cost (the first such one) out
    /// of the tiles waiting to be explored.
    fn pop_best(
        &mut self,
        map: &TileMap<TileInfo>,
        cheat_mode: bool,
        movers: Movers,
        start: Pos,
        end: Pos,
        Ghost(disc): Ghost<Seq<(u32, u32)>>,
        Ghost(stamp): Ghost<Map<(u32, u32), nat>>,
        Ghost(clock): Ghost<nat>,
    ) -> (entry: OpenEntry)
        requires
            old(self).search_inv(*map, cheat_mode, movers, start, end, disc, stamp, clock, None),
            old(self).open_set@.len() > 0,
        ensures
            final(self).search_inv(*map, cheat_mode, movers, start, end, disc, stamp, clock, Some(entry.pos.key())),
            cost_entries(final(self).g_score).contains_key(entry.pos.key()),
            cost_entries(final(self).g_score) == cost_entries(old(self).g_score),
            final(self).open_set@.len() == old(self).open_set@.len() - 1,
            exists|i: int| 0 <= i < old(self).open_set@.len() && old(self).open_set@[i] == entry,
            forall|i: int| 0 <= i < old(self).open_set@.len() ==> entry.score <= #[trigger] old(self).open_set@[i].score,
    {
        let mut best: usize = 0;
        let mut i: usize = 1;
        while i < self.open_set.len()
            invariant
                0 <= best < self.open_set@.len(),
                1 <= i <= self.open_set@.len(),
                forall|j: int| 0 <= j < i ==> self.open_set@[best as int].score <= #[trigger] self.open_set@[j].score,
            decreases self.open_set@.len() - i,
        {
            if self.open_set[i].score < self.open_set[best].score {
                best = i;
            }
            i = i + 1;
        }
        let ghost members = open_members(self.in_open_set);
        let ghost open = self.open_set@;
        let entry = self.open_set.remove(best);
        let ek = (entry.pos.x, entry.pos.y);
        open_remove(&mut self.in_open_set, ek);
        proof {
            let members2 = open_members(self.in_open_set);
            let open2 = self.open_set@;
            assert(open2 == open.remove(best as int));
            assert(entry == open[best as int]);
            assert(open[best as int].pos.key() == ek);
            assert(members.contains(ek));
            assert forall|j: int| 0 <= j < open2.len() implies members2.contains(#[trigger] open2[j].pos.key()) by {
                if j < best {
                    assert(open2[j] == open[j]);
                    assert(open[j].pos != open[best as int].pos);
                } else {
                    assert(open2[j] == open[j + 1]);
                    assert(open[j + 1].pos != open[best as int].pos);
                }
            }
            assert forall|k: (u32, u32)| #[trigger] members2.contains(k) implies {
                &&& cost_entries(self.g_score).contains_key(k)
                &&& exists|j: int| 0 <= j < open2.len() && #[trigger] open2[j].pos.key() == k
            } by {
                assert(members.contains(k) && k != ek);
                let j = choose|j: int| 0 <= j < open.len() && #[trigger] open[j].pos.key() == k;
                if j < best {
                    assert(open2[j] == open[j]);
                } else {
                    assert(j != best);
                    assert(open2[j - 1] == open[j]);
                }
            }
            assert forall|a: int, b: int| 0 <= a < open2.len() && 0 <= b < open2.len() && a != b implies #[trigger] open2[a].pos != #[trigger] open2[b].pos by {
                let a1 = if a < best { a } else { a + 1 };
                let b1 = if b < best { b } else { b + 1 };
                assert(open2[a] == open[a1]);
                assert(open2[b] == open[b1]);
            }
        }
        entry
    }

    /// Computes the shortest path between two points for the given units:
    /// no other way between them costs the units less movement, and no tile
    /// comes twice on it. From a point to itself the path is that point.
    ///
    /// Returns `None` if no possible path exists.
    pub fn compute_shortest_path(
        &mut self,
        map: &TileMap<TileInfo>,
        cheat_mode: bool,
        units: &Vec<MovingUnit>,
        start: Pos,
        end: Pos,
    ) -> (path: Option<Path>)
        requires
            old(self).is_idle(),
            map.wf(),
            map.area() + 2 <= u32::MAX,
        ensures
            final(self).is_idle(),
            path is Some <==> reachable(*map, cheat_mode, summarize(units@), start, end),
            path matches Some(p) ==> {
                &&& is_walk(*map, cheat_mode, summarize(units@), end, positions(p@))
                &&& positions(p@)[0] == start
                &&& positions(p@).last() == end
                &&& p@ == simulate(*map, summarize(units@), positions(p@))
                &&& positions(p@).no_duplicates()
                &&& forall|w: Seq<Pos>| is_walk(*map, cheat_mode, summarize(units@), end, w) && w[0] == start && w.last() == end
                    ==> walk_cost(*map, summarize(units@), positions(p@)) <= #[trigger] walk_cost(*map, summarize(units@), w)
            },
            start == end ==> (path matches Some(p) && p@.len() == 1),
    {
        let sk = (start.x, start.y);
        self.open_set.push(OpenEntry { score: 0, pos: start });
        open_insert(&mut self.in_open_set, sk);
        cost_insert(&mut self.g_score, sk, 0);
        let movers = summarize_units(units);
        let ghost mut disc: Seq<(u32, u32)> = seq![sk];
        let ghost mut stamp: Map<(u32, u32), nat> = Map::<(u32, u32), nat>::empty().insert(sk, 0);
        let ghost mut clock: nat = 1;
        proof {
            let g = cost_entries(self.g_score);
            let members = open_members(self.in_open_set);
            assert(g == Map::<(u32, u32), u64>::empty().insert(sk, 0));
            assert(members == Set::<(u32, u32)>::empty().insert(sk));
            assert(came_from_entries(self.came_from).dom() == Set::<(u32, u32)>::empty());
            assert(self.open_set@ == seq![OpenEntry { score: 0, pos: start }]);
            assert(disc.no_duplicates());
            assert forall|k: (u32, u32)| #[trigger] g.contains_key(k) <==> disc.contains(k) by {
                if disc.contains(k) {
                    let i = choose|i: int| 0 <= i < disc.len() && disc[i] == k;
                }
                if k == sk {
                    assert(disc[0] == sk);
                }
            }
            assert forall|k: (u32, u32)| #[trigger] members.contains(k) implies {
                &&& g.contains_key(k)
                &&& exists|i: int| 0 <= i < self.open_set@.len() && #[trigger] self.open_set@[i].pos.key() == k
            } by {
                assert(self.open_set@[0].pos.key() == k);
            }
        }
        loop
            invariant
                self.search_inv(*map, cheat_mode, movers, start, end, disc, stamp, clock, None),
                movers == summarize(units@),
            ensures
                self.search_inv(*map, cheat_mode, movers, start, end, disc, stamp, clock, None),
                self.open_set@.len() == 0,
            decreases map.area() + 1 - disc.len(), total_cost(cost_entries(self.g_score), disc), self.open_set@.len(),
        {
            if self.open_set.len() == 0 {
                break;
            }
            proof {
                lemma_total_nonneg(cost_entries(self.g_score), disc);
            }
            let entry = self.pop_best(map, cheat_mode, movers, start, end, Ghost(disc), Ghost(stamp), Ghost(clock));
            if entry.pos == end {
                // The destination is not explored further: no cheaper way to
                // it leads through it.
                proof {
                    let g = cost_entries(self.g_score);
                    let members = open_members(self.in_open_set);
                    assert forall|k: (u32, u32)| #[trigger] g.contains_key(k) implies members.contains(k) || None::<(u32, u32)> == Some(k) || k == end.key() || closed_at(*map, cheat_mode, movers, end, g, k) by {
                        if Some(entry.pos.key()) == Some(k) {
                            assert(k == end.key());
                        }
                    }
                }
            } else {
                let (a, b, c) = self.explore(map, cheat_mode, movers, start, end, entry.pos, Ghost(disc), Ghost(stamp), Ghost(clock));
                proof {
                    disc = a@;
                    stamp = b@;
                    clock = c@;
                    lemma_total_nonneg(cost_entries(self.g_score), disc);
                }
            }
        }
        let ghost g = cost_entries(self.g_score);
        proof {
            lemma_search_done(*map, cheat_mode, movers, start, end, g, open_members(self.in_open_set), self.open_set@);
        }
        if cost_get(&self.g_score, (end.x, end.y)).is_some() {
            assert(key_pos(end.key()) == end);
            let walk = self.trace_back(map, cheat_mode, movers, start, end, Ghost(disc), Ghost(stamp), Ghost(clock), Ghost(None));
            let points = simulate_walk(map, movers, &walk);
            proof {
                lemma_simulate_positions(*map, movers, walk@);
                assert(positions(points@) == walk@);
                assert(walk_cost(*map, movers, walk@) <= g[end.key()]);
                if start == end {
                    assert(is_walk(*map, cheat_mode, movers, end, seq![start]));
                }
            }
            self.reset();
            return Some(Path::new(points));
        }
        proof {
            if start == end {
                assert(is_walk(*map, cheat_mode, movers, end, seq![start]));
                assert(reachable(*map, cheat_mode, movers, start, end));
            }
        }
        self.reset();
        None
    }
}

/// `(d1, s1, o1)` comes before `(d2, s2, o2)` in the search: more tiles
/// reached, or as many at a lower total cost, or as many at the same total
/// cost with as many waiting.
spec fn measure_below(d1: nat, s1: int, o1: nat, d2: nat, s2: int, o2: nat) -> bool {
    ||| d1 > d2
    ||| d1 == d2 && s1 < s2
    ||| d1 == d2 && s1 == s2 && o1 == o2
}


/// A rank is never negative.
proof fn lemma_parent_rank_nonneg(g: Map<(u32, u32), u64>, stamp: Map<(u32, u32), nat>, clock: nat, k: (u32, u32))
    ensures
        rank(g, stamp, clock, k) >= 0,
{
    assert(g[k] * clock >= 0) by (nonlinear_arith);
}

/// Whether the movers may step onto the tile at `pos` on their way to `end`.
fn can_enter_exec(map: &TileMap<TileInfo>, cheat_mode: bool, movers: &Movers, end: Pos, pos: Pos) -> (enter: bool)
    requires
        map.wf(),
        map.in_bounds(pos),
    ensures
        enter == can_enter(*map, cheat_mode, *movers, end, pos),
{
    if !cheat_mode && map.visibility(pos) == Visibility::Hidden {
        return false;
    }
    let tile = map.tile(pos).unwrap();
    if !movers.ship && tile.ocean {
        return false;
    }
    if movers.ship && !tile.ocean && !tile.has_city {
        return false;
    }
    if pos != end || !movers.can_fight {
        if tile.has_enemy_units {
            return false;
        }
    }
    true
}


/// The part of the search's bookkeeping that records how tiles were reached.
spec fn parents_inv(
    map: TileMap<TileInfo>,
    cheat_mode: bool,
    movers: Movers,
    start: Pos,
    end: Pos,
    g: Map<(u32, u32), u64>,
    came: Map<(u32, u32), (u32, u32)>,
    stamp: Map<(u32, u32), nat>,
    clock: nat,
) -> bool {
    &&& map.wf()
    &&& forall|k: (u32, u32)| #[trigger] came.contains_key(k) <==> (g.contains_key(k) && k != start.key())
    &&& forall|k: (u32, u32)| #[trigger] came.contains_key(k) ==> parent_ok(map, cheat_mode, movers, end, g, stamp, k, came[k])
    &&& forall|k: (u32, u32)| #[trigger] g.contains_key(k) ==> {
        &&& stamp.contains_key(k)
        &&& stamp[k] < clock
        &&& (k == start.key() || map.in_bounds(key_pos(k)))
    }
}

/// `chain` follows the recorded steps back, each tile to the one it was
/// reached from, through reached tiles of falling rank.
spec fn chain_ok(
    g: Map<(u32, u32), u64>,
    came: Map<(u32, u32), (u32, u32)>,
    stamp: Map<(u32, u32), nat>,
    clock: nat,
    chain: Seq<Pos>,
) -> bool {
    &&& chain.len() >= 1
    &&& forall|i: int| 0 <= i < chain.len() ==> g.contains_key(#[trigger] chain[i].key())
    &&& forall|i: int| 0 <= i < chain.len() - 1 ==> came.contains_key(#[trigger] chain[i].key()) && came[chain[i].key()] == chain[i + 1].key()
    &&& forall|i: int, j: int| 0 <= i < j < chain.len() ==> rank(g, stamp, clock, #[trigger] chain[j].key()) < rank(g, stamp, clock, #[trigger] chain[i].key())
}

proof fn lemma_chain_extend(
    g: Map<(u32, u32), u64>,
    came: Map<(u32, u32), (u32, u32)>,
    stamp: Map<(u32, u32), nat>,
    clock: nat,
    chain: Seq<Pos>,
    next: Pos,
)
    requires
        chain_ok(g, came, stamp, clock, chain),
        came.contains_key(chain.last().key()),
        came[chain.last().key()] == next.key(),
        g.contains_key(next.key()),
        rank(g, stamp, clock, next.key()) < rank(g, stamp, clock, chain.last().key()),
    ensures
        chain_ok(g, came, stamp, clock, chain.push(next)),
{
    let c = chain.push(next);
    assert forall|i: int, j: int| 0 <= i < j < c.len() implies rank(g, stamp, clock, #[trigger] c[j].key()) < rank(g, stamp, clock, #[trigger] c[i].key()) by {
        if j < chain.len() {
            assert(c[i] == chain[i] && c[j] == chain[j]);
        } else if i < chain.len() - 1 {
            assert(c[i] == chain[i]);
            assert(rank(g, stamp, clock, chain[chain.len() - 1].key()) < rank(g, stamp, clock, chain[i].key()));
        }
    }
    assert forall|i: int| 0 <= i < c.len() - 1 implies came.contains_key(#[trigger] c[i].key()) && came[c[i].key()] == c[i + 1].key() by {
        if i < chain.len() - 1 {
            assert(c[i] == chain[i] && c[i + 1] == chain[i + 1]);
        }
    }
    assert forall|i: int| 0 <= i < c.len() implies g.contains_key(#[trigger] c[i].key()) by {
        if i < chain.len() {
            assert(c[i] == chain[i]);
        }
    }
}

/// A chain visits each tile at most once, so it is at most one longer than
/// the map has tiles.
proof fn lemma_chain_bound(
    map: TileMap<TileInfo>,
    cheat_mode: bool,
    movers: Movers,
    start: Pos,
    end: Pos,
    g: Map<(u32, u32), u64>,
    came: Map<(u32, u32), (u32, u32)>,
    stamp: Map<(u32, u32), nat>,
    clock: nat,
    chain: Seq<Pos>,
)
    requires
        parents_inv(map, cheat_mode, movers, start, end, g, came, stamp, clock),
        chain_ok(g, came, stamp, clock, chain),
    ensures
        chain.len() <= map.area() + 1,
{
    let keys = chain.map_values(|p: Pos| p.key());
    assert(keys.no_duplicates()) by {
        assert forall|a: int, b: int| 0 <= a < keys.len() && 0 <= b < keys.len() && a != b implies keys[a] != keys[b] by {
            if a < b {
                assert(rank(g, stamp, clock, chain[b].key()) < rank(g, stamp, clock, chain[a].key()));
            } else {
                assert(rank(g, stamp, clock, chain[a].key()) < rank(g, stamp, clock, chain[b].key()));
            }
        }
    }
    assert forall|i: int| 0 <= i < keys.len() implies #[trigger] keys[i] == start.key() || map.in_bounds(key_pos(keys[i])) by {
        assert(g.contains_key(chain[i].key()));
    }
    lemma_distinct_tiles_bound(map, start, keys);
}

/// The chain, read from its far end, is a walk from `start` to `end`.
#[verifier::rlimit(40)]
proof fn lemma_reversed_chain_walk(
    map: TileMap<TileInfo>,
    cheat_mode: bool,
    movers: Movers,
    start: Pos,
    end: Pos,
    g: Map<(u32, u32), u64>,
    came: Map<(u32, u32), (u32, u32)>,
    stamp: Map<(u32, u32), nat>,
    clock: nat,
    chain: Seq<Pos>,
    walk: Seq<Pos>,
)
    requires
        forall|k: (u32, u32)| #[trigger] came.contains_key(k) ==> parent_ok(map, cheat_mode, movers, end, g, stamp, k, came[k]),
        chain.len() >= 1,
        forall|i: int| 0 <= i < chain.len() - 1 ==> came.contains_key(#[trigger] chain[i].key()) && came[chain[i].key()] == chain[i + 1].key(),
        chain[0] == end,
        chain.last() == start,
        walk.len() == chain.len(),
        forall|j: int| 0 <= j < walk.len() ==> #[trigger] walk[j] == chain[chain.len() - 1 - j],
    ensures
        walk.len() > 0,
        walk[0] == start,
        walk.last() == end,
        is_walk(map, cheat_mode, movers, end, walk),
        forall|i: int| 1 <= i < walk.len() ==> map.in_bounds(#[trigger] walk[i]),
{
    let n = chain.len();
    assert(walk[0] == chain[n - 1]);
    assert(walk[walk.len() - 1] == chain[0]);
    assert forall|j: int| 0 <= j < walk.len() - 1 implies {
        &&& adjacent(map, #[trigger] walk[j], walk[j + 1])
        &&& can_enter(map, cheat_mode, movers, end, walk[j + 1])
    } by {
        let c = chain[n - 2 - j];
        let p = chain[n - 1 - j];
        assert(walk[j + 1] == c);
        assert(walk[j] == p);
        assert(came.contains_key(c.key()) && came[c.key()] == p.key());
        assert(parent_ok(map, cheat_mode, movers, end, g, stamp, c.key(), came[c.key()]));
        lemma_parent_step(map, cheat_mode, movers, end, g, stamp, c, p);
    }
    assert forall|j: int| 1 <= j < walk.len() implies map.in_bounds(#[trigger] walk[j]) by {
        let i = j - 1;
        assert(0 <= i < walk.len() - 1);
        assert(adjacent(map, walk[i], walk[i + 1]));
        assert(can_enter(map, cheat_mode, movers, end, walk[i + 1]));
    }
}

/// Along the chain read from its far end, the cost of the walk so far never
/// exceeds what the search recorded for the tile reached, less what it
/// recorded for the first tile.
proof fn lemma_chain_walk_cost(
    map: TileMap<TileInfo>,
    cheat_mode: bool,
    movers: Movers,
    end: Pos,
    g: Map<(u32, u32), u64>,
    came: Map<(u32, u32), (u32, u32)>,
    stamp: Map<(u32, u32), nat>,
    chain: Seq<Pos>,
    walk: Seq<Pos>,
    j: int,
)
    requires
        forall|k: (u32, u32)| #[trigger] came.contains_key(k) ==> parent_ok(map, cheat_mode, movers, end, g, stamp, k, came[k]),
        chain.len() >= 1,
        forall|i: int| 0 <= i < chain.len() - 1 ==> came.contains_key(#[trigger] chain[i].key()) && came[chain[i].key()] == chain[i + 1].key(),
        walk.len() == chain.len(),
        forall|i: int| 0 <= i < walk.len() ==> #[trigger] walk[i] == chain[chain.len() - 1 - i],
        0 <= j < walk.len(),
    ensures
        walk_cost(map, movers, walk.take(j + 1)) <= g[walk[j].key()] - g[walk[0].key()],
    decreases j,
{
    if j == 0 {
        assert(walk.take(1).len() == 1);
    } else {
        lemma_chain_walk_cost(map, cheat_mode, movers, end, g, came, stamp, chain, walk, j - 1);
        let n = chain.len() as int;
        let c = chain[n - 1 - j];
        let p = chain[n - j];
        assert(walk[j] == c);
        assert(walk[j - 1] == p);
        assert(came.contains_key(c.key()) && came[c.key()] == p.key());
        assert(parent_ok(map, cheat_mode, movers, end, g, stamp, c.key(), came[c.key()]));
        assert(key_pos(c.key()) == c);
        assert(walk.take(j + 1).drop_last() == walk.take(j));
        assert(walk.take(j + 1).last() == walk[j]);
    }
}

proof fn lemma_parent_step(
    map: TileMap<TileInfo>,
    cheat_mode: bool,
    movers: Movers,
    end: Pos,
    g: Map<(u32, u32), u64>,
    stamp: Map<(u32, u32), nat>,
    c: Pos,
    p: Pos,
)
    requires
        parent_ok(map, cheat_mode, movers, end, g, stamp, c.key(), p.key()),
    ensures
        adjacent(map, p, c),
        can_enter(map, cheat_mode, movers, end, c),
{
    assert(key_pos(c.key()) == c);
    assert(key_pos(p.key()) == p);
}


/// The points of a simulated path stand at the positions of the walk.
proof fn lemma_simulate_positions(map: TileMap<TileInfo>, movers: Movers, walk: Seq<Pos>)
    ensures
        positions(simulate(map, movers, walk)) == walk,
        simulate(map, movers, walk).len() == walk.len(),
{
    lemma_simulate_prefix_positions(map, movers, walk, walk.len());
    let points = simulate(map, movers, walk);
    assert(positions(points) =~= walk);
}

proof fn lemma_simulate_prefix_positions(map: TileMap<TileInfo>, movers: Movers, walk: Seq<Pos>, n: nat)
    requires
        n <= walk.len(),
    ensures
        simulate_prefix(map, movers, walk, n).0.len() == n,
        forall|i: int| 0 <= i < n ==> (#[trigger] simulate_prefix(map, movers, walk, n).0[i]).pos == walk[i],
    decreases n,
{
    if n > 0 {
        lemma_simulate_prefix_positions(map, movers, walk, (n - 1) as nat);
        let previous = simulate_prefix(map, movers, walk, (n - 1) as nat).0;
        let current = simulate_prefix(map, movers, walk, n).0;
        assert forall|i: int| 0 <= i < n implies (#[trigger] current[i]).pos == walk[i] by {
            if i < n - 1 {
                assert(current[i] == previous[i]);
            }
        }
    }
}

/// A walk costs at least as much as any of its beginnings.
proof fn lemma_walk_cost_prefix(map: TileMap<TileInfo>, movers: Movers, walk: Seq<Pos>, n: int)
    requires
        1 <= n <= walk.len(),
    ensures
        walk_cost(map, movers, walk.take(n)) <= walk_cost(map, movers, walk),
    decreases walk.len() - n,
{
    if n < walk.len() {
        lemma_walk_cost_prefix(map, movers, walk, n + 1);
        assert(walk.take(n + 1).drop_last() == walk.take(n));
    } else {
        assert(walk.take(n) == walk);
    }
}

/// When the search is over, the first `n + 1` tiles of a walk from the start
/// that has not yet passed `end` have been reached, the last at no more than
/// the walk's cost so far.
proof fn lemma_walk_bound(
    map: TileMap<TileInfo>,
    cheat_mode: bool,
    movers: Movers,
    start: Pos,
    end: Pos,
    g: Map<(u32, u32), u64>,
    walk: Seq<Pos>,
    n: int,
)
    requires
        is_walk(map, cheat_mode, movers, end, walk),
        walk[0] == start,
        g.contains_key(start.key()),
        g[start.key()] == 0,
        0 <= n < walk.len(),
        forall|i: int| 0 <= i < n ==> walk[i] != end,
        forall|k: (u32, u32)| #[trigger] g.contains_key(k) ==> k == end.key() || closed_at(map, cheat_mode, movers, end, g, k),
    ensures
        g.contains_key(walk[n].key()),
        g[walk[n].key()] <= walk_cost(map, movers, walk.take(n + 1)),
    decreases n,
{
    if n == 0 {
        assert(walk.take(1).len() == 1);
    } else {
        lemma_walk_bound(map, cheat_mode, movers, start, end, g, walk, n - 1);
        let k = walk[n - 1].key();
        assert(key_pos(k) == walk[n - 1]);
        assert(k != end.key()) by {
            assert(walk[n - 1] != end);
            assert(key_pos(end.key()) == end);
        }
        assert(closed_at(map, cheat_mode, movers, end, g, k));
        assert(adjacent(map, walk[n - 1], walk[n]));
        assert(adjacent(map, key_pos(k), walk[n]));
        assert(walk.take(n + 1).drop_last() == walk.take(n));
        assert(walk.take(n + 1).last() == walk[n]);
    }
}

/// Every walk from the start to `end` reaches `end` at a cost no lower than
/// what the search recorded for it.
proof fn lemma_cheapest(
    map: TileMap<TileInfo>,
    cheat_mode: bool,
    movers: Movers,
    start: Pos,
    end: Pos,
    g: Map<(u32, u32), u64>,
    walk: Seq<Pos>,
)
    requires
        is_walk(map, cheat_mode, movers, end, walk),
        walk[0] == start,
        walk.last() == end,
        g.contains_key(start.key()),
        g[start.key()] == 0,
        forall|k: (u32, u32)| #[trigger] g.contains_key(k) ==> k == end.key() || closed_at(map, cheat_mode, movers, end, g, k),
    ensures
        g.contains_key(end.key()),
        g[end.key()] <= walk_cost(map, movers, walk),
    decreases walk.len(),
{
    if exists|i: int| 0 <= i < walk.len() - 1 && walk[i] == end {
        let i = choose|i: int| 0 <= i < walk.len() - 1 && walk[i] == end;
        let shorter = walk.take(i + 1);
        assert(is_walk(map, cheat_mode, movers, end, shorter)) by {
            assert forall|j: int| 0 <= j < shorter.len() - 1 implies {
                &&& adjacent(map, #[trigger] shorter[j], shorter[j + 1])
                &&& can_enter(map, cheat_mode, movers, end, shorter[j + 1])
            } by {
                assert(shorter[j] == walk[j] && shorter[j + 1] == walk[j + 1]);
            }
        }
        assert(shorter[0] == start);
        lemma_cheapest(map, cheat_mode, movers, start, end, g, shorter);
        lemma_walk_cost_prefix(map, movers, walk, i + 1);
    } else {
        let n = walk.len() - 1;
        lemma_walk_bound(map, cheat_mode, movers, start, end, g, walk, n);
        assert(walk.take(n + 1) == walk);
    }
}

/// When no tile waits any more, `end` has been reached exactly when the
/// movers can get there, and no walk there is cheaper than what was
/// recorded for it.
proof fn lemma_search_done(
    map: TileMap<TileInfo>,
    cheat_mode: bool,
    movers: Movers,
    start: Pos,
    end: Pos,
    g: Map<(u32, u32), u64>,
    members: Set<(u32, u32)>,
    open: Seq<OpenEntry>,
)
    requires
        g.contains_key(start.key()),
        g[start.key()] == 0,
        open.len() == 0,
        forall|k: (u32, u32)| #[trigger] members.contains(k) ==> exists|i: int| 0 <= i < open.len() && #[trigger] open[i].pos.key() == k,
        forall|k: (u32, u32)| #[trigger] g.contains_key(k) ==> members.contains(k) || None::<(u32, u32)> == Some(k) || k == end.key() || closed_at(map, cheat_mode, movers, end, g, k),
    ensures
        reachable(map, cheat_mode, movers, start, end) ==> g.contains_key(end.key()),
        forall|w: Seq<Pos>| is_walk(map, cheat_mode, movers, end, w) && w[0] == start && w.last() == end
            ==> g[end.key()] <= #[trigger] walk_cost(map, movers, w),
{
    assert forall|k: (u32, u32)| #[trigger] g.contains_key(k) implies k == end.key() || closed_at(map, cheat_mode, movers, end, g, k) by {
        if members.contains(k) {
            let i = choose|i: int| 0 <= i < open.len() && #[trigger] open[i].pos.key() == k;
        }
    }
    assert forall|w: Seq<Pos>| is_walk(map, cheat_mode, movers, end, w) && w[0] == start && w.last() == end
        implies g[end.key()] <= #[trigger] walk_cost(map, movers, w) by {
        lemma_cheapest(map, cheat_mode, movers, start, end, g, w);
    }
    if reachable(map, cheat_mode, movers, start, end) {
        let walk = choose|walk: Seq<Pos>| {
            &&& is_walk(map, cheat_mode, movers, end, walk)
            &&& walk[0] == start
            &&& walk.last() == end
        };
        lemma_cheapest(map, cheat_mode, movers, start, end, g, walk);
    }
}

} // verus!
