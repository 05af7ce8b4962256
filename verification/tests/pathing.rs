use riposte_client::path::{tile_neighbors, MovingUnit, Path, PathPoint, Pathfinder, TileInfo};
use riposte_client::pos::{Pos, Visibility};
use riposte_client::tile::TileMap;
use riposte_client::unit::{MovementPoints, MOVEMENT_SCALE};

fn land(cost_points: u32) -> TileInfo {
    TileInfo {
        ocean: false,
        has_city: false,
        has_enemy_units: false,
        movement_cost: MovementPoints::from_u32(cost_points),
    }
}

fn ocean() -> TileInfo {
    TileInfo {
        ocean: true,
        has_city: false,
        has_enemy_units: false,
        movement_cost: MovementPoints::from_u32(1),
    }
}

fn map_of(width: u32, height: u32, tiles: Vec<TileInfo>) -> TileMap<TileInfo> {
    let n = tiles.len();
    TileMap::new(width, height, tiles, vec![Visibility::Visible; n]).unwrap()
}

fn warrior() -> MovingUnit {
    MovingUnit {
        ship: false,
        movement_left: MovementPoints::from_u32(1),
        movement: 1,
        can_fight: true,
    }
}

fn positions(path: &Path) -> Vec<(u32, u32)> {
    path.points().iter().map(|p| (p.pos.x, p.pos.y)).collect()
}

#[test]
fn diagonal_path_on_open_land() {
    let map = map_of(3, 3, vec![land(1); 9]);
    let mut finder = Pathfinder::new();
    let path = finder
        .compute_shortest_path(&map, false, &vec![warrior()], Pos::new(0, 0), Pos::new(2, 2))
        .unwrap();
    assert_eq!(positions(&path), vec![(0, 0), (1, 1), (2, 2)]);
    let turns: Vec<u32> = path.points().iter().map(|p| p.turn).collect();
    assert_eq!(turns, vec![0, 1, 2]);
    let left: Vec<u32> = path.points().iter().map(|p| p.movement_left.as_fixed_u32()).collect();
    assert_eq!(left, vec![MOVEMENT_SCALE, 0, 0]);
}

#[test]
fn start_equals_end() {
    let map = map_of(2, 2, vec![land(1); 4]);
    let mut finder = Pathfinder::new();
    let path = finder
        .compute_shortest_path(&map, false, &vec![warrior()], Pos::new(1, 1), Pos::new(1, 1))
        .unwrap();
    assert_eq!(positions(&path), vec![(1, 1)]);
    assert_eq!(path.start().turn, 0);
    assert_eq!(path.end().pos, Pos::new(1, 1));
}

#[test]
fn ocean_blocks_land_units() {
    let map = map_of(3, 1, vec![land(1), ocean(), land(1)]);
    let mut finder = Pathfinder::new();
    let path = finder.compute_shortest_path(&map, false, &vec![warrior()], Pos::new(0, 0), Pos::new(2, 0));
    assert!(path.is_none());
    // The pathfinder is reusable after a failed search.
    let path = finder.compute_shortest_path(&map, false, &vec![warrior()], Pos::new(0, 0), Pos::new(0, 0));
    assert!(path.is_some());
}

#[test]
fn land_units_walk_around_ocean() {
    // . ~ .
    // . . .
    let map = map_of(3, 2, vec![land(1), ocean(), land(1), land(1), land(1), land(1)]);
    let mut finder = Pathfinder::new();
    let path = finder
        .compute_shortest_path(&map, false, &vec![warrior()], Pos::new(0, 0), Pos::new(2, 0))
        .unwrap();
    assert_eq!(positions(&path), vec![(0, 0), (1, 1), (2, 0)]);
}

#[test]
fn ships_keep_to_the_ocean_and_cities() {
    let mut harbor = land(1);
    harbor.has_city = true;
    let map = map_of(4, 1, vec![ocean(), ocean(), land(1), harbor]);
    let ship = MovingUnit {
        ship: true,
        movement_left: MovementPoints::from_u32(2),
        movement: 2,
        can_fight: false,
    };
    let mut finder = Pathfinder::new();
    assert!(finder
        .compute_shortest_path(&map, false, &vec![ship], Pos::new(0, 0), Pos::new(1, 0))
        .is_some());
    assert!(finder
        .compute_shortest_path(&map, false, &vec![ship], Pos::new(0, 0), Pos::new(3, 0))
        .is_none());
    let map = map_of(3, 1, vec![ocean(), ocean(), harbor]);
    let path = finder
        .compute_shortest_path(&map, false, &vec![ship], Pos::new(0, 0), Pos::new(2, 0))
        .unwrap();
    assert_eq!(positions(&path), vec![(0, 0), (1, 0), (2, 0)]);
}

#[test]
fn hidden_tiles_block_unless_cheating() {
    let tiles = vec![land(1); 3];
    let map = TileMap::new(3, 1, tiles, vec![Visibility::Visible, Visibility::Hidden, Visibility::Visible]).unwrap();
    let mut finder = Pathfinder::new();
    assert!(finder
        .compute_shortest_path(&map, false, &vec![warrior()], Pos::new(0, 0), Pos::new(2, 0))
        .is_none());
    assert!(finder
        .compute_shortest_path(&map, true, &vec![warrior()], Pos::new(0, 0), Pos::new(2, 0))
        .is_some());
}

#[test]
fn fogged_tiles_do_not_block() {
    let tiles = vec![land(1); 3];
    let map = TileMap::new(3, 1, tiles, vec![Visibility::Visible, Visibility::Fogged, Visibility::Visible]).unwrap();
    let mut finder = Pathfinder::new();
    assert!(finder
        .compute_shortest_path(&map, false, &vec![warrior()], Pos::new(0, 0), Pos::new(2, 0))
        .is_some());
}

#[test]
fn enemies_block_except_as_a_target_for_fighters() {
    let mut enemy = land(1);
    enemy.has_enemy_units = true;
    let map = map_of(2, 1, vec![land(1), enemy]);
    let mut finder = Pathfinder::new();
    assert!(finder
        .compute_shortest_path(&map, false, &vec![warrior()], Pos::new(0, 0), Pos::new(1, 0))
        .is_some());
    let worker = MovingUnit { can_fight: false, ..warrior() };
    assert!(finder
        .compute_shortest_path(&map, false, &vec![worker], Pos::new(0, 0), Pos::new(1, 0))
        .is_none());
    let map = map_of(3, 1, vec![land(1), enemy, land(1)]);
    assert!(finder
        .compute_shortest_path(&map, false, &vec![warrior()], Pos::new(0, 0), Pos::new(2, 0))
        .is_none());
}

#[test]
fn turns_follow_the_slowest_unit() {
    // Three tiles in a row, each costing one point; the group moves two
    // points a turn but one unit has only one point left now.
    let map = map_of(4, 1, vec![land(1); 4]);
    let fast = MovingUnit { movement_left: MovementPoints::from_u32(2), movement: 2, ..warrior() };
    let tired = MovingUnit { movement_left: MovementPoints::from_u32(1), movement: 3, ..warrior() };
    let mut finder = Pathfinder::new();
    let path = finder
        .compute_shortest_path(&map, false, &vec![fast, tired], Pos::new(0, 0), Pos::new(3, 0))
        .unwrap();
    let summary: Vec<(u32, u32, u32)> = path
        .points()
        .iter()
        .map(|p| (p.pos.x, p.turn, p.movement_left.as_fixed_u32()))
        .collect();
    let s = MOVEMENT_SCALE;
    assert_eq!(summary, vec![(0, 0, s), (1, 1, 0), (2, 2, s), (3, 2, 0)]);
}

#[test]
fn expensive_tiles_cost_at_most_a_turn() {
    let map = map_of(2, 1, vec![land(1), land(3)]);
    let mut finder = Pathfinder::new();
    let scout = MovingUnit { movement_left: MovementPoints::from_u32(2), movement: 2, ..warrior() };
    let path = finder
        .compute_shortest_path(&map, false, &vec![scout], Pos::new(0, 0), Pos::new(1, 0))
        .unwrap();
    assert_eq!(path.end().movement_left.as_fixed_u32(), 0);
    assert_eq!(path.end().turn, 1);
}

#[test]
fn no_units_moves_freely() {
    let map = map_of(3, 1, vec![land(1); 3]);
    let mut finder = Pathfinder::new();
    let path = finder
        .compute_shortest_path(&map, false, &vec![], Pos::new(0, 0), Pos::new(2, 0))
        .unwrap();
    assert_eq!(positions(&path), vec![(0, 0), (1, 0), (2, 0)]);
    assert_eq!(path.end().turn, 1);
}

#[test]
fn path_next_and_peek() {
    let point = |x| PathPoint { pos: Pos::new(x, 0), turn: x, movement_left: MovementPoints::from_u32(0) };
    let mut path = Path::new(vec![point(0), point(1), point(2)]);
    assert_eq!(path.peek(), Some(point(1)));
    assert_eq!(path.next(), Some(point(1)));
    assert_eq!(path.points().len(), 2);
    assert_eq!(path.next(), Some(point(2)));
    assert_eq!(path.next(), None);
    assert_eq!(path.peek(), None);
    assert_eq!(path.start(), point(0));
    assert_eq!(path.end(), point(0));
}

#[test]
fn neighbors_stay_on_the_map() {
    let map = map_of(3, 3, vec![land(1); 9]);
    let mut corner: Vec<(u32, u32)> = tile_neighbors(&map, Pos::new(0, 0)).iter().map(|p| (p.x, p.y)).collect();
    corner.sort();
    assert_eq!(corner, vec![(0, 1), (1, 0), (1, 1)]);
    assert_eq!(tile_neighbors(&map, Pos::new(1, 1)).len(), 8);
    assert_eq!(tile_neighbors(&map, Pos::new(2, 1)).len(), 5);
    let outside: Vec<(u32, u32)> = tile_neighbors(&map, Pos::new(3, 3)).iter().map(|p| (p.x, p.y)).collect();
    assert_eq!(outside, vec![(2, 2)]);
}

#[test]
fn movement_points_arithmetic() {
    let one = MovementPoints::from_u32(1);
    assert_eq!(one.as_fixed_u32(), MOVEMENT_SCALE);
    assert_eq!(MovementPoints::from_u32(u32::MAX).as_fixed_u32(), u32::MAX);
    assert_eq!(one.saturating_sub(MovementPoints::from_u32(2)).as_fixed_u32(), 0);
    assert!(one.saturating_sub(one).is_exhausted());
    assert_eq!(MovementPoints::from_u32(5).min(2).as_fixed_u32(), 2 * MOVEMENT_SCALE);
    assert_eq!(MovementPoints::from_fixed_u32(7).min(2).as_fixed_u32(), 7);
}

#[test]
fn path_is_the_cheapest_even_off_the_straight_line() {
    let costs: [[u32; 8]; 5] = [
        [1, 1, 1, 1, 1, 2, 5, 1],
        [1, 2, 1, 2, 5, 1, 1, 1],
        [2, 1, 1, 1, 1, 1, 1, 1],
        [5, 1, 1, 1, 1, 1, 2, 5],
        [1, 1, 5, 1, 2, 1, 5, 1],
    ];
    let mut tiles = Vec::new();
    for row in costs.iter() {
        for c in row.iter() {
            tiles.push(land(*c));
        }
    }
    let map = map_of(8, 5, tiles);
    let mut finder = Pathfinder::new();
    let path = finder
        .compute_shortest_path(&map, false, &vec![], Pos::new(3, 0), Pos::new(5, 4))
        .unwrap();
    let points = positions(&path);
    assert_eq!(points[0], (3, 0));
    assert_eq!(*points.last().unwrap(), (5, 4));
    let total: u32 = points[1..].iter().map(|&(x, y)| costs[y as usize][x as usize]).sum();
    assert_eq!(total, 4);
    for i in 0..points.len() {
        for j in (i + 1)..points.len() {
            assert_ne!(points[i], points[j]);
        }
    }
    // A second search with the same pathfinder finds a path just as cheap.
    let again = finder
        .compute_shortest_path(&map, false, &vec![], Pos::new(3, 0), Pos::new(5, 4))
        .unwrap();
    assert_eq!(positions(&again), points);
}
