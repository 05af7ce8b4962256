use riposte_client::pos::{OutOfBounds, Pos};
use riposte_client::stack::{StackGrid, StackRanking, UnitStack};

fn ranking(scores: &[(u64, u64)], selected: &[u64]) -> StackRanking {
    StackRanking { scores: scores.to_vec(), selected: selected.to_vec() }
}

fn units_at(grid: &StackGrid, x: u32, y: u32) -> Vec<u64> {
    match grid.get(Pos::new(x, y)) {
        Ok(stack) => stack.units().to_vec(),
        Err(_) => panic!("position outside the grid"),
    }
}

fn top_at(grid: &StackGrid, x: u32, y: u32) -> Option<u64> {
    match grid.get(Pos::new(x, y)) {
        Ok(stack) => stack.top_unit(),
        Err(_) => panic!("position outside the grid"),
    }
}

#[test]
fn new_stack_is_empty() {
    let stack = UnitStack::new();
    assert!(stack.units().is_empty());
    assert_eq!(stack.top_unit(), None);
    let grid = StackGrid::new(2, 3);
    for x in 0..2 {
        for y in 0..3 {
            assert!(units_at(&grid, x, y).is_empty());
            assert_eq!(top_at(&grid, x, y), None);
        }
    }
}

#[test]
fn strongest_unit_comes_first() {
    let r = ranking(&[(1, 10), (2, 30), (3, 20)], &[]);
    let mut grid = StackGrid::new(2, 2);
    grid.on_unit_added(&r, 1, Pos::new(0, 0));
    grid.on_unit_added(&r, 2, Pos::new(0, 0));
    grid.on_unit_added(&r, 3, Pos::new(0, 0));
    assert_eq!(units_at(&grid, 0, 0), vec![2, 3, 1]);
    assert_eq!(top_at(&grid, 0, 0), Some(2));
    assert!(units_at(&grid, 1, 1).is_empty());
}

#[test]
fn equal_scores_put_the_higher_id_first() {
    let r = ranking(&[(5, 10), (7, 10), (6, 10)], &[]);
    let mut grid = StackGrid::new(1, 1);
    grid.on_unit_added(&r, 5, Pos::new(0, 0));
    grid.on_unit_added(&r, 7, Pos::new(0, 0));
    grid.on_unit_added(&r, 6, Pos::new(0, 0));
    assert_eq!(units_at(&grid, 0, 0), vec![7, 6, 5]);
}

#[test]
fn first_score_entry_counts() {
    let r = ranking(&[(1, 5), (2, 7), (1, 100)], &[]);
    let mut grid = StackGrid::new(1, 1);
    grid.on_unit_added(&r, 1, Pos::new(0, 0));
    grid.on_unit_added(&r, 2, Pos::new(0, 0));
    assert_eq!(units_at(&grid, 0, 0), vec![2, 1]);
}

#[test]
fn selected_unit_is_on_top() {
    let scores = [(1, 10), (2, 30), (3, 20)];
    let mut grid = StackGrid::new(1, 1);
    let plain = ranking(&scores, &[]);
    for u in [1, 2, 3] {
        grid.on_unit_added(&plain, u, Pos::new(0, 0));
    }
    let selecting = ranking(&scores, &[3, 1]);
    grid.resort(&selecting);
    assert_eq!(units_at(&grid, 0, 0), vec![2, 3, 1]);
    assert_eq!(top_at(&grid, 0, 0), Some(3));
    let selecting_weakest = ranking(&scores, &[1]);
    grid.resort(&selecting_weakest);
    assert_eq!(top_at(&grid, 0, 0), Some(1));
}

#[test]
fn adding_a_unit_twice_keeps_one_copy() {
    let r = ranking(&[(4, 1)], &[]);
    let mut grid = StackGrid::new(2, 1);
    grid.on_unit_added(&r, 4, Pos::new(1, 0));
    grid.on_unit_added(&r, 4, Pos::new(1, 0));
    assert_eq!(units_at(&grid, 1, 0), vec![4]);
}

#[test]
fn adding_outside_the_grid_changes_nothing() {
    let r = ranking(&[(4, 1)], &[]);
    let mut grid = StackGrid::new(2, 1);
    grid.on_unit_added(&r, 4, Pos::new(2, 0));
    assert!(units_at(&grid, 0, 0).is_empty());
    assert!(units_at(&grid, 1, 0).is_empty());
}

#[test]
fn moving_units_changes_their_stacks() {
    let r = ranking(&[(1, 10), (2, 30), (3, 20)], &[]);
    let mut grid = StackGrid::new(2, 2);
    for u in [1, 2, 3] {
        grid.on_unit_added(&r, u, Pos::new(0, 0));
    }
    grid.on_units_moved(&r, &vec![1, 2], Pos::new(0, 0), Pos::new(1, 1));
    assert_eq!(units_at(&grid, 0, 0), vec![3]);
    assert_eq!(units_at(&grid, 1, 1), vec![2, 1]);
    assert_eq!(top_at(&grid, 1, 1), Some(2));
    // Every unit stands in exactly one stack.
    let mut all: Vec<u64> = Vec::new();
    for x in 0..2 {
        for y in 0..2 {
            all.extend(units_at(&grid, x, y));
        }
    }
    all.sort();
    assert_eq!(all, vec![1, 2, 3]);
}

#[test]
fn moving_units_joins_an_existing_stack_in_order() {
    let r = ranking(&[(1, 10), (2, 30), (3, 20)], &[]);
    let mut grid = StackGrid::new(2, 1);
    grid.on_unit_added(&r, 3, Pos::new(1, 0));
    grid.on_unit_added(&r, 1, Pos::new(0, 0));
    grid.on_unit_added(&r, 2, Pos::new(0, 0));
    grid.on_units_moved(&r, &vec![1, 2], Pos::new(0, 0), Pos::new(1, 0));
    assert!(units_at(&grid, 0, 0).is_empty());
    assert_eq!(units_at(&grid, 1, 0), vec![2, 3, 1]);
}

#[test]
fn deleting_a_unit_keeps_the_others_in_order() {
    let r = ranking(&[(1, 10), (2, 30), (3, 20)], &[]);
    let mut grid = StackGrid::new(1, 1);
    for u in [1, 2, 3] {
        grid.on_unit_added(&r, u, Pos::new(0, 0));
    }
    grid.on_unit_deleted(3, Pos::new(0, 0));
    assert_eq!(units_at(&grid, 0, 0), vec![2, 1]);
    // The top unit is only recomputed on the next resort.
    assert_eq!(top_at(&grid, 0, 0), Some(2));
    grid.on_unit_deleted(2, Pos::new(0, 0));
    assert_eq!(units_at(&grid, 0, 0), vec![1]);
    assert_eq!(top_at(&grid, 0, 0), Some(2));
    grid.resort(&r);
    assert_eq!(top_at(&grid, 0, 0), Some(1));
    grid.on_unit_deleted(9, Pos::new(0, 0));
    assert_eq!(units_at(&grid, 0, 0), vec![1]);
}

#[test]
fn stacks_outside_the_grid_are_errors() {
    let grid = StackGrid::new(2, 3);
    assert!(matches!(grid.get(Pos::new(2, 0)), Err(OutOfBounds { x: 2, y: 0 })));
    assert!(matches!(grid.get(Pos::new(0, 3)), Err(OutOfBounds { x: 0, y: 3 })));
    assert!(grid.get(Pos::new(1, 2)).is_ok());
}

#[test]
fn moving_units_out_keeps_the_rest_in_order() {
    let r = ranking(&[(1, 10), (2, 30), (3, 20), (4, 40)], &[]);
    let mut grid = StackGrid::new(2, 1);
    for u in [1, 2, 3, 4] {
        grid.on_unit_added(&r, u, Pos::new(0, 0));
    }
    assert_eq!(units_at(&grid, 0, 0), vec![4, 2, 3, 1]);
    grid.on_units_moved(&r, &vec![2], Pos::new(0, 0), Pos::new(1, 0));
    assert_eq!(units_at(&grid, 0, 0), vec![4, 3, 1]);
    // Moving units that already stand there leaves the stack as it was.
    grid.on_units_moved(&r, &vec![2], Pos::new(1, 0), Pos::new(1, 0));
    assert_eq!(units_at(&grid, 1, 0), vec![2]);
}
