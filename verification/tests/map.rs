use riposte_client::pos::{OutOfBounds, Pos, Visibility};
use riposte_client::tile::{MapNotFull, Tile, TileMap};

fn visible(n: usize) -> Vec<Visibility> {
    vec![Visibility::Visible; n]
}

#[test]
fn map_needs_one_tile_per_place() {
    assert!(TileMap::new(2, 2, vec![1u8, 2, 3, 4], visible(4)).is_ok());
    assert!(matches!(TileMap::new(2, 2, vec![1u8, 2, 3], visible(4)), Err(MapNotFull)));
    assert!(matches!(TileMap::new(2, 2, vec![1u8, 2, 3, 4], visible(5)), Err(MapNotFull)));
    assert!(TileMap::<u8>::new(0, 7, vec![], vec![]).is_ok());
}

#[test]
fn map_not_full_message() {
    assert_eq!(MapNotFull.message(), "not enough tiles sent");
}

#[test]
fn tiles_are_stored_row_by_row() {
    let map = TileMap::new(3, 2, vec![0u8, 1, 2, 3, 4, 5], visible(6)).unwrap();
    assert_eq!(map.width(), 3);
    assert_eq!(map.height(), 2);
    assert_eq!(*map.tile(Pos::new(0, 0)).unwrap(), 0);
    assert_eq!(*map.tile(Pos::new(2, 0)).unwrap(), 2);
    assert_eq!(*map.tile(Pos::new(0, 1)).unwrap(), 3);
    assert_eq!(*map.tile(Pos::new(2, 1)).unwrap(), 5);
    assert_eq!(map.tile(Pos::new(3, 0)), Err(OutOfBounds { x: 3, y: 0 }));
    assert_eq!(map.tile(Pos::new(0, 2)), Err(OutOfBounds { x: 0, y: 2 }));
}

#[test]
fn set_tile_replaces_one_tile() {
    let mut map = TileMap::new(2, 2, vec![0u8; 4], visible(4)).unwrap();
    assert_eq!(map.set_tile(Pos::new(1, 1), 9), Ok(()));
    assert_eq!(*map.tile(Pos::new(1, 1)).unwrap(), 9);
    assert_eq!(*map.tile(Pos::new(0, 1)).unwrap(), 0);
    assert_eq!(map.set_tile(Pos::new(2, 1), 9), Err(OutOfBounds { x: 2, y: 1 }));
}

#[test]
fn visibility_outside_the_map_is_hidden() {
    let map = TileMap::new(2, 1, vec![0u8; 2], vec![Visibility::Fogged, Visibility::Visible]).unwrap();
    assert_eq!(map.visibility(Pos::new(0, 0)), Visibility::Fogged);
    assert_eq!(map.visibility(Pos::new(1, 0)), Visibility::Visible);
    assert_eq!(map.visibility(Pos::new(2, 0)), Visibility::Hidden);
    assert_eq!(map.visibility(Pos::new(0, 5)), Visibility::Hidden);
}

#[test]
fn set_visibility_needs_one_entry_per_tile() {
    let mut map = TileMap::new(2, 1, vec![0u8; 2], visible(2)).unwrap();
    assert_eq!(map.set_visibility(vec![Visibility::Hidden]), Err(MapNotFull));
    assert_eq!(map.visibility(Pos::new(0, 0)), Visibility::Visible);
    assert_eq!(map.set_visibility(vec![Visibility::Hidden, Visibility::Fogged]), Ok(()));
    assert_eq!(map.visibility(Pos::new(0, 0)), Visibility::Hidden);
    assert_eq!(map.visibility(Pos::new(1, 0)), Visibility::Fogged);
}

#[test]
fn tile_data_updates() {
    let mut tile = Tile::from_data(3u32);
    assert_eq!(*tile.data(), 3);
    tile.update_data(8);
    assert_eq!(*tile.data(), 8);
}

#[test]
fn reading_after_writing_a_tile() {
    let mut map = TileMap::new(3, 3, vec![0u8; 9], visible(9)).unwrap();
    map.set_tile(Pos::new(2, 1), 7).unwrap();
    assert_eq!(*map.tile(Pos::new(2, 1)).unwrap(), 7);
    for x in 0..3 {
        for y in 0..3 {
            if (x, y) != (2, 1) {
                assert_eq!(*map.tile(Pos::new(x, y)).unwrap(), 0);
            }
        }
    }
}
