//! The tile map: every tile of the map, and what the player can see of it.

use crate::pos::{OutOfBounds, Pos, Visibility};
use vstd::prelude::*;

verus! {

/// A tile on the map, wrapping the data the server sent for it.
#[derive(Debug)]
pub struct Tile<D> {
    data: D,
}

impl<D> Tile<D> {
    pub closed spec fn spec_data(&self) -> D {
        self.data
    }

    pub fn from_data(data: D) -> (tile: Self)
        ensures
            tile.spec_data() == data,
    {
        Tile { data }
    }

    pub fn update_data(&mut self, data: D)
        ensures
            final(self).spec_data() == data,
    {
        self.data = data;
    }

    /// The tile's data.
    pub fn data(&self) -> (data: &D)
        ensures
            *data == self.spec_data(),
    {
        &self.data
    }
}

/// The error when the server sent fewer (or more) tiles or visibility entries
/// than the map has room for.
#[derive(Debug, Clone, Copy, PartialEq, Eq, Structural)]
pub struct MapNotFull;

impl MapNotFull {
    /// The error's message.
    pub fn message(&self) -> (text: &'static str)
        ensures
            text@ == "not enough tiles sent"@,
    {
        "not enough tiles sent"
    }
}

/// The map. Stores all tiles and visibility data, row by row: the tile at
/// `(x, y)` is entry `x + y * width`.
pub struct TileMap<T> {
    width: u32,
    height: u32,
    tiles: Vec<T>,
    visibility: Vec<Visibility>,
}

impl<T> TileMap<T> {
    pub closed spec fn spec_width(&self) -> u32 {
        self.width
    }

    pub closed spec fn spec_height(&self) -> u32 {
        self.height
    }

    pub closed spec fn tiles_seq(&self) -> Seq<T> {
        self.tiles@
    }

    pub closed spec fn visibility_seq(&self) -> Seq<Visibility> {
        self.visibility@
    }

    /// The number of tiles a map of the given size holds.
    pub open spec fn area(&self) -> int {
        self.spec_width() * self.spec_height()
    }

    /// Every tile and every visibility entry has its place, and every place
    /// has a `u32` index.
    pub open spec fn wf(&self) -> bool {
        &&& self.tiles_seq().len() == self.area()
        &&& self.visibility_seq().len() == self.area()
        &&& self.area() <= u32::MAX
    }

    pub open spec fn in_bounds(&self, pos: Pos) -> bool {
        pos.x < self.spec_width() && pos.y < self.spec_height()
    }

    pub open spec fn index_of(&self, pos: Pos) -> int {
        pos.x + pos.y * self.spec_width()
    }

    pub open spec fn tile_at(&self, pos: Pos) -> T {
        self.tiles_seq()[self.index_of(pos)]
    }

    /// What the player sees of the tile at `pos`; nothing outside the map.
    pub open spec fn visibility_at(&self, pos: Pos) -> Visibility {
        if self.in_bounds(pos) {
            self.visibility_seq()[self.index_of(pos)]
        } else {
            Visibility::Hidden
        }
    }

    /// Builds a map of `width` by `height` tiles; fails unless there is
    /// exactly one tile and one visibility entry for each place.
    pub fn new(width: u32, height: u32, tiles: Vec<T>, visibility: Vec<Visibility>) -> (map: Result<Self, MapNotFull>)
        requires
            width * height <= u32::MAX,
            tiles.len() <= u32::MAX,
            visibility.len() <= u32::MAX,
        ensures
            map is Ok <==> (tiles.len() == width * height && visibility.len() == width * height),
            map matches Ok(m) ==> {
                &&& m.wf()
                &&& m.spec_width() == width
                &&& m.spec_height() == height
                &&& m.tiles_seq() == tiles@
                &&& m.visibility_seq() == visibility@
            },
    {
        let area = width * height;
        if area != tiles.len() as u32 || area != visibility.len() as u32 {
            return Err(MapNotFull);
        }
        Ok(TileMap { width, height, tiles, visibility })
    }

    fn index(&self, pos: Pos) -> (index: Result<usize, OutOfBounds>)
        requires
            self.wf(),
        ensures
            match index {
                Ok(i) => self.in_bounds(pos) && i == self.index_of(pos) && i < self.area(),
                Err(e) => !self.in_bounds(pos) && e == (OutOfBounds { x: pos.x, y: pos.y }),
            },
    {
        if pos.x >= self.width || pos.y >= self.height {
            Err(OutOfBounds { x: pos.x, y: pos.y })
        } else {
            proof {
                lemma_index_in_area(pos.x as int, pos.y as int, self.width as int, self.height as int);
            }
            Ok((pos.x + pos.y * self.width) as usize)
        }
    }

    /// The tile at `pos`.
    pub fn tile(&self, pos: Pos) -> (tile: Result<&T, OutOfBounds>)
        requires
            self.wf(),
        ensures
            match tile {
                Ok(t) => self.in_bounds(pos) && *t == self.tile_at(pos),
                Err(e) => !self.in_bounds(pos) && e == (OutOfBounds { x: pos.x, y: pos.y }),
            },
    {
        let index = self.index(pos)?;
        Ok(&self.tiles[index])
    }

    /// Replaces the tile at `pos`, as the server's tile updates do.
    pub fn set_tile(&mut self, pos: Pos, tile: T) -> (r: Result<(), OutOfBounds>)
        requires
            old(self).wf(),
        ensures
            final(self).wf(),
            final(self).spec_width() == old(self).spec_width(),
            final(self).spec_height() == old(self).spec_height(),
            final(self).visibility_seq() == old(self).visibility_seq(),
            match r {
                Ok(_) => old(self).in_bounds(pos) && final(self).tiles_seq() == old(self).tiles_seq().update(old(self).index_of(pos), tile),
                Err(e) => !old(self).in_bounds(pos) && e == (OutOfBounds { x: pos.x, y: pos.y }) && final(self).tiles_seq() == old(self).tiles_seq(),
            },
    {
        let index = self.index(pos)?;
        self.tiles.set(index, tile);
        Ok(())
    }

    /// What the player sees of the tile at `pos`: `Hidden` outside the map.
    pub fn visibility(&self, pos: Pos) -> (v: Visibility)
        requires
            self.wf(),
        ensures
            v == self.visibility_at(pos),
    {
        match self.index(pos) {
            Ok(i) => self.visibility[i],
            Err(_) => Visibility::Hidden,
        }
    }

    /// Replaces what the player sees of the whole map; fails, changing
    /// nothing, unless there is one entry per tile.
    pub fn set_visibility(&mut self, visibility: Vec<Visibility>) -> (r: Result<(), MapNotFull>)
        requires
            old(self).wf(),
            visibility.len() <= u32::MAX,
        ensures
            final(self).wf(),
            final(self).spec_width() == old(self).spec_width(),
            final(self).spec_height() == old(self).spec_height(),
            final(self).tiles_seq() == old(self).tiles_seq(),
            r is Ok <==> visibility.len() == old(self).area(),
            r is Ok ==> final(self).visibility_seq() == visibility@,
            r is Err ==> final(self).visibility_seq() == old(self).visibility_seq(),
    {
        if visibility.len() as u32 != self.width * self.height {
            Err(MapNotFull)
        } else {
            self.visibility = visibility;
            Ok(())
        }
    }

    #[verifier::when_used_as_spec(spec_width)]
    pub fn width(&self) -> (w: u32)
        ensures
            w == self.spec_width(),
    {
        self.width
    }

    #[verifier::when_used_as_spec(spec_height)]
    pub fn height(&self) -> (h: u32)
        ensures
            h == self.spec_height(),
    {
        self.height
    }
}

/// Reading a tile right after replacing it gives the new tile, and
/// replacing it leaves every other tile of the map as it was.
pub proof fn lemma_tile_after_set<T>(before: TileMap<T>, after: TileMap<T>, pos: Pos, tile: T, other: Pos)
    requires
        before.wf(),
        before.in_bounds(pos),
        after.spec_width() == before.spec_width(),
        after.spec_height() == before.spec_height(),
        after.tiles_seq() == before.tiles_seq().update(before.index_of(pos), tile),
    ensures
        after.tile_at(pos) == tile,
        before.in_bounds(other) && other != pos ==> after.tile_at(other) == before.tile_at(other),
{
    lemma_index_in_area(pos.x as int, pos.y as int, before.spec_width() as int, before.spec_height() as int);
    if before.in_bounds(other) && other != pos {
        lemma_index_in_area(other.x as int, other.y as int, before.spec_width() as int, before.spec_height() as int);
        if before.index_of(other) == before.index_of(pos) {
            lemma_index_injective(other.x as int, other.y as int, pos.x as int, pos.y as int, before.spec_width() as int);
        }
    }
}

/// A place inside a `width` by `height` map has an index below the area.
pub proof fn lemma_index_in_area(x: int, y: int, width: int, height: int)
    requires
        0 <= x < width,
        0 <= y < height,
    ensures
        0 <= x + y * width < width * height,
{
    assert(y * width <= (height - 1) * width) by (nonlinear_arith)
        requires
            0 <= y < height,
            0 < width,
    ;
    assert((height - 1) * width + width == width * height) by (nonlinear_arith);
    assert(0 <= y * width) by (nonlinear_arith)
        requires
            0 <= y,
            0 < width,
    ;
}

/// Distinct places inside a map have distinct indices.
pub proof fn lemma_index_injective(x1: int, y1: int, x2: int, y2: int, width: int)
    requires
        0 <= x1 < width,
        0 <= x2 < width,
        0 <= y1,
        0 <= y2,
        x1 + y1 * width == x2 + y2 * width,
    ensures
        x1 == x2 && y1 == y2,
{
    if y1 < y2 {
        assert(y1 * width + width <= y2 * width) by (nonlinear_arith)
            requires
                y1 < y2,
                0 < width,
        ;
    } else if y2 < y1 {
        assert(y2 * width + width <= y1 * width) by (nonlinear_arith)
            requires
                y2 < y1,
                0 < width,
        ;
    }
}

} // verus!
