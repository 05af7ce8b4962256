//! What the tile layers of the game renderer draw where. Drawing itself is
//! the graphics layer's work.

use crate::economy::Color;
use crate::pos::{Pos, Visibility};
use crate::tile::TileMap;
use vstd::prelude::*;

verus! {

/// Covers tiles the player has seen before but cannot see now.
pub struct FogRenderer {}

impl FogRenderer {
    pub fn new() -> (renderer: Self)
        ensures
            renderer == (FogRenderer {}),
    {
        FogRenderer {}
    }

    /// Whether the fog covers the tile at `pos`: it is fogged, and the
    /// player does not cheat.
    pub fn covers<T>(&self, map: &TileMap<T>, cheat_mode: bool, pos: Pos) -> (covered: bool)
        requires
            map.wf(),
        ensures
            covered == (!cheat_mode && map.visibility_at(pos) == Visibility::Fogged),
    {
        if cheat_mode {
            return false;
        }
        map.visibility(pos) == Visibility::Fogged
    }
}

/// What the unit layer needs to know of the unit on top of a tile's stack.
#[derive(Clone, Copy, Debug, PartialEq, Eq, Structural)]
pub struct TopUnit {
    pub id: u64,
    /// The unit still exists.
    pub valid: bool,
    /// The unit stands on the tile being drawn.
    pub at_tile: bool,
    /// The unit can still move this turn.
    pub has_movement_left: bool,
    /// The colour of the owner's civilization; its alpha is not used.
    pub nation_color: Color,
}

/// How the unit layer draws a tile's top unit.
#[derive(Clone, Copy, Debug, PartialEq, Eq, Structural)]
pub struct UnitDrawing {
    pub unit: u64,
    /// The colour of the nationality rectangle.
    pub nation_color: Color,
    /// Whether a health bar is drawn: the unit fights in the battle being
    /// shown.
    pub health_bar: bool,
    /// The colour of the spinning ring around a selected unit, if it is
    /// selected: white while it can move, red once it cannot.
    pub selection_color: Option<Color>,
}

/// The colour of the ring around a selected unit: white while it can move,
/// red once it cannot, at alpha 200.
pub open spec fn selection_color(has_movement_left: bool) -> Color {
    if has_movement_left {
        Color { red: 255, green: 255, blue: 255, alpha: 200 }
    } else {
        Color { red: 235, green: 51, blue: 0, alpha: 200 }
    }
}

/// How the unit layer draws the tile with visibility `visibility` whose
/// stack has `top` on top: nothing on a fogged tile, on a tile without
/// units, or where the top unit is gone or elsewhere; otherwise the unit,
/// its nationality in the owner's colour at alpha 200, a health bar where it
/// is the attacker or the defender of the battle `combat` being shown, and a
/// ring where it is among `selected`.
pub fn unit_drawing(visibility: Visibility, top: Option<TopUnit>, combat: Option<(u64, u64)>, selected: &Vec<u64>) -> (drawing: Option<UnitDrawing>)
    ensures
        (visibility == Visibility::Fogged || top is None || !top->Some_0.valid || !top->Some_0.at_tile) ==> drawing is None,
        !(visibility == Visibility::Fogged || top is None || !top->Some_0.valid || !top->Some_0.at_tile) ==> {
            let t = top->Some_0;
            drawing == Some(UnitDrawing {
                unit: t.id,
                nation_color: Color { red: t.nation_color.red, green: t.nation_color.green, blue: t.nation_color.blue, alpha: 200 },
                health_bar: combat matches Some((attacker, defender)) && (attacker == t.id || defender == t.id),
                selection_color: if selected@.contains(t.id) {
                    Some(selection_color(t.has_movement_left))
                } else {
                    None
                },
            })
        },
{
    if visibility == Visibility::Fogged {
        return None;
    }
    let t = match top {
        Some(t) => t,
        None => return None,
    };
    if !t.valid || !t.at_tile {
        return None;
    }
    let health_bar = match combat {
        Some((attacker, defender)) => attacker == t.id || defender == t.id,
        None => false,
    };
    let mut is_selected = false;
    let mut i: usize = 0;
    while i < selected.len()
        invariant
            0 <= i <= selected@.len(),
            is_selected == (exists|j: int| 0 <= j < i && selected@[j] == t.id),
        decreases selected@.len() - i,
    {
        if selected[i] == t.id {
            is_selected = true;
        }
        i = i + 1;
    }
    let selection = if is_selected {
        Some(Color {
            red: if t.has_movement_left { 255 } else { 235 },
            green: if t.has_movement_left { 255 } else { 51 },
            blue: if t.has_movement_left { 255 } else { 0 },
            alpha: 200,
        })
    } else {
        None
    };
    Some(UnitDrawing {
        unit: t.id,
        nation_color: Color { red: t.nation_color.red, green: t.nation_color.green, blue: t.nation_color.blue, alpha: 200 },
        health_bar,
        selection_color: selection,
    })
}

/// A side of a tile.
#[derive(Clone, Copy, Debug, PartialEq, Eq, Structural)]
pub enum BorderSide {
    Right,
    Left,
    Down,
    Up,
}

/// The tile beyond the given side of the tile at `pos`, the coordinates
/// wrapping around below zero as signed offsets converted back to unsigned do.
pub open spec fn beyond(pos: Pos, side: BorderSide) -> Pos {
    match side {
        BorderSide::Right => Pos { x: (pos.x + 1) as u32, y: pos.y },
        BorderSide::Left => Pos { x: if pos.x == 0 { u32::MAX } else { (pos.x - 1) as u32 }, y: pos.y },
        BorderSide::Down => Pos { x: pos.x, y: (pos.y + 1) as u32 },
        BorderSide::Up => Pos { x: pos.x, y: if pos.y == 0 { u32::MAX } else { (pos.y - 1) as u32 } },
    }
}

/// A border is painted along `side` of the tile at `pos`: the tile has an
/// owner, and the tile beyond that side lies on the map and has another
/// owner, or none.
pub open spec fn paints_border(owners: TileMap<Option<u64>>, pos: Pos, side: BorderSide) -> bool {
    &&& owners.tile_at(pos) is Some
    &&& owners.in_bounds(beyond(pos, side))
    &&& owners.tile_at(beyond(pos, side)) != owners.tile_at(pos)
}

/// The sides of the tile at `pos` that get a border, in the order right,
/// left, down, up.
pub open spec fn border_sides_at(owners: TileMap<Option<u64>>, pos: Pos) -> Seq<BorderSide> {
    let one = |side: BorderSide| if paints_border(owners, pos, side) { seq![side] } else { Seq::empty() };
    one(BorderSide::Right) + one(BorderSide::Left) + one(BorderSide::Down) + one(BorderSide::Up)
}

/// Borders come in pairs: where a border runs along the right (lower) side
/// of an owned tile and the tile beyond it is owned too, that tile has a
/// border along its left (upper) side.
pub proof fn lemma_borders_pair_up(owners: TileMap<Option<u64>>, pos: Pos)
    requires
        owners.wf(),
        owners.in_bounds(pos),
    ensures
        paints_border(owners, pos, BorderSide::Right) && owners.tile_at(beyond(pos, BorderSide::Right)) is Some
            ==> paints_border(owners, beyond(pos, BorderSide::Right), BorderSide::Left),
        paints_border(owners, pos, BorderSide::Down) && owners.tile_at(beyond(pos, BorderSide::Down)) is Some
            ==> paints_border(owners, beyond(pos, BorderSide::Down), BorderSide::Up),
{
    if owners.in_bounds(beyond(pos, BorderSide::Right)) {
        assert(beyond(beyond(pos, BorderSide::Right), BorderSide::Left) == pos);
    }
    if owners.in_bounds(beyond(pos, BorderSide::Down)) {
        assert(beyond(beyond(pos, BorderSide::Down), BorderSide::Up) == pos);
    }
}

/// Renders cultural borders when two adjacent
/// tiles have different owners.
pub struct CulturalBorderRenderer {}

impl CulturalBorderRenderer {
    pub fn new() -> (renderer: Self)
        ensures
            renderer == (CulturalBorderRenderer {}),
    {
        CulturalBorderRenderer {}
    }

    /// The sides of the tile at `pos` along which to paint the owner's
    /// border. `owners` holds each tile's owning player.
    pub fn border_sides(&self, owners: &TileMap<Option<u64>>, pos: Pos) -> (sides: Vec<BorderSide>)
        requires
            owners.wf(),
            owners.in_bounds(pos),
        ensures
            sides@ == border_sides_at(*owners, pos),
    {
        let mut sides: Vec<BorderSide> = Vec::new();
        let owner = match owners.tile(pos) {
            Ok(o) => *o,
            Err(_) => None,
        };
        if owner.is_none() {
            proof {
                assert(border_sides_at(*owners, pos) =~= Seq::<BorderSide>::empty());
            }
            return sides;
        }
        let ghost expected = border_sides_at(*owners, pos);
        let candidates = [BorderSide::Right, BorderSide::Left, BorderSide::Down, BorderSide::Up];
        let mut k: usize = 0;
        while k < 4
            invariant
                0 <= k <= 4,
                candidates@ == seq![BorderSide::Right, BorderSide::Left, BorderSide::Down, BorderSide::Up],
                owners.wf(),
                owner == owners.tile_at(pos),
                owner is Some,
                owners.in_bounds(pos),
                sides@ == border_prefix(*owners, pos, candidates@, k as int),
            decreases 4 - k,
        {
            let side = candidates[k];
            let next = match side {
                BorderSide::Right => Pos { x: pos.x + 1, y: pos.y },
                BorderSide::Left => Pos { x: if pos.x == 0 { u32::MAX } else { pos.x - 1 }, y: pos.y },
                BorderSide::Down => Pos { x: pos.x, y: pos.y + 1 },
                BorderSide::Up => Pos { x: pos.x, y: if pos.y == 0 { u32::MAX } else { pos.y - 1 } },
            };
            assert(next == beyond(pos, side));
            if let Ok(other) = owners.tile(next) {
                if *other != owner {
                    sides.push(side);
                }
            }
            k = k + 1;
        }
        proof {
            reveal_with_fuel(border_prefix, 5);
            let c = candidates@;
            assert(c[0] == BorderSide::Right && c[1] == BorderSide::Left && c[2] == BorderSide::Down && c[3] == BorderSide::Up);
            assert(border_prefix(*owners, pos, c, 4) =~= border_sides_at(*owners, pos));
        }
        sides
    }
}

/// The sides among the first `k` candidates that get a border.
pub open spec fn border_prefix(owners: TileMap<Option<u64>>, pos: Pos, candidates: Seq<BorderSide>, k: int) -> Seq<BorderSide>
    decreases k,
{
    if k <= 0 {
        Seq::empty()
    } else {
        let rest = border_prefix(owners, pos, candidates, k - 1);
        if paints_border(owners, pos, candidates[k - 1]) {
            rest.push(candidates[k - 1])
        } else {
            rest
        }
    }
}

/// Marks the tiles worked by the city whose screen is open.
pub struct CityWorkedTilesOverlay;

impl CityWorkedTilesOverlay {
    /// Whether the tile at `pos` is among the city's worked tiles.
    pub fn marks(&self, worked_tiles: &Vec<Pos>, pos: Pos) -> (marked: bool)
        ensures
            marked == worked_tiles@.contains(pos),
    {
        let mut i: usize = 0;
        while i < worked_tiles.len()
            invariant
                0 <= i <= worked_tiles@.len(),
                forall|j: int| 0 <= j < i ==> worked_tiles@[j] != pos,
            decreases worked_tiles@.len() - i,
        {
            if worked_tiles[i] == pos {
                return true;
            }
            i = i + 1;
        }
        false
    }
}

/// The flashing status text at the bottom of the screen, if any: how to
/// leave the city screen, that the other players are awaited, or how to end
/// the turn.
pub fn status_text(view_locked: bool, waiting_on_turn_end: bool, can_end_turn: bool) -> (text: Option<&'static str>)
    ensures
        view_locked ==> (text matches Some(t) && t@ == "Press <ESC> to exit...."@),
        !view_locked && waiting_on_turn_end ==> (text matches Some(t) && t@ == "Waiting on other players...."@),
        !view_locked && !waiting_on_turn_end && can_end_turn ==> (text matches Some(t) && t@ == "Press <ENTER> to end turn...."@),
        !view_locked && !waiting_on_turn_end && !can_end_turn ==> text is None,
{
    if view_locked {
        Some("Press <ESC> to exit....")
    } else if waiting_on_turn_end {
        Some("Waiting on other players....")
    } else if can_end_turn {
        Some("Press <ENTER> to end turn....")
    } else {
        None
    }
}

} // verus!
