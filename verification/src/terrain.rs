//! The terrain layer of the renderer: which texture each tile shows.

use vstd::prelude::*;

verus! {

/// The terrain of a tile.
#[derive(Clone, Copy, Debug, PartialEq, Eq, Structural)]
pub enum Terrain {
    Desert,
    Grassland,
    Plains,
    Ocean,
    Tundra,
    Mountains,
}

/// A side of a tile, where a river may run.
#[derive(Clone, Copy, Debug, PartialEq, Eq, Structural)]
pub enum Side {
    Up,
    Down,
    Left,
    Right,
}

/// How far a sprite is turned, in quarter turns.
#[derive(Clone, Copy, Debug, PartialEq, Eq, Structural)]
pub enum SpriteRotate {
    Zero,
    One,
    Two,
    Three,
}

/// The name a terrain's textures are filed under.
pub open spec fn terrain_id(terrain: Terrain) -> Seq<char> {
    match terrain {
        Terrain::Desert => "desert"@,
        Terrain::Grassland => "grassland"@,
        Terrain::Plains => "plains"@,
        Terrain::Ocean => "ocean"@,
        Terrain::Tundra => "tundra"@,
        Terrain::Mountains => "mountain"@,
    }
}

/// Whether a terrain has a texture with hills: all but ocean and mountains.
pub open spec fn has_hills(terrain: Terrain) -> bool {
    !(terrain == Terrain::Ocean || terrain == Terrain::Mountains)
}

/// The texture of a terrain, hilled or not.
pub open spec fn texture_name(terrain: Terrain, hilled: bool) -> Seq<char> {
    if hilled {
        "texture/tile/"@ + terrain_id(terrain) + "/hill"@
    } else {
        "texture/tile/"@ + terrain_id(terrain)
    }
}

/// The textures the terrain layer loads: each terrain in turn, without and
/// then with hills where it has them.
pub open spec fn texture_keys() -> Seq<(Terrain, bool)> {
    seq![
        (Terrain::Desert, false), (Terrain::Desert, true),
        (Terrain::Grassland, false), (Terrain::Grassland, true),
        (Terrain::Plains, false), (Terrain::Plains, true),
        (Terrain::Ocean, false),
        (Terrain::Tundra, false), (Terrain::Tundra, true),
        (Terrain::Mountains, false),
    ]
}

/// The name a terrain's textures are filed under.
fn terrain_name(terrain: Terrain) -> (name: &'static str)
    ensures
        name@ == terrain_id(terrain),
{
    match terrain {
        Terrain::Desert => "desert",
        Terrain::Grassland => "grassland",
        Terrain::Plains => "plains",
        Terrain::Ocean => "ocean",
        Terrain::Tundra => "tundra",
        Terrain::Mountains => "mountain",
    }
}

/// The texture of a terrain, hilled or not; none for hilled ocean or
/// mountains.
pub fn terrain_texture(terrain: Terrain, hilled: bool) -> (name: Option<String>)
    ensures
        hilled && !has_hills(terrain) ==> name is None,
        !(hilled && !has_hills(terrain)) ==> (name matches Some(n) && n@ == texture_name(terrain, hilled)),
{
    if hilled && (terrain == Terrain::Ocean || terrain == Terrain::Mountains) {
        return None;
    }
    let mut name = String::from_str("texture/tile/");
    name.append(terrain_name(terrain));
    if hilled {
        name.append("/hill");
    }
    Some(name)
}

/// The textures the terrain layer loads, with their names, in loading
/// order.
pub fn terrain_textures() -> (textures: Vec<(Terrain, bool, String)>)
    ensures
        textures@.len() == texture_keys().len(),
        forall|i: int| 0 <= i < textures@.len() ==> {
            &&& (#[trigger] textures@[i]).0 == texture_keys()[i].0
            &&& textures@[i].1 == texture_keys()[i].1
            &&& textures@[i].2@ == texture_name(texture_keys()[i].0, texture_keys()[i].1)
        },
{
    let terrains = [Terrain::Desert, Terrain::Grassland, Terrain::Plains, Terrain::Ocean, Terrain::Tundra, Terrain::Mountains];
    let mut textures: Vec<(Terrain, bool, String)> = Vec::new();
    let ghost mut keys: Seq<(Terrain, bool)> = Seq::empty();
    let mut t: usize = 0;
    while t < 6
        invariant
            0 <= t <= 6,
            terrains@ == seq![Terrain::Desert, Terrain::Grassland, Terrain::Plains, Terrain::Ocean, Terrain::Tundra, Terrain::Mountains],
            textures@.len() == keys.len(),
            forall|i: int| 0 <= i < textures@.len() ==> {
                &&& (#[trigger] textures@[i]).0 == keys[i].0
                &&& textures@[i].1 == keys[i].1
                &&& textures@[i].2@ == texture_name(keys[i].0, keys[i].1)
            },
            t == 0 ==> keys == Seq::<(Terrain, bool)>::empty(),
            t == 1 ==> keys == texture_keys().take(2),
            t == 2 ==> keys == texture_keys().take(4),
            t == 3 ==> keys == texture_keys().take(6),
            t == 4 ==> keys == texture_keys().take(7),
            t == 5 ==> keys == texture_keys().take(9),
            t == 6 ==> keys == texture_keys(),
        decreases 6 - t,
    {
        let terrain = terrains[t];
        let plain = terrain_texture(terrain, false);
        match plain {
            Some(name) => {
                textures.push((terrain, false, name));
                proof {
                    keys = keys.push((terrain, false));
                }
            },
            None => {},
        }
        let hilled = terrain_texture(terrain, true);
        match hilled {
            Some(name) => {
                textures.push((terrain, true, name));
                proof {
                    keys = keys.push((terrain, true));
                }
            },
            None => {},
        }
        proof {
            assert(texture_keys().take(2) =~= seq![(Terrain::Desert, false), (Terrain::Desert, true)]);
            assert(texture_keys().take(4) =~= texture_keys().take(2) + seq![(Terrain::Grassland, false), (Terrain::Grassland, true)]);
            assert(texture_keys().take(6) =~= texture_keys().take(4) + seq![(Terrain::Plains, false), (Terrain::Plains, true)]);
            assert(texture_keys().take(7) =~= texture_keys().take(6).push((Terrain::Ocean, false)));
            assert(texture_keys().take(9) =~= texture_keys().take(7) + seq![(Terrain::Tundra, false), (Terrain::Tundra, true)]);
            assert(texture_keys() =~= texture_keys().take(9).push((Terrain::Mountains, false)));
        }
        t = t + 1;
    }
    textures
}

/// How far the flood-plains texture turns so that its river runs along the
/// tile's river side; a tile without a known river side takes the upper.
pub fn flood_plains_rotation(river_side: Option<Side>) -> (rotation: SpriteRotate)
    ensures
        rotation == match river_side {
            Some(Side::Down) => SpriteRotate::Two,
            Some(Side::Left) => SpriteRotate::One,
            Some(Side::Right) => SpriteRotate::Three,
            _ => SpriteRotate::Zero,
        },
{
    match river_side {
        Some(Side::Up) | None => SpriteRotate::Zero,
        Some(Side::Down) => SpriteRotate::Two,
        Some(Side::Left) => SpriteRotate::One,
        Some(Side::Right) => SpriteRotate::Three,
    }
}

} // verus!
