use riposte_client::terrain::{flood_plains_rotation, terrain_texture, terrain_textures, Side, SpriteRotate, Terrain};

#[test]
fn terrain_texture_names() {
    assert_eq!(terrain_texture(Terrain::Grassland, false), Some("texture/tile/grassland".to_string()));
    assert_eq!(terrain_texture(Terrain::Plains, true), Some("texture/tile/plains/hill".to_string()));
    assert_eq!(terrain_texture(Terrain::Mountains, false), Some("texture/tile/mountain".to_string()));
    assert_eq!(terrain_texture(Terrain::Mountains, true), None);
    assert_eq!(terrain_texture(Terrain::Ocean, true), None);
}

#[test]
fn terrain_textures_are_loaded_in_order() {
    let names: Vec<String> = terrain_textures().into_iter().map(|(_, _, name)| name).collect();
    assert_eq!(
        names,
        vec![
            "texture/tile/desert",
            "texture/tile/desert/hill",
            "texture/tile/grassland",
            "texture/tile/grassland/hill",
            "texture/tile/plains",
            "texture/tile/plains/hill",
            "texture/tile/ocean",
            "texture/tile/tundra",
            "texture/tile/tundra/hill",
            "texture/tile/mountain",
        ]
    );
}

#[test]
fn flood_plains_turn_toward_the_river() {
    assert_eq!(flood_plains_rotation(Some(Side::Up)), SpriteRotate::Zero);
    assert_eq!(flood_plains_rotation(Some(Side::Down)), SpriteRotate::Two);
    assert_eq!(flood_plains_rotation(Some(Side::Left)), SpriteRotate::One);
    assert_eq!(flood_plains_rotation(Some(Side::Right)), SpriteRotate::Three);
    assert_eq!(flood_plains_rotation(None), SpriteRotate::Zero);
}
