use riposte_client::client::{confirm_move_request_id, ClientError, PendingResponses};
use riposte_client::info_bar::sign;
use riposte_client::popups::PopupWindows;
use riposte_client::pos::{Pos, Visibility};
use riposte_client::economy::Color;
use riposte_client::renderer::{
    status_text, unit_drawing, BorderSide, CityWorkedTilesOverlay, CulturalBorderRenderer, FogRenderer, TopUnit, UnitDrawing,
};
use riposte_client::sounds::{sounds_for_event, GameSound, GameSounds, SoundEvent, SoundVolume};
use riposte_client::tile::TileMap;
use riposte_client::tooltips::{count_entries, count_text_entries};

#[test]
fn count_entries_counts_runs() {
    assert_eq!(count_entries(vec!['a', 'a', 'b', 'a']), vec![(2, 'a'), (1, 'b'), (1, 'a')]);
    assert_eq!(count_entries(Vec::<u8>::new()), vec![]);
    assert_eq!(count_entries(vec![3, 3, 3]), vec![(3, 3)]);
    assert_eq!(count_entries(vec!["x", "y"]), vec![(1, "x"), (1, "y")]);
}

#[test]
fn sign_compares() {
    assert_eq!(sign(3, 2), ">");
    assert_eq!(sign(2, 3), "<");
    assert_eq!(sign(4, 4), "=");
    assert_eq!(sign(0, u32::MAX), "<");
}

#[test]
fn status_text_priorities() {
    assert_eq!(status_text(true, true, true), Some("Press <ESC> to exit...."));
    assert_eq!(status_text(false, true, true), Some("Waiting on other players...."));
    assert_eq!(status_text(false, false, true), Some("Press <ENTER> to end turn...."));
    assert_eq!(status_text(false, false, false), None);
}

#[test]
fn fog_covers_fogged_tiles_unless_cheating() {
    let map = TileMap::new(3, 1, vec![(); 3], vec![Visibility::Hidden, Visibility::Fogged, Visibility::Visible]).unwrap();
    let fog = FogRenderer::new();
    assert!(!fog.covers(&map, false, Pos::new(0, 0)));
    assert!(fog.covers(&map, false, Pos::new(1, 0)));
    assert!(!fog.covers(&map, false, Pos::new(2, 0)));
    assert!(!fog.covers(&map, true, Pos::new(1, 0)));
    assert!(!fog.covers(&map, false, Pos::new(9, 9)));
}

fn owners(width: u32, height: u32, tiles: Vec<Option<u64>>) -> TileMap<Option<u64>> {
    let n = tiles.len();
    TileMap::new(width, height, tiles, vec![Visibility::Visible; n]).unwrap()
}

#[test]
fn borders_run_between_different_owners() {
    let map = owners(3, 1, vec![Some(1), Some(1), Some(2)]);
    let borders = CulturalBorderRenderer::new();
    assert_eq!(borders.border_sides(&map, Pos::new(0, 0)), vec![]);
    assert_eq!(borders.border_sides(&map, Pos::new(1, 0)), vec![BorderSide::Right]);
    assert_eq!(borders.border_sides(&map, Pos::new(2, 0)), vec![BorderSide::Left]);
}

#[test]
fn borders_face_unowned_tiles_but_not_the_map_edge() {
    let map = owners(3, 3, vec![None, None, None, None, Some(4), None, None, None, None]);
    let borders = CulturalBorderRenderer::new();
    assert_eq!(
        borders.border_sides(&map, Pos::new(1, 1)),
        vec![BorderSide::Right, BorderSide::Left, BorderSide::Down, BorderSide::Up]
    );
    assert_eq!(borders.border_sides(&map, Pos::new(0, 0)), vec![]);
    let column = owners(1, 2, vec![Some(1), Some(2)]);
    assert_eq!(borders.border_sides(&column, Pos::new(0, 0)), vec![BorderSide::Down]);
    assert_eq!(borders.border_sides(&column, Pos::new(0, 1)), vec![BorderSide::Up]);
}

#[test]
fn worked_tiles_are_marked() {
    let overlay = CityWorkedTilesOverlay;
    let worked = vec![Pos::new(1, 2), Pos::new(3, 4)];
    assert!(overlay.marks(&worked, Pos::new(3, 4)));
    assert!(!overlay.marks(&worked, Pos::new(4, 3)));
    assert!(!overlay.marks(&vec![], Pos::new(0, 0)));
}

#[test]
fn own_unit_moves_make_sounds() {
    let moved = SoundEvent::UnitMoved { ours: true, target_forested: false };
    assert_eq!(sounds_for_event(moved, false), (vec![GameSound::Move], true));
    assert_eq!(sounds_for_event(moved, true), (vec![], false));
    let into_forest = SoundEvent::UnitMoved { ours: true, target_forested: true };
    assert_eq!(
        sounds_for_event(into_forest, false),
        (vec![GameSound::Move, GameSound::MoveThroughTrees], true)
    );
    let theirs = SoundEvent::UnitMoved { ours: false, target_forested: true };
    assert_eq!(sounds_for_event(theirs, false), (vec![], false));
}

#[test]
fn other_events_make_their_sounds() {
    assert_eq!(sounds_for_event(SoundEvent::WarDeclared, false).0, vec![GameSound::WarDeclared]);
    assert_eq!(sounds_for_event(SoundEvent::PeaceDeclared, true).0, vec![GameSound::PeaceDeclared]);
    let won = SoundEvent::CombatFinished { winner_ours: true, loser_ours: false };
    assert_eq!(sounds_for_event(won, false).0, vec![GameSound::CombatVictory]);
    let lost = SoundEvent::CombatFinished { winner_ours: false, loser_ours: true };
    assert_eq!(sounds_for_event(lost, false).0, vec![GameSound::CombatDefeat]);
    let others = SoundEvent::CombatFinished { winner_ours: false, loser_ours: false };
    assert_eq!(sounds_for_event(others, false).0, vec![]);
    assert_eq!(sounds_for_event(SoundEvent::BordersExpanded { ours: true }, false).0, vec![GameSound::BordersExpand]);
    assert_eq!(sounds_for_event(SoundEvent::BordersExpanded { ours: false }, false).0, vec![]);
    assert_eq!(sounds_for_event(SoundEvent::Other, false), (vec![], false));
}

#[test]
fn sound_paths_and_volumes() {
    assert_eq!(GameSound::Move.path(), "sound/event/move");
    assert_eq!(GameSound::MoveThroughTrees.path(), "sound/event/move_through_trees");
    assert_eq!(GameSound::WarDeclared.path(), "sound/event/war_declared");
    assert_eq!(GameSound::PeaceDeclared.path(), "sound/event/peace_declared");
    assert_eq!(GameSound::CombatVictory.path(), "sound/event/combat_victory");
    assert_eq!(GameSound::CombatDefeat.path(), "sound/event/combat_defeat");
    assert_eq!(GameSound::BordersExpand.path(), "sound/event/borders_expand");
    assert_eq!(GameSound::MoveThroughTrees.volume(), SoundVolume::UnitMoved);
    assert_eq!(GameSound::PeaceDeclared.volume(), SoundVolume::WarAndPeace);
    assert_eq!(GameSound::CombatDefeat.volume(), SoundVolume::Combat);
    assert_eq!(GameSound::BordersExpand.volume(), SoundVolume::BordersExpand);
}

#[test]
fn game_sounds_handle_events() {
    let mut sounds: GameSounds<u32> = GameSounds::new();
    assert!(sounds.playing.is_empty());
    assert_eq!(sounds.handle_game_event(SoundEvent::WarDeclared), vec![GameSound::WarDeclared]);
    assert_eq!(
        sounds.handle_game_event(SoundEvent::CombatFinished { winner_ours: false, loser_ours: true }),
        vec![GameSound::CombatDefeat]
    );
    // A move right after the sounds were set up falls in the quiet interval.
    let moved = SoundEvent::UnitMoved { ours: true, target_forested: false };
    assert_eq!(sounds.handle_game_event(moved), vec![]);
    let theirs = SoundEvent::UnitMoved { ours: false, target_forested: false };
    assert_eq!(sounds.handle_game_event(theirs), vec![]);
    assert!(sounds.playing.is_empty());
}

#[test]
fn client_error_messages() {
    assert_eq!(
        ClientError::Disconnected.message(),
        "disconnected from the server. Either it crashed or the connection failed."
    );
    assert_eq!(ClientError::MissingPacket.message(), "packet is null");
    assert_eq!(ClientError::Other(anyhow::Error::msg("game is full")).message(), "lobby error: game is full");
}

#[test]
fn popup_texts() {
    let popups = PopupWindows::new();
    assert_eq!(popups.error_popup_text("connection lost"), "@color[200,30,40][Error: connection lost]");
    assert_eq!(
        popups.genesis_popup_text("Roman", "caesar"),
        "   The sun rises on 4000 BCE. For eons the Roman people have lived a nomadic life. Now they are ready to settle their first city.\n        \n    caesar, lead your people to build a civilization that stands the test of time."
    );
}

#[test]
fn borders_pair_up_between_owned_tiles() {
    let map = owners(2, 2, vec![Some(1), Some(2), Some(3), None]);
    let borders = CulturalBorderRenderer::new();
    assert!(borders.border_sides(&map, Pos::new(0, 0)).contains(&BorderSide::Right));
    assert!(borders.border_sides(&map, Pos::new(1, 0)).contains(&BorderSide::Left));
    assert!(borders.border_sides(&map, Pos::new(0, 0)).contains(&BorderSide::Down));
    assert!(borders.border_sides(&map, Pos::new(0, 1)).contains(&BorderSide::Up));
}

#[test]
fn counted_runs_cover_every_item() {
    let items = vec![1, 1, 2, 3, 3, 3, 1];
    let counted = count_entries(items.clone());
    assert_eq!(counted.iter().map(|(n, _)| *n as usize).sum::<usize>(), items.len());
    assert!(counted.iter().all(|(n, _)| *n >= 1));
}

#[test]
fn responses_go_to_their_waiters_once() {
    let mut pending = PendingResponses::new();
    pending.register(4, 40);
    pending.register(5, 50);
    assert_eq!(pending.route(4), Some(40));
    assert_eq!(pending.route(4), None);
    assert_eq!(pending.route(6), None);
    pending.register(5, 51);
    assert_eq!(pending.route(5), Some(51));
}

#[test]
fn confirmation_needs_a_request_id() {
    assert_eq!(confirm_move_request_id(Some(9)), Ok(9));
    assert_eq!(confirm_move_request_id(None), Err(String::from("ConfirmMoveUnits requires a request ID")));
}

fn top_unit(id: u64, has_movement_left: bool) -> TopUnit {
    TopUnit {
        id,
        valid: true,
        at_tile: true,
        has_movement_left,
        nation_color: Color { red: 10, green: 20, blue: 30, alpha: 255 },
    }
}

#[test]
fn unit_layer_draws_the_top_unit_with_its_overlays() {
    let drawing = unit_drawing(Visibility::Visible, Some(top_unit(7, true)), None, &vec![]).unwrap();
    assert_eq!(
        drawing,
        UnitDrawing {
            unit: 7,
            nation_color: Color { red: 10, green: 20, blue: 30, alpha: 200 },
            health_bar: false,
            selection_color: None,
        }
    );
    let fighting = unit_drawing(Visibility::Visible, Some(top_unit(7, true)), Some((3, 7)), &vec![7]).unwrap();
    assert!(fighting.health_bar);
    assert_eq!(fighting.selection_color, Some(Color { red: 255, green: 255, blue: 255, alpha: 200 }));
    let tired = unit_drawing(Visibility::Visible, Some(top_unit(7, false)), Some((3, 4)), &vec![1, 7]).unwrap();
    assert!(!tired.health_bar);
    assert_eq!(tired.selection_color, Some(Color { red: 235, green: 51, blue: 0, alpha: 200 }));
}

#[test]
fn unit_layer_skips_fog_and_missing_units() {
    assert_eq!(unit_drawing(Visibility::Fogged, Some(top_unit(7, true)), None, &vec![]), None);
    assert_eq!(unit_drawing(Visibility::Visible, None, None, &vec![]), None);
    let mut gone = top_unit(7, true);
    gone.valid = false;
    assert_eq!(unit_drawing(Visibility::Visible, Some(gone), None, &vec![]), None);
    let mut elsewhere = top_unit(7, true);
    elsewhere.at_tile = false;
    assert_eq!(unit_drawing(Visibility::Visible, Some(elsewhere), None, &vec![]), None);
}

#[test]
fn text_entries_are_counted_in_runs() {
    let items: Vec<String> = vec!["a", "a", "b", "a"].into_iter().map(String::from).collect();
    assert_eq!(
        count_text_entries(items),
        vec![(2, String::from("a")), (1, String::from("b")), (1, String::from("a"))]
    );
    assert!(count_text_entries(vec![]).is_empty());
}

#[test]
fn move_sounds_wait_half_a_second() {
    let mut sounds: GameSounds<u32> = GameSounds::new();
    let ours = SoundEvent::UnitMoved { ours: true, target_forested: false };
    assert_eq!(sounds.sounds_after(ours, 600_000_000), vec![GameSound::Move]);
    assert_eq!(sounds.sounds_after(ours, 500_000_000), vec![GameSound::Move]);
    assert!(sounds.sounds_after(ours, 499_999_999).is_empty());
    assert!(sounds.sounds_after(SoundEvent::UnitMoved { ours: false, target_forested: true }, 600_000_000).is_empty());
    assert_eq!(sounds.sounds_after(SoundEvent::WarDeclared, 0), vec![GameSound::WarDeclared]);
}
