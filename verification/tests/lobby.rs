use riposte_client::lobby::{GameLobby, LobbyInfo, LobbySlot};
use riposte_client::options::{Action, OptionsState, OptionsStep};
use riposte_client::registry::{Assets, Civilization, Registry};

fn slot(id: u32, occupied: bool, civ: &str) -> LobbySlot {
    LobbySlot { id, occupied, civ_id: civ.to_string() }
}

fn civ(id: &str, name: &str) -> Civilization {
    Civilization { id: id.to_string(), name: name.to_string(), starting_techs: vec![] }
}

fn registry() -> Registry {
    let mut registry = Registry::new();
    registry.load_from_assets(Assets {
        unit_kinds: vec![],
        civs: vec![civ("rome", "Rome"), civ("greece", "Greece")],
        buildings: vec![],
        techs: vec![],
        resources: vec![],
    });
    registry
}

#[test]
fn empty_lobby() {
    let lobby = GameLobby::new();
    assert!(lobby.slots().is_empty());
    assert!(lobby.our_slot().is_none());
    assert!(!lobby.is_static());
    assert_eq!(lobby.player_civ(0), None);
}

#[test]
fn occupied_slots_get_their_civs() {
    let mut lobby = GameLobby::new();
    let info = LobbyInfo {
        slots: vec![slot(1, true, "rome"), slot(2, false, "nowhere"), slot(3, true, "greece")],
        your_slot_id: 3,
        is_static: true,
    };
    assert!(lobby.set_info(info, &registry()).is_ok());
    assert_eq!(lobby.player_civ(1), Some(0));
    assert_eq!(lobby.player_civ(2), None);
    assert_eq!(lobby.player_civ(3), Some(1));
    assert_eq!(lobby.slots().len(), 3);
    assert_eq!(lobby.slot(2).unwrap().civ_id, "nowhere");
    assert!(lobby.slot(4).is_none());
    assert_eq!(lobby.our_slot().unwrap().id, 3);
    assert!(lobby.is_static());
}

#[test]
fn an_unknown_civ_stops_the_update() {
    let mut lobby = GameLobby::new();
    let info = LobbyInfo {
        slots: vec![slot(1, true, "rome"), slot(2, true, "atlantis"), slot(3, true, "greece")],
        your_slot_id: 1,
        is_static: false,
    };
    let err = lobby.set_info(info, &registry()).unwrap_err();
    assert_eq!(err.message(), "no civilization exists with ID 'atlantis'");
    assert_eq!(lobby.player_civ(1), Some(0));
    assert_eq!(lobby.player_civ(3), None);
    assert_eq!(lobby.slots().len(), 3);
}

#[test]
fn options_window_steps() {
    let mut options = OptionsState::new();
    let step = options.update(true);
    assert_eq!(step, OptionsStep::SaveAndClose);
    assert_eq!(options.action(step), Some(Action::Close));
    let step = options.update(false);
    assert_eq!(step, OptionsStep::ReadSliders);
    assert_eq!(options.action(step), None);
    assert!(options.audio_needs_update(true, false));
    assert!(options.audio_needs_update(false, true));
    assert!(!options.audio_needs_update(false, false));
}
