use riposte_client::lobby_screen::{lobby_request, slot_row, LobbyMessage, LobbyRequest, SlotOccupant};
use riposte_client::menu::{initial_menu_screen, menu_step, MenuAction, MenuEffect, MenuEvent, MenuScreen};
use riposte_client::world::{is_view_locked, OperationQueue};

#[test]
fn slot_rows_show_each_kind_of_player() {
    let empty = slot_row(SlotOccupant::Empty, None, None, false);
    assert_eq!(empty.name, "@color[180, 180, 180][<empty>]");
    assert_eq!(empty.status, "@color[30,200,50][Open]");
    assert_eq!(empty.delete_text, "Remove");
    assert_eq!(empty.civ, "-");
    assert_eq!(empty.leader, "-");
    assert!(!empty.choices_editable);
    assert!(!empty.delete_hidden);
    assert!(!empty.user_info_missing);

    let admin = slot_row(
        SlotOccupant::Human { is_admin: true },
        Some("ana"),
        Some(("Rome", "200, 0, 0, 255", "Caesar")),
        true,
    );
    assert_eq!(admin.name, "ana");
    assert_eq!(admin.status, "@color[230,20,10][Admin]");
    assert_eq!(admin.delete_text, "Kick");
    assert_eq!(admin.civ, "@color[200, 0, 0, 255][Rome]");
    assert_eq!(admin.leader, "Caesar");
    assert!(admin.choices_editable);
    assert!(admin.delete_hidden);

    let stranger = slot_row(SlotOccupant::Human { is_admin: false }, None, None, false);
    assert_eq!(stranger.name, "<unknown>");
    assert_eq!(stranger.status, "@color[240,78,152][Human]");
    assert!(stranger.user_info_missing);

    let ai = slot_row(SlotOccupant::Ai, None, Some(("Greece", "0, 0, 200, 255", "Pericles")), false);
    assert_eq!(ai.name, "<AI>");
    assert_eq!(ai.status, "@color[30,120,200][AI]");
    assert_eq!(ai.delete_text, "Remove");
    assert!(!ai.choices_editable);
}

#[test]
fn lobby_requests_follow_the_buttons() {
    assert_eq!(lobby_request(LobbyMessage::AddAiSlot, 2, 3, None), Ok(Some(LobbyRequest::CreateSlot { is_ai: true })));
    assert_eq!(lobby_request(LobbyMessage::AddHumanSlot, 2, 3, None), Ok(Some(LobbyRequest::CreateSlot { is_ai: false })));
    assert_eq!(lobby_request(LobbyMessage::AddAiSlot, 3, 3, None), Ok(None));
    assert_eq!(lobby_request(LobbyMessage::DeleteSlot { slot: 4 }, 3, 3, None), Ok(Some(LobbyRequest::DeleteSlot { slot: 4 })));
    assert_eq!(lobby_request(LobbyMessage::StartGame, 1, 3, None), Ok(Some(LobbyRequest::StartGame)));
    assert_eq!(lobby_request(LobbyMessage::SettingsChanged, 1, 3, None), Ok(Some(LobbyRequest::SetMapgenSettings)));
    assert_eq!(
        lobby_request(LobbyMessage::SetCiv { civ: 7 }, 1, 3, None),
        Ok(Some(LobbyRequest::SetCivAndLeader { civ: 7, leader: 0 }))
    );
    assert_eq!(
        lobby_request(LobbyMessage::SetLeader { leader: 2 }, 1, 3, Some(7)),
        Ok(Some(LobbyRequest::SetCivAndLeader { civ: 7, leader: 2 }))
    );
    assert_eq!(
        lobby_request(LobbyMessage::SetLeader { leader: 2 }, 1, 3, None),
        Err(String::from("must be human player"))
    );
}

#[test]
fn menu_moves_between_screens() {
    assert_eq!(initial_menu_screen(true), MenuScreen::MainMenu);
    assert_eq!(initial_menu_screen(false), MenuScreen::Login);
    assert_eq!(
        menu_step(MenuScreen::MainMenu, MenuEvent::OpenOptions),
        (MenuScreen::Options, MenuEffect::NoEffect, None)
    );
    assert_eq!(
        menu_step(MenuScreen::MainMenu, MenuEvent::LogOut),
        (MenuScreen::Login, MenuEffect::ClearAccount, None)
    );
    assert_eq!(
        menu_step(MenuScreen::Login, MenuEvent::LoggedIn),
        (MenuScreen::MainMenu, MenuEffect::SetAccount, None)
    );
    assert_eq!(
        menu_step(MenuScreen::MainMenu, MenuEvent::PlaySingleplayer),
        (MenuScreen::MainMenu, MenuEffect::NoEffect, Some(MenuAction::EnterSingleplayerLobby { from_save: false }))
    );
    assert_eq!(
        menu_step(MenuScreen::SavesList, MenuEvent::LoadSave),
        (MenuScreen::SavesList, MenuEffect::NoEffect, Some(MenuAction::EnterSingleplayerLobby { from_save: true }))
    );
    assert_eq!(
        menu_step(MenuScreen::ServerList, MenuEvent::JoinGame),
        (MenuScreen::ServerList, MenuEffect::NoEffect, Some(MenuAction::EnterLobby))
    );
    assert_eq!(
        menu_step(MenuScreen::MainMenu, MenuEvent::HostMultiplayer),
        (MenuScreen::MainMenu, MenuEffect::NoEffect, Some(MenuAction::EnterMultiplayerLobby))
    );
    for (screen, closing) in [
        (MenuScreen::Options, MenuEvent::OptionsClosed),
        (MenuScreen::ServerList, MenuEvent::ServerListClosed),
        (MenuScreen::SavesList, MenuEvent::SavesListClosed),
    ] {
        assert_eq!(menu_step(screen, closing), (MenuScreen::MainMenu, MenuEffect::NoEffect, None));
    }
    assert_eq!(
        menu_step(MenuScreen::Login, MenuEvent::OpenOptions),
        (MenuScreen::Login, MenuEffect::NoEffect, None)
    );
}

#[test]
fn queued_operations_run_in_order_once() {
    let mut queue: OperationQueue<u32> = OperationQueue::new();
    queue.enqueue(1);
    queue.enqueue(2);
    queue.enqueue(3);
    assert_eq!(queue.begin_flush(), vec![1, 2, 3]);
    queue.enqueue(4);
    queue.end_flush();
    assert!(queue.begin_flush().is_empty());
    assert!(is_view_locked(true));
    assert!(!is_view_locked(false));
}
