//! The main menu's screens and how the menu moves between them.

use vstd::prelude::*;

verus! {

/// The screen the menu shows.
#[derive(Clone, Copy, Debug, PartialEq, Eq, Structural)]
pub enum MenuScreen {
    MainMenu,
    Login,
    Options,
    ServerList,
    SavesList,
}

/// What a screen of the menu reports.
#[derive(Clone, Copy, Debug, PartialEq, Eq, Structural)]
pub enum MenuEvent {
    /// The main menu: the options were asked for.
    OpenOptions,
    /// The main menu: the player logged out.
    LogOut,
    /// The main menu: a single-player game was asked for.
    PlaySingleplayer,
    /// The main menu: the list of servers was asked for.
    OpenServerList,
    /// The main menu: the list of saved games was asked for.
    OpenSavesList,
    /// The main menu: a multiplayer game was asked for.
    HostMultiplayer,
    /// The login screen: the player logged in.
    LoggedIn,
    /// The options screen was closed.
    OptionsClosed,
    /// The list of servers was closed.
    ServerListClosed,
    /// The list of servers: a game was joined.
    JoinGame,
    /// The list of saved games was closed.
    SavesListClosed,
    /// The list of saved games: a save was picked.
    LoadSave,
}

/// What the menu does to the stored options, which are then saved to disk.
#[derive(Clone, Copy, Debug, PartialEq, Eq, Structural)]
pub enum MenuEffect {
    NoEffect,
    /// The account is forgotten.
    ClearAccount,
    /// The account that just logged in is stored.
    SetAccount,
}

/// What the menu asks of the game as a whole.
#[derive(Clone, Copy, Debug, PartialEq, Eq, Structural)]
pub enum MenuAction {
    /// Enter a single-player lobby, for a new game or for the picked save.
    EnterSingleplayerLobby { from_save: bool },
    EnterMultiplayerLobby,
    /// Enter the lobby of the joined game.
    EnterLobby,
}

/// The screen the menu opens on: the main menu where an account is stored,
/// the login screen otherwise.
pub fn initial_menu_screen(has_account: bool) -> (screen: MenuScreen)
    ensures
        screen == (if has_account { MenuScreen::MainMenu } else { MenuScreen::Login }),
{
    if has_account {
        MenuScreen::MainMenu
    } else {
        MenuScreen::Login
    }
}

/// How the menu answers an event of the screen it shows: the next screen,
/// what happens to the stored options, and what is asked of the game. An
/// event that the shown screen does not report changes nothing.
pub open spec fn menu_transition(screen: MenuScreen, event: MenuEvent) -> (MenuScreen, MenuEffect, Option<MenuAction>) {
    let unchanged = (screen, MenuEffect::NoEffect, None::<MenuAction>);
    match screen {
        MenuScreen::MainMenu => match event {
            MenuEvent::OpenOptions => (MenuScreen::Options, MenuEffect::NoEffect, None),
            MenuEvent::LogOut => (MenuScreen::Login, MenuEffect::ClearAccount, None),
            MenuEvent::PlaySingleplayer => (screen, MenuEffect::NoEffect, Some(MenuAction::EnterSingleplayerLobby { from_save: false })),
            MenuEvent::OpenServerList => (MenuScreen::ServerList, MenuEffect::NoEffect, None),
            MenuEvent::OpenSavesList => (MenuScreen::SavesList, MenuEffect::NoEffect, None),
            MenuEvent::HostMultiplayer => (screen, MenuEffect::NoEffect, Some(MenuAction::EnterMultiplayerLobby)),
            _ => unchanged,
        },
        MenuScreen::Login => match event {
            MenuEvent::LoggedIn => (MenuScreen::MainMenu, MenuEffect::SetAccount, None),
            _ => unchanged,
        },
        MenuScreen::Options => match event {
            MenuEvent::OptionsClosed => (MenuScreen::MainMenu, MenuEffect::NoEffect, None),
            _ => unchanged,
        },
        MenuScreen::ServerList => match event {
            MenuEvent::ServerListClosed => (MenuScreen::MainMenu, MenuEffect::NoEffect, None),
            MenuEvent::JoinGame => (screen, MenuEffect::NoEffect, Some(MenuAction::EnterLobby)),
            _ => unchanged,
        },
        MenuScreen::SavesList => match event {
            MenuEvent::SavesListClosed => (MenuScreen::MainMenu, MenuEffect::NoEffect, None),
            MenuEvent::LoadSave => (screen, MenuEffect::NoEffect, Some(MenuAction::EnterSingleplayerLobby { from_save: true })),
            _ => unchanged,
        },
    }
}

/// One step of the menu: answers an event of the screen it shows.
pub fn menu_step(screen: MenuScreen, event: MenuEvent) -> (r: (MenuScreen, MenuEffect, Option<MenuAction>))
    ensures
        r == menu_transition(screen, event),
{
    let unchanged = (screen, MenuEffect::NoEffect, None);
    match screen {
        MenuScreen::MainMenu => match event {
            MenuEvent::OpenOptions => (MenuScreen::Options, MenuEffect::NoEffect, None),
            MenuEvent::LogOut => (MenuScreen::Login, MenuEffect::ClearAccount, None),
            MenuEvent::PlaySingleplayer => (screen, MenuEffect::NoEffect, Some(MenuAction::EnterSingleplayerLobby { from_save: false })),
            MenuEvent::OpenServerList => (MenuScreen::ServerList, MenuEffect::NoEffect, None),
            MenuEvent::OpenSavesList => (MenuScreen::SavesList, MenuEffect::NoEffect, None),
            MenuEvent::HostMultiplayer => (screen, MenuEffect::NoEffect, Some(MenuAction::EnterMultiplayerLobby)),
            _ => unchanged,
        },
        MenuScreen::Login => match event {
            MenuEvent::LoggedIn => (MenuScreen::MainMenu, MenuEffect::SetAccount, None),
            _ => unchanged,
        },
        MenuScreen::Options => match event {
            MenuEvent::OptionsClosed => (MenuScreen::MainMenu, MenuEffect::NoEffect, None),
            _ => unchanged,
        },
        MenuScreen::ServerList => match event {
            MenuEvent::ServerListClosed => (MenuScreen::MainMenu, MenuEffect::NoEffect, None),
            MenuEvent::JoinGame => (screen, MenuEffect::NoEffect, Some(MenuAction::EnterLobby)),
            _ => unchanged,
        },
        MenuScreen::SavesList => match event {
            MenuEvent::SavesListClosed => (MenuScreen::MainMenu, MenuEffect::NoEffect, None),
            MenuEvent::LoadSave => (screen, MenuEffect::NoEffect, Some(MenuAction::EnterSingleplayerLobby { from_save: true })),
            _ => unchanged,
        },
    }
}

/// The screen an event of the main menu asks to open, by its name:
/// `OpenOptions` the options, `OpenServerList` the list of servers,
/// `OpenSavesList` the list of saved games.
pub open spec fn screen_opened_by(event: MenuEvent) -> Option<MenuScreen> {
    match event {
        MenuEvent::OpenOptions => Some(MenuScreen::Options),
        MenuEvent::OpenServerList => Some(MenuScreen::ServerList),
        MenuEvent::OpenSavesList => Some(MenuScreen::SavesList),
        _ => None,
    }
}

/// The event by which a screen opened from the main menu reports that it
/// was closed.
pub open spec fn closing_event(screen: MenuScreen) -> MenuEvent {
    match screen {
        MenuScreen::ServerList => MenuEvent::ServerListClosed,
        MenuScreen::SavesList => MenuEvent::SavesListClosed,
        _ => MenuEvent::OptionsClosed,
    }
}

/// Each opening event of the main menu leads to the screen it names, with
/// nothing else happening, and that screen's own closing event leads back
/// to the main menu.
pub proof fn lemma_open_leads_to_named_screen(event: MenuEvent)
    ensures
        screen_opened_by(event) matches Some(target) ==> {
            &&& menu_transition(MenuScreen::MainMenu, event) == (target, MenuEffect::NoEffect, None::<MenuAction>)
            &&& menu_transition(target, closing_event(target)).0 == MenuScreen::MainMenu
        },
{
}

/// Closing any screen of the menu leads back to the main menu, and only
/// logging in or out touches the stored account.
pub proof fn lemma_menu_returns_home(screen: MenuScreen, event: MenuEvent)
    ensures
        (event == MenuEvent::OptionsClosed || event == MenuEvent::ServerListClosed || event == MenuEvent::SavesListClosed)
            && menu_transition(screen, event).0 != screen ==> menu_transition(screen, event).0 == MenuScreen::MainMenu,
        menu_transition(screen, event).1 != MenuEffect::NoEffect ==> (event == MenuEvent::LogOut || event == MenuEvent::LoggedIn),
        menu_transition(screen, event).2 is Some ==> menu_transition(screen, event).0 == screen,
{
}

} // verus!
