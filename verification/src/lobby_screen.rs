//! The lobby screen: the rows of its table of slots, and the requests that
//! its buttons and pick lists send to the server.

use vstd::prelude::*;

verus! {

/// Who sits in a lobby slot.
#[derive(Clone, Copy, Debug, PartialEq, Eq, Structural)]
pub enum SlotOccupant {
    Empty,
    Human { is_admin: bool },
    Ai,
}

/// One row of the table of slots.
#[derive(Debug)]
pub struct SlotRow {
    pub name: String,
    pub status: String,
    /// The label of the button that empties the slot.
    pub delete_text: String,
    pub civ: String,
    pub leader: String,
    /// The civilization and the leader are pick lists, not plain text.
    pub choices_editable: bool,
    /// The button that empties the slot is hidden.
    pub delete_hidden: bool,
    /// The slot's player is a human whose name is not known yet, so the
    /// table is to be rebuilt once it is.
    pub user_info_missing: bool,
}

/// The name shown for a slot's player: grey `<empty>` for an empty slot,
/// the username of a human (`<unknown>` until it is known), `<AI>` for a
/// computer player.
pub open spec fn slot_name_text(occupant: SlotOccupant, username: Option<Seq<char>>) -> Seq<char> {
    match occupant {
        SlotOccupant::Empty => "@color[180, 180, 180][<empty>]"@,
        SlotOccupant::Human { .. } => match username {
            Some(name) => name,
            None => "<unknown>"@,
        },
        SlotOccupant::Ai => "<AI>"@,
    }
}

/// The status shown for a slot, in its colour.
pub open spec fn slot_status_text(occupant: SlotOccupant) -> Seq<char> {
    match occupant {
        SlotOccupant::Empty => "@color[30,200,50][Open]"@,
        SlotOccupant::Human { is_admin: true } => "@color[230,20,10][Admin]"@,
        SlotOccupant::Human { is_admin: false } => "@color[240,78,152][Human]"@,
        SlotOccupant::Ai => "@color[30,120,200][AI]"@,
    }
}

/// The label of the button that empties a slot: `Kick` for a human,
/// `Remove` otherwise.
pub open spec fn slot_delete_text(occupant: SlotOccupant) -> Seq<char> {
    match occupant {
        SlotOccupant::Human { .. } => "Kick"@,
        _ => "Remove"@,
    }
}

/// The row of the table for a slot. `username` is the name of the slot's
/// human player where it is known; `civ` is the civilization the slot
/// plays, if any, as its name, its colour written as the colour markup
/// takes it, and the name of its leader; `is_our_slot` says that the slot is
/// this client's.
pub fn slot_row(
    occupant: SlotOccupant,
    username: Option<&str>,
    civ: Option<(&str, &str, &str)>,
    is_our_slot: bool,
) -> (row: SlotRow)
    ensures
        row.name@ == slot_name_text(occupant, match username { Some(u) => Some(u@), None => None }),
        row.status@ == slot_status_text(occupant),
        row.delete_text@ == slot_delete_text(occupant),
        match civ {
            Some((name, color, leader)) => row.civ@ == "@color["@ + color@ + "]["@ + name@ + "]"@ && row.leader@ == leader@,
            None => row.civ@ == "-"@ && row.leader@ == "-"@,
        },
        row.choices_editable == (occupant != SlotOccupant::Empty && is_our_slot),
        row.delete_hidden == is_our_slot,
        row.user_info_missing == (occupant is Human && username is None),
{
    let name = match occupant {
        SlotOccupant::Empty => String::from_str("@color[180, 180, 180][<empty>]"),
        SlotOccupant::Human { .. } => match username {
            Some(u) => String::from_str(u),
            None => String::from_str("<unknown>"),
        },
        SlotOccupant::Ai => String::from_str("<AI>"),
    };
    let status = match occupant {
        SlotOccupant::Empty => String::from_str("@color[30,200,50][Open]"),
        SlotOccupant::Human { is_admin: true } => String::from_str("@color[230,20,10][Admin]"),
        SlotOccupant::Human { is_admin: false } => String::from_str("@color[240,78,152][Human]"),
        SlotOccupant::Ai => String::from_str("@color[30,120,200][AI]"),
    };
    let is_human = match occupant {
        SlotOccupant::Human { .. } => true,
        _ => false,
    };
    let delete_text = if is_human {
        String::from_str("Kick")
    } else {
        String::from_str("Remove")
    };
    let (civ_text, leader_text) = match civ {
        Some((civ_name, color, leader)) => {
            let mut text = String::from_str("@color[");
            text.append(color);
            text.append("][");
            text.append(civ_name);
            text.append("]");
            (text, String::from_str(leader))
        },
        None => (String::from_str("-"), String::from_str("-")),
    };
    let occupied = match occupant {
        SlotOccupant::Empty => false,
        _ => true,
    };
    SlotRow {
        name,
        status,
        delete_text,
        civ: civ_text,
        leader: leader_text,
        choices_editable: occupied && is_our_slot,
        delete_hidden: is_our_slot,
        user_info_missing: is_human && username.is_none(),
    }
}

/// What the user did on the lobby screen.
#[derive(Clone, Copy, Debug, PartialEq, Eq, Structural)]
pub enum LobbyMessage {
    AddAiSlot,
    AddHumanSlot,
    DeleteSlot { slot: u32 },
    StartGame,
    /// A map generation setting was changed.
    SettingsChanged,
    /// A civilization was picked.
    SetCiv { civ: u64 },
    /// A leader of our civilization was picked, by its place among the
    /// civilization's leaders.
    SetLeader { leader: u32 },
}

/// A request the lobby screen sends to the server.
#[derive(Clone, Copy, Debug, PartialEq, Eq, Structural)]
pub enum LobbyRequest {
    CreateSlot { is_ai: bool },
    DeleteSlot { slot: u32 },
    StartGame,
    /// Sends the changed map generation settings.
    SetMapgenSettings,
    /// Plays `civ` under its leader at place `leader`.
    SetCivAndLeader { civ: u64, leader: u32 },
}

/// The request for a message, given how many slots the lobby has, how many
/// civilizations there are, and our slot's civilization, if any: a slot is
/// created only while there are fewer slots than civilizations; a picked
/// civilization is played under its first leader; a picked leader needs
/// our slot to play a civilization.
pub open spec fn lobby_response(msg: LobbyMessage, num_slots: nat, num_civs: nat, our_civ: Option<u64>) -> Result<Option<LobbyRequest>, ()> {
    match msg {
        LobbyMessage::AddAiSlot => Ok(if num_slots < num_civs { Some(LobbyRequest::CreateSlot { is_ai: true }) } else { None }),
        LobbyMessage::AddHumanSlot => Ok(if num_slots < num_civs { Some(LobbyRequest::CreateSlot { is_ai: false }) } else { None }),
        LobbyMessage::DeleteSlot { slot } => Ok(Some(LobbyRequest::DeleteSlot { slot })),
        LobbyMessage::StartGame => Ok(Some(LobbyRequest::StartGame)),
        LobbyMessage::SettingsChanged => Ok(Some(LobbyRequest::SetMapgenSettings)),
        LobbyMessage::SetCiv { civ } => Ok(Some(LobbyRequest::SetCivAndLeader { civ, leader: 0 })),
        LobbyMessage::SetLeader { leader } => match our_civ {
            Some(civ) => Ok(Some(LobbyRequest::SetCivAndLeader { civ, leader })),
            None => Err(()),
        },
    }
}

/// The request to send for a message of the lobby screen, if any; an
/// error, `"must be human player"`, where a leader is picked while our slot
/// plays no civilization.
pub fn lobby_request(msg: LobbyMessage, num_slots: usize, num_civs: usize, our_civ: Option<u64>) -> (r: Result<Option<LobbyRequest>, String>)
    ensures
        match lobby_response(msg, num_slots as nat, num_civs as nat, our_civ) {
            Ok(request) => r == Ok::<Option<LobbyRequest>, String>(request),
            Err(_) => r matches Err(message) && message@ == "must be human player"@,
        },
{
    let can_add_slots = num_slots < num_civs;
    match msg {
        LobbyMessage::AddAiSlot => Ok(if can_add_slots { Some(LobbyRequest::CreateSlot { is_ai: true }) } else { None }),
        LobbyMessage::AddHumanSlot => Ok(if can_add_slots { Some(LobbyRequest::CreateSlot { is_ai: false }) } else { None }),
        LobbyMessage::DeleteSlot { slot } => Ok(Some(LobbyRequest::DeleteSlot { slot })),
        LobbyMessage::StartGame => Ok(Some(LobbyRequest::StartGame)),
        LobbyMessage::SettingsChanged => Ok(Some(LobbyRequest::SetMapgenSettings)),
        LobbyMessage::SetCiv { civ } => Ok(Some(LobbyRequest::SetCivAndLeader { civ, leader: 0 })),
        LobbyMessage::SetLeader { leader } => match our_civ {
            Some(civ) => Ok(Some(LobbyRequest::SetCivAndLeader { civ, leader })),
            None => Err(String::from_str("must be human player")),
        },
    }
}

/// No slot is created once there are as many slots as civilizations.
pub proof fn lemma_no_slot_beyond_civs(msg: LobbyMessage, num_slots: nat, num_civs: nat, our_civ: Option<u64>)
    requires
        num_slots >= num_civs,
    ensures
        !(lobby_response(msg, num_slots, num_civs, our_civ) matches Ok(Some(LobbyRequest::CreateSlot { .. }))),
{
}

} // verus!
