//! The connection states of the game client, and its errors.

use crate::id_mapper::{id_map_entries, id_map_insert, id_map_new, id_map_remove};
use ahash::AHashMap;
use vstd::prelude::*;

verus! {

#[verifier::external_type_specification]
#[verifier::external_body]
pub struct ExAnyhowError(anyhow::Error);

/// Errors of the connection to the server.
pub enum ClientError {
    /// The connection to the server is gone.
    Disconnected,
    /// A packet that should have held something held nothing.
    MissingPacket,
    /// Any other error, such as one in the lobby.
    Other(anyhow::Error),
}

impl ClientError {
    /// The error's message; for `Other`, `"lobby error: "` followed by the
    /// inner error's display text, as `to_string` writes it.
    pub fn message(&self) -> (text: String)
        ensures
            self is Disconnected ==> text@ == "disconnected from the server. Either it crashed or the connection failed."@,
            self is MissingPacket ==> text@ == "packet is null"@,
            self is Other ==> exists|inner: String|
                vstd::string::to_string_from_display_ensures::<anyhow::Error>(&self->Other_0, inner)
                    && text@ == "lobby error: "@ + inner@,
    {
        match self {
            ClientError::Disconnected => String::from_str("disconnected from the server. Either it crashed or the connection failed."),
            ClientError::MissingPacket => String::from_str("packet is null"),
            ClientError::Other(e) => {
                let mut text = String::from_str("lobby error: ");
                let inner = e.to_string();
                text.append(inner.as_str());
                text
            },
        }
    }
}

/// Hands out the IDs of the requests sent to the server: counting up from 1,
/// wrapping around after `u32::MAX`.
pub struct RequestIds {
    next: u32,
}

impl RequestIds {
    /// The ID the next request gets.
    pub closed spec fn upcoming(&self) -> u32 {
        self.next
    }

    pub fn new() -> (ids: Self)
        ensures
            ids.upcoming() == 1,
    {
        RequestIds { next: 1 }
    }

    /// The ID of a request being sent now.
    pub fn take(&mut self) -> (id: u32)
        ensures
            id == old(self).upcoming(),
            final(self).upcoming() == (if old(self).upcoming() == u32::MAX { 0 } else { (old(self).upcoming() + 1) as u32 }),
    {
        let id = self.next;
        self.next = self.next.wrapping_add(1);
        id
    }
}

/// The requests that wait for a response from the server: for each request
/// ID, the handle of the waiter that the response goes to.
pub struct PendingResponses {
    waiters: AHashMap<u32, u64>,
}

impl View for PendingResponses {
    type V = Map<u32, u64>;

    closed spec fn view(&self) -> Map<u32, u64> {
        id_map_entries(self.waiters)
    }
}

impl PendingResponses {
    /// No request waits.
    pub fn new() -> (pending: Self)
        ensures
            pending@ == Map::<u32, u64>::empty(),
    {
        PendingResponses { waiters: id_map_new() }
    }

    /// Records that the response to `request_id` goes to `waiter`, in place
    /// of any waiter recorded for that ID before.
    pub fn register(&mut self, request_id: u32, waiter: u64)
        ensures
            final(self)@ == old(self)@.insert(request_id, waiter),
    {
        id_map_insert(&mut self.waiters, request_id, waiter);
    }

    /// Routes the response to `request_id`: the waiter recorded for it,
    /// which no longer waits, or `None` where no one waits for it.
    pub fn route(&mut self, request_id: u32) -> (waiter: Option<u64>)
        ensures
            waiter == (if old(self)@.contains_key(request_id) { Some(old(self)@[request_id]) } else { None }),
            final(self)@ == old(self)@.remove(request_id),
    {
        id_map_remove(&mut self.waiters, request_id)
    }
}

/// A response reaches the waiter registered for its request, and only once:
/// after `register`, `route` of the same ID gives that waiter, and a second
/// `route` of it gives nothing.
pub proof fn lemma_response_routed_once(pending: Map<u32, u64>, request_id: u32, waiter: u64)
    ensures
        pending.insert(request_id, waiter).contains_key(request_id),
        pending.insert(request_id, waiter)[request_id] == waiter,
        !pending.insert(request_id, waiter).remove(request_id).contains_key(request_id),
        forall|other: u32| other != request_id ==> #[trigger] pending.insert(request_id, waiter).remove(request_id).contains_key(other) == pending.contains_key(other),
{
}

/// The request ID of a confirmation of moved units, which must carry one:
/// the ID, or the error message `"ConfirmMoveUnits requires a request ID"`.
pub fn confirm_move_request_id(request_id: Option<u32>) -> (r: Result<u32, String>)
    ensures
        match request_id {
            Some(id) => r == Ok::<u32, String>(id),
            None => r matches Err(message) && message@ == "ConfirmMoveUnits requires a request ID"@,
        },
{
    match request_id {
        Some(id) => Ok(id),
        None => Err(String::from_str("ConfirmMoveUnits requires a request ID")),
    }
}

/// The states a client connection passes through.
pub trait State {}

/// Connected to a game lobby.
pub struct LobbyState;

impl State for LobbyState {}

/// Connected to a running game.
pub struct GameState;

impl State for GameState {}

} // verus!
