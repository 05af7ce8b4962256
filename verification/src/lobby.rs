//! The game lobby: its slots, and the civilization each player chose.

use crate::id_mapper::{id_map_entries, id_map_get, id_map_insert, id_map_new};
use crate::registry::{handle_for, ItemKind, Registry, RegistryItemNotFound};
use ahash::AHashMap;
use vstd::prelude::*;

verus! {

/// A slot of the lobby.
#[derive(Debug)]
pub struct LobbySlot {
    pub id: u32,
    /// A player sits in the slot.
    pub occupied: bool,
    /// The ID of the civilization the slot's player plays.
    pub civ_id: String,
}

/// What the server says of the lobby.
#[derive(Debug)]
pub struct LobbyInfo {
    pub slots: Vec<LobbySlot>,
    /// The slot of this client's player.
    pub your_slot_id: u32,
    /// The lobby's slots cannot be changed.
    pub is_static: bool,
}

/// The index of the first occupied slot among `slots` whose civilization
/// the registry's `civs` lack.
pub open spec fn first_unknown_civ(slots: Seq<LobbySlot>, civs: Seq<(Seq<char>, u64)>) -> Option<int>
    decreases slots.len(),
{
    if slots.len() == 0 {
        None
    } else if slots[0].occupied && handle_for(civs, slots[0].civ_id@) is None {
        Some(0)
    } else {
        match first_unknown_civ(slots.drop_first(), civs) {
            Some(k) => Some(k + 1),
            None => None,
        }
    }
}

/// `player_civs` after recording, slot by slot, the civilization of each
/// occupied slot among `slots`.
pub open spec fn civs_recorded(player_civs: Map<u32, u64>, slots: Seq<LobbySlot>, civs: Seq<(Seq<char>, u64)>) -> Map<u32, u64>
    decreases slots.len(),
{
    if slots.len() == 0 {
        player_civs
    } else {
        let before = civs_recorded(player_civs, slots.drop_last(), civs);
        let slot = slots.last();
        if slot.occupied && handle_for(civs, slot.civ_id@) is Some {
            before.insert(slot.id, handle_for(civs, slot.civ_id@)->0)
        } else {
            before
        }
    }
}

/// Each occupied slot's player plays the civilization it names: after
/// recording `slots`, the slot ID of an occupied slot with a known
/// civilization maps to that civilization's handle, whatever was recorded
/// for the ID before, unless a later occupied slot with the same ID and a
/// known civilization follows (the last one wins).
pub proof fn lemma_latest_civ_recorded(player_civs: Map<u32, u64>, slots: Seq<LobbySlot>, civs: Seq<(Seq<char>, u64)>, i: int)
    requires
        0 <= i < slots.len(),
        slots[i].occupied,
        handle_for(civs, slots[i].civ_id@) is Some,
        forall|j: int| i < j < slots.len() && #[trigger] slots[j].id == slots[i].id
            ==> !(slots[j].occupied && handle_for(civs, slots[j].civ_id@) is Some),
    ensures
        civs_recorded(player_civs, slots, civs).contains_key(slots[i].id),
        civs_recorded(player_civs, slots, civs)[slots[i].id] == handle_for(civs, slots[i].civ_id@)->0,
    decreases slots.len(),
{
    let d = slots.drop_last();
    if i < slots.len() - 1 {
        assert(d[i] == slots[i]);
        assert forall|j: int| i < j < d.len() && #[trigger] d[j].id == d[i].id
            implies !(d[j].occupied && handle_for(civs, d[j].civ_id@) is Some) by {
            assert(d[j] == slots[j]);
        }
        lemma_latest_civ_recorded(player_civs, d, civs, i);
        let last = slots.len() - 1;
        if slots[last].id == slots[i].id {
            assert(!(slots[last].occupied && handle_for(civs, slots[last].civ_id@) is Some));
        }
    }
}

/// Recording `slots` leaves the civilization of any ID that no occupied slot
/// with a known civilization has as it was.
pub proof fn lemma_other_civs_kept(player_civs: Map<u32, u64>, slots: Seq<LobbySlot>, civs: Seq<(Seq<char>, u64)>, id: u32)
    requires
        forall|j: int| 0 <= j < slots.len() && #[trigger] slots[j].id == id
            ==> !(slots[j].occupied && handle_for(civs, slots[j].civ_id@) is Some),
    ensures
        civs_recorded(player_civs, slots, civs).contains_key(id) == player_civs.contains_key(id),
        player_civs.contains_key(id) ==> civs_recorded(player_civs, slots, civs)[id] == player_civs[id],
    decreases slots.len(),
{
    if slots.len() > 0 {
        let d = slots.drop_last();
        assert forall|j: int| 0 <= j < d.len() && #[trigger] d[j].id == id
            implies !(d[j].occupied && handle_for(civs, d[j].civ_id@) is Some) by {
            assert(d[j] == slots[j]);
        }
        lemma_other_civs_kept(player_civs, d, civs, id);
        let last = slots.len() - 1;
        if slots[last].id == id {
            assert(!(slots[last].occupied && handle_for(civs, slots[last].civ_id@) is Some));
        }
    }
}

/// The first slot among `slots` with the ID `id`.
pub open spec fn slot_with_id(slots: Seq<LobbySlot>, id: u32) -> Option<LobbySlot>
    decreases slots.len(),
{
    if slots.len() == 0 {
        None
    } else if slots[0].id == id {
        Some(slots[0])
    } else {
        slot_with_id(slots.drop_first(), id)
    }
}

proof fn lemma_first_unknown_civ_prefix(slots: Seq<LobbySlot>, civs: Seq<(Seq<char>, u64)>, i: int)
    requires
        0 <= i < slots.len(),
        first_unknown_civ(slots.take(i), civs) is None,
    ensures
        (slots[i].occupied && handle_for(civs, slots[i].civ_id@) is None) ==> first_unknown_civ(slots, civs) == Some(i),
        !(slots[i].occupied && handle_for(civs, slots[i].civ_id@) is None) ==> first_unknown_civ(slots.take(i + 1), civs) is None,
    decreases i,
{
    if i == 0 {
        assert(slots.take(1).drop_first().len() == 0);
        assert(first_unknown_civ(slots.take(1).drop_first(), civs) is None);
        assert(slots.take(1)[0] == slots[0]);
    } else {
        let t = slots.drop_first();
        assert(slots.take(i)[0] == slots[0]);
        assert(slots.take(i).drop_first() == t.take(i - 1));
        assert(slots.take(i + 1).drop_first() == t.take(i));
        assert(slots.take(i + 1)[0] == slots[0]);
        assert(t[i - 1] == slots[i]);
        lemma_first_unknown_civ_prefix(t, civs, i - 1);
    }
}

/// The game lobby.
pub struct GameLobby {
    info: LobbyInfo,
    player_civs: AHashMap<u32, u64>,
}

impl GameLobby {
    /// What the server last said of the lobby.
    pub closed spec fn spec_info(&self) -> LobbyInfo {
        self.info
    }

    /// The handle of the civilization of each player's slot.
    pub closed spec fn civs(&self) -> Map<u32, u64> {
        id_map_entries(self.player_civs)
    }

    /// An empty lobby.
    pub fn new() -> (lobby: Self)
        ensures
            lobby.spec_info().slots@.len() == 0,
            lobby.spec_info().your_slot_id == 0,
            !lobby.spec_info().is_static,
            (lobby.civs() == Map::<u32, u64>::empty()),
    {
        GameLobby { info: LobbyInfo { slots: Vec::new(), your_slot_id: 0, is_static: false }, player_civs: id_map_new() }
    }

    /// Takes the server's news of the lobby, and records the civilization
    /// of each occupied slot, in slot order. Fails at the first occupied
    /// slot whose civilization the registry lacks, keeping what was
    /// recorded before it.
    pub fn set_info(&mut self, info: LobbyInfo, registry: &Registry) -> (r: Result<(), RegistryItemNotFound>)
        ensures
            final(self).spec_info() == info,
            match first_unknown_civ(info.slots@, registry.table(ItemKind::Civilization)) {
                None => r is Ok && final(self).civs() == civs_recorded(old(self).civs(), info.slots@, registry.table(ItemKind::Civilization)),
                Some(k) => r matches Err(e) && e.0@ == "civilization"@ && e.1@ == info.slots@[k].civ_id@
                    && final(self).civs() == civs_recorded(old(self).civs(), info.slots@.take(k), registry.table(ItemKind::Civilization)),
            },
    {
        let ghost civs = registry.table(ItemKind::Civilization);
        let ghost start = self.civs();
        self.info = info;
        let mut i: usize = 0;
        proof {
            assert(self.info.slots@.take(0).len() == 0);
        }
        while i < self.info.slots.len()
            invariant
                0 <= i <= self.info.slots@.len(),
                self.info == info,
                civs == registry.table(ItemKind::Civilization),
                first_unknown_civ(info.slots@.take(i as int), civs) is None,
                start == old(self).civs(),
                self.civs() == civs_recorded(start, info.slots@.take(i as int), civs),
            decreases self.info.slots@.len() - i,
        {
            let slot = &self.info.slots[i];
            proof {
                lemma_first_unknown_civ_prefix(info.slots@, civs, i as int);
                assert(info.slots@.take(i + 1).drop_last() == info.slots@.take(i as int));
                assert(info.slots@.take(i + 1).last() == info.slots@[i as int]);
            }
            if slot.occupied {
                match registry.item(ItemKind::Civilization, slot.civ_id.as_str()) {
                    Ok(civ) => {
                        let id = slot.id;
                        id_map_insert(&mut self.player_civs, id, civ);
                    },
                    Err(e) => {
                        proof {
                            assert(*slot == info.slots@[i as int]);
                            assert(handle_for(civs, slot.civ_id@) is None);
                            assert(first_unknown_civ(info.slots@, civs) == Some(i as int));
                            assert(e.0@ == "civilization"@);
                            assert(e.1@ == info.slots@[i as int].civ_id@);
                        }
                        return Err(e);
                    },
                }
            }
            i = i + 1;
        }
        proof {
            assert(info.slots@.take(info.slots@.len() as int) == info.slots@);
        }
        Ok(())
    }

    pub fn slots(&self) -> (slots: &[LobbySlot])
        ensures
            slots@ == self.spec_info().slots@,
    {
        self.info.slots.as_slice()
    }

    /// The slot with the ID `id`, if any.
    pub fn slot(&self, id: u32) -> (slot: Option<&LobbySlot>)
        ensures
            match slot {
                Some(s) => slot_with_id(self.spec_info().slots@, id) == Some(*s),
                None => slot_with_id(self.spec_info().slots@, id) is None,
            },
    {
        let slots = &self.info.slots;
        let mut i: usize = 0;
        proof {
            assert(slots@.skip(0) == slots@);
        }
        while i < slots.len()
            invariant
                0 <= i <= slots@.len(),
                slots == &self.info.slots,
                slot_with_id(slots@.skip(i as int), id) == slot_with_id(slots@, id),
            decreases slots@.len() - i,
        {
            assert(slots@.skip(i as int)[0] == slots@[i as int]);
            if slots[i].id == id {
                return Some(&slots[i]);
            }
            assert(slots@.skip(i as int).drop_first() == slots@.skip(i + 1));
            i = i + 1;
        }
        assert(slots@.skip(i as int).len() == 0);
        None
    }

    /// The slot of this client's player, if any.
    pub fn our_slot(&self) -> (slot: Option<&LobbySlot>)
        ensures
            match slot {
                Some(s) => slot_with_id(self.spec_info().slots@, self.spec_info().your_slot_id) == Some(*s),
                None => slot_with_id(self.spec_info().slots@, self.spec_info().your_slot_id) is None,
            },
    {
        self.slot(self.info.your_slot_id)
    }

    pub fn is_static(&self) -> (is_static: bool)
        ensures
            is_static == self.spec_info().is_static,
    {
        self.info.is_static
    }

    /// The handle of the civilization of the player in slot `slot_id`.
    pub fn player_civ(&self, slot_id: u32) -> (civ: Option<u64>)
        ensures
            civ == (if self.civs().contains_key(slot_id) { Some(self.civs()[slot_id]) } else { None }),
    {
        id_map_get(&self.player_civs, slot_id)
    }
}

} // verus!
