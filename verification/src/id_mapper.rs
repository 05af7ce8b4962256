use ahash::AHashMap;
use vstd::prelude::*;

verus! {

/// The key/value pairs held by a map from `u32` IDs to `u64` IDs.
pub uninterp spec fn id_map_entries(m: AHashMap<u32, u64>) -> Map<u32, u64>;

/// Calls `AHashMap::new`: the new map holds no entries.
#[verifier::external_body]
pub(crate) fn id_map_new() -> (map: AHashMap<u32, u64>)
    ensures
        (id_map_entries(map) == Map::<u32, u64>::empty()),
{
    AHashMap::new()
}

/// Calls `AHashMap::insert`: afterwards the key maps to the given value and
/// every other entry is unchanged; the value the key held before is returned.
#[verifier::external_body]
pub(crate) fn id_map_insert(map: &mut AHashMap<u32, u64>, key: u32, value: u64) -> (previous: Option<u64>)
    ensures
        id_map_entries(*final(map)) == id_map_entries(*old(map)).insert(key, value),
        previous == (if id_map_entries(*old(map)).contains_key(key) {
            Some(id_map_entries(*old(map))[key])
        } else {
            None
        }),
{
    map.insert(key, value)
}

/// Calls `AHashMap::remove`: afterwards the key is absent and every other
/// entry is unchanged; the value the key held before is returned.
#[verifier::external_body]
pub(crate) fn id_map_remove(map: &mut AHashMap<u32, u64>, key: u32) -> (previous: Option<u64>)
    ensures
        id_map_entries(*final(map)) == id_map_entries(*old(map)).remove(key),
        previous == (if id_map_entries(*old(map)).contains_key(key) {
            Some(id_map_entries(*old(map))[key])
        } else {
            None
        }),
{
    map.remove(&key)
}

/// Calls `AHashMap::get` and copies the value out: `Some` of the value the
/// key maps to, or `None` where the key is absent.
#[verifier::external_body]
pub(crate) fn id_map_get(map: &AHashMap<u32, u64>, key: u32) -> (found: Option<u64>)
    ensures
        found == (if id_map_entries(*map).contains_key(key) {
            Some(id_map_entries(*map)[key])
        } else {
            None
        }),
{
    map.get(&key).copied()
}

/// Maps network IDs for entities (players, cities, or units)
/// to the IDs used internally.
pub struct IdMapper {
    mapping: AHashMap<u32, u64>,
}

impl View for IdMapper {
    type V = Map<u32, u64>;

    closed spec fn view(&self) -> Map<u32, u64> {
        id_map_entries(self.mapping)
    }
}

impl IdMapper {
    /// Creates a mapper that knows no network ID.
    pub fn new() -> (mapper: Self)
        ensures
            mapper@ == Map::<u32, u64>::empty(),
    {
        IdMapper { mapping: id_map_new() }
    }

    /// Records that `network_id` stands for `id`, replacing any earlier entry.
    pub fn insert(&mut self, network_id: u32, id: u64)
        ensures
            final(self)@ == old(self)@.insert(network_id, id),
    {
        id_map_insert(&mut self.mapping, network_id, id);
    }

    /// Forgets `network_id`.
    pub fn remove(&mut self, network_id: u32)
        ensures
            final(self)@ == old(self)@.remove(network_id),
    {
        id_map_remove(&mut self.mapping, network_id);
    }

    /// Looks up the ID that `network_id` stands for.
    pub fn get(&self, network_id: u32) -> (id: Option<u64>)
        ensures
            id == (if self@.contains_key(network_id) {
                Some(self@[network_id])
            } else {
                None
            }),
    {
        id_map_get(&self.mapping, network_id)
    }
}

/// Looking a network ID up right after recording it gives back the recorded
/// ID, and recording it leaves every other network ID's entry as it was.
pub proof fn lemma_get_after_insert(before: Map<u32, u64>, after: Map<u32, u64>, network_id: u32, id: u64, other: u32)
    requires
        after == before.insert(network_id, id),
        other != network_id,
    ensures
        after.contains_key(network_id) && after[network_id] == id,
        after.contains_key(other) == before.contains_key(other),
        before.contains_key(other) ==> after[other] == before[other],
{
}

/// Looking a network ID up right after forgetting it finds nothing, and
/// forgetting it leaves every other network ID's entry as it was.
pub proof fn lemma_get_after_remove(before: Map<u32, u64>, after: Map<u32, u64>, network_id: u32, other: u32)
    requires
        after == before.remove(network_id),
        other != network_id,
    ensures
        !after.contains_key(network_id),
        after.contains_key(other) == before.contains_key(other),
        before.contains_key(other) ==> after[other] == before[other],
{
}

} // verus!
