//! The registry of data-driven game files: unit kinds, civilizations,
//! buildings, techs and resources, each found by its ID.

use crate::names::{compare_handle_names, name_before};
use crate::text::{delimit_string, joined, string_views};
use ahash::RandomState;
use indexmap::IndexMap;
use vstd::prelude::*;

verus! {

/// The entries of a registry table in their order: each item's ID and the
/// handle of its asset.
pub uninterp spec fn table_entries(m: IndexMap<String, u64, RandomState>) -> Seq<(Seq<char>, u64)>;

/// No ID stands twice among `entries`.
pub open spec fn distinct_ids(entries: Seq<(Seq<char>, u64)>) -> bool {
    forall|i: int, j: int| 0 <= i < j < entries.len() ==> (#[trigger] entries[i]).0 != (#[trigger] entries[j]).0
}

/// The handle that `id` maps to among `entries`, if any.
pub open spec fn handle_for(entries: Seq<(Seq<char>, u64)>, id: Seq<char>) -> Option<u64> {
    if exists|i: int| 0 <= i < entries.len() && (#[trigger] entries[i]).0 == id {
        Some(entries[choose|i: int| 0 <= i < entries.len() && (#[trigger] entries[i]).0 == id].1)
    } else {
        None
    }
}

/// `entries` after inserting `id` with `handle`: an entry with that ID keeps
/// its place and takes the new handle, else the pair goes last.
pub open spec fn inserted(entries: Seq<(Seq<char>, u64)>, id: Seq<char>, handle: u64) -> Seq<(Seq<char>, u64)> {
    if exists|i: int| 0 <= i < entries.len() && (#[trigger] entries[i]).0 == id {
        let i = choose|i: int| 0 <= i < entries.len() && (#[trigger] entries[i]).0 == id;
        entries.update(i, (id, handle))
    } else {
        entries.push((id, handle))
    }
}

/// Calls `IndexMap::default`: the table is empty.
#[verifier::external_body]
fn table_new() -> (map: IndexMap<String, u64, RandomState>)
    ensures
        table_entries(map).len() == 0,
{
    IndexMap::default()
}

/// Calls `IndexMap::insert`: an entry with an equal key keeps its place in
/// the order and takes the new value; otherwise the pair is appended.
#[verifier::external_body]
fn table_insert(map: &mut IndexMap<String, u64, RandomState>, id: String, handle: u64)
    ensures
        table_entries(*final(map)) == inserted(table_entries(*old(map)), id@, handle),
{
    map.insert(id, handle);
}

/// Calls `IndexMap::get` and copies the value out: the value of the entry
/// whose key equals `id`, if there is one.
#[verifier::external_body]
fn table_get(map: &IndexMap<String, u64, RandomState>, id: &str) -> (found: Option<u64>)
    ensures
        found == handle_for(table_entries(*map), id@),
{
    map.get(id).copied()
}

/// Calls `IndexMap::len`.
#[verifier::external_body]
fn table_len(map: &IndexMap<String, u64, RandomState>) -> (len: usize)
    ensures
        len == table_entries(*map).len(),
{
    map.len()
}

/// The name of the item with the handle `handle`, among the `names` of the
/// items of its kind; empty for a handle that names no item.
pub open spec fn handle_name(names: Seq<Seq<char>>, handle: u64) -> Seq<char> {
    if handle < names.len() {
        names[handle as int]
    } else {
        Seq::empty()
    }
}

/// The name of the item with the handle `handle`.
pub fn name_of_handle(names: &Vec<String>, handle: u64) -> (name: &str)
    ensures
        name@ == handle_name(string_views(names@), handle),
{
    if handle < names.len() as u64 {
        let name = &names[handle as usize];
        proof {
            assert(string_views(names@)[handle as int] == names@[handle as int]@);
            assert(*name == names@[handle as int]);
        }
        name.as_str()
    } else {
        proof {
            reveal_strlit("");
        }
        ""
    }
}

/// `after` holds the entries of `before` sorted by the names of their
/// handles, entries with equal names in the order they had in `before`.
pub open spec fn is_name_sorted(before: Seq<(Seq<char>, u64)>, after: Seq<(Seq<char>, u64)>, names: Seq<Seq<char>>) -> bool {
    &&& after.to_multiset() == before.to_multiset()
    &&& forall|i: int, j: int| 0 <= i < j < after.len()
        ==> !name_before(handle_name(names, (#[trigger] after[j]).1), handle_name(names, (#[trigger] after[i]).1))
    &&& forall|i: int, j: int| 0 <= i < j < after.len()
        && handle_name(names, (#[trigger] after[i]).1) == handle_name(names, (#[trigger] after[j]).1)
        ==> exists|a: int, b: int| 0 <= a < b < before.len() && #[trigger] before[a] == after[i] && #[trigger] before[b] == after[j]
}

/// Calls `IndexMap::sort_by`, a stable sort, with a comparison of the names
/// of the entries' handles: afterwards the entries are in the order of
/// their names, entries with equal names in their former order.
#[verifier::external_body]
fn table_sort_by_name(map: &mut IndexMap<String, u64, RandomState>, names: &Vec<String>)
    ensures
        is_name_sorted(table_entries(*old(map)), table_entries(*final(map)), string_views(names@)),
{
    map.sort_by(|_, a, _, b| compare_handle_names(names, *a, *b));
}

/// Calls `IndexMap::values`, copying the values out in the map's order.
#[verifier::external_body]
fn table_values(map: &IndexMap<String, u64, RandomState>) -> (values: Vec<u64>)
    ensures
        values@ == table_entries(*map).map_values(|e: (Seq<char>, u64)| e.1),
{
    map.values().copied().collect()
}

/// The error when no item of a kind has the asked-for ID: the kind's name
/// and the ID.
#[derive(Debug)]
pub struct RegistryItemNotFound(pub &'static str, pub String);

impl RegistryItemNotFound {
    /// The error's message: `no {kind} exists with ID '{id}'`.
    pub fn message(&self) -> (text: String)
        ensures
            text@ == "no "@ + self.0@ + " exists with ID '"@ + self.1@ + "'"@,
    {
        let mut text = String::from_str("no ");
        text.append(self.0);
        text.append(" exists with ID '");
        text.append(self.1.as_str());
        text.append("'");
        text
    }
}

/// The kinds of item the registry holds.
#[derive(Clone, Copy, Debug, PartialEq, Eq, Structural)]
pub enum ItemKind {
    UnitKind,
    Civilization,
    Building,
    Tech,
    Resource,
}

/// The name of a kind, as error messages give it.
pub open spec fn kind_name(kind: ItemKind) -> Seq<char> {
    match kind {
        ItemKind::UnitKind => "unit kind"@,
        ItemKind::Civilization => "civilization"@,
        ItemKind::Building => "building"@,
        ItemKind::Tech => "tech"@,
        ItemKind::Resource => "resource"@,
    }
}

impl ItemKind {
    /// The kind's name, as error messages give it.
    pub fn name(&self) -> (name: &'static str)
        ensures
            name@ == kind_name(*self),
    {
        match self {
            ItemKind::UnitKind => "unit kind",
            ItemKind::Civilization => "civilization",
            ItemKind::Building => "building",
            ItemKind::Tech => "tech",
            ItemKind::Resource => "resource",
        }
    }
}

/// Inserting an item keeps the IDs of a table distinct; looking its ID up
/// afterwards gives the inserted handle, and every other ID finds what it
/// found before.
pub proof fn lemma_lookup_after_insert(entries: Seq<(Seq<char>, u64)>, id: Seq<char>, handle: u64, other: Seq<char>)
    requires
        distinct_ids(entries),
    ensures
        distinct_ids(inserted(entries, id, handle)),
        handle_for(inserted(entries, id, handle), id) == Some(handle),
        other != id ==> handle_for(inserted(entries, id, handle), other) == handle_for(entries, other),
{
    let after = inserted(entries, id, handle);
    if exists|i: int| 0 <= i < entries.len() && (#[trigger] entries[i]).0 == id {
        let k = choose|i: int| 0 <= i < entries.len() && (#[trigger] entries[i]).0 == id;
        assert forall|i: int, j: int| 0 <= i < j < after.len() implies (#[trigger] after[i]).0 != (#[trigger] after[j]).0 by {
            if i == k {
                assert(entries[j].0 != entries[k].0);
            } else if j == k {
                assert(entries[i].0 != entries[k].0);
            } else {
                assert(entries[i].0 != entries[j].0);
            }
        }
        assert(after[k].0 == id);
    } else {
        assert forall|i: int, j: int| 0 <= i < j < after.len() implies (#[trigger] after[i]).0 != (#[trigger] after[j]).0 by {
            if j == entries.len() {
                assert(entries[i].0 != id);
            } else {
                assert(entries[i].0 != entries[j].0);
            }
        }
        assert(after[entries.len() as int].0 == id);
    }
    let w = choose|i: int| 0 <= i < after.len() && (#[trigger] after[i]).0 == id;
    assert(after[w].1 == handle);
    if other == id {
    } else if exists|i: int| 0 <= i < entries.len() && (#[trigger] entries[i]).0 == other {
        let v = choose|i: int| 0 <= i < entries.len() && (#[trigger] entries[i]).0 == other;
        assert(after[v] == entries[v]);
        let a = choose|i: int| 0 <= i < after.len() && (#[trigger] after[i]).0 == other;
        if a != v {
            if a < entries.len() {
                assert(after[a] == entries[a]);
            }
        }
    } else {
        assert forall|i: int| 0 <= i < after.len() implies (#[trigger] after[i]).0 != other by {
            if i < entries.len() {
                if after[i] == entries[i] {
                    assert(entries[i].0 != other);
                }
            }
        }
    }
}

/// Looks `id` up in `map`; the error names the kind `typ` and the ID.
fn get(map: &IndexMap<String, u64, RandomState>, id: &str, typ: &'static str) -> (r: Result<u64, RegistryItemNotFound>)
    ensures
        match r {
            Ok(handle) => handle_for(table_entries(*map), id@) == Some(handle),
            Err(e) => handle_for(table_entries(*map), id@) is None && e.0@ == typ@ && e.1@ == id@,
        },
{
    match table_get(map, id) {
        Some(handle) => Ok(handle),
        None => Err(RegistryItemNotFound(typ, id.to_owned())),
    }
}

/// `r` is what looking `id` up among the `entries` of `kind` gives: the
/// handle stored under `id`, or else the error naming the kind and the ID.
pub open spec fn found_as(entries: Seq<(Seq<char>, u64)>, kind: ItemKind, id: Seq<char>, r: Result<u64, RegistryItemNotFound>) -> bool {
    match r {
        Ok(handle) => handle_for(entries, id) == Some(handle),
        Err(e) => handle_for(entries, id) is None && e.0@ == kind_name(kind) && e.1@ == id,
    }
}

/// The entries of `entries` after inserting, one after another, each of the
/// IDs `ids`, the `k`th with the handle `base + k`.
pub open spec fn loaded(entries: Seq<(Seq<char>, u64)>, ids: Seq<Seq<char>>, base: int) -> Seq<(Seq<char>, u64)>
    decreases ids.len(),
{
    if ids.len() == 0 {
        entries
    } else {
        inserted(loaded(entries, ids.drop_last(), base), ids.last(), (base + ids.len() - 1) as u64)
    }
}

/// The table's IDs are distinct, and each entry's handle names an item, one
/// whose ID (among `ids`, the IDs of the items by handle) is the entry's.
pub open spec fn table_wf(entries: Seq<(Seq<char>, u64)>, ids: Seq<Seq<char>>) -> bool {
    &&& distinct_ids(entries)
    &&& forall|i: int| 0 <= i < entries.len() ==> (#[trigger] entries[i]).1 < ids.len()
    &&& forall|i: int| 0 <= i < entries.len() ==> ids[(#[trigger] entries[i]).1 as int] == entries[i].0
}

proof fn lemma_insert_wf(entries: Seq<(Seq<char>, u64)>, ids: Seq<Seq<char>>, more: Seq<Seq<char>>, id: Seq<char>, handle: u64)
    requires
        table_wf(entries, ids),
        ids.len() <= handle < more.len(),
        more.take(ids.len() as int) == ids,
        more[handle as int] == id,
    ensures
        table_wf(inserted(entries, id, handle), more),
{
    lemma_lookup_after_insert(entries, id, handle, id);
    let after = inserted(entries, id, handle);
    assert forall|i: int| 0 <= i < after.len() implies (#[trigger] after[i]).1 < more.len() && more[after[i].1 as int] == after[i].0 by {
        if i < entries.len() && after[i] == entries[i] {
            assert(more[entries[i].1 as int] == ids[entries[i].1 as int]);
        }
    }
}

proof fn lemma_sorted_wf(before: Seq<(Seq<char>, u64)>, after: Seq<(Seq<char>, u64)>, ids: Seq<Seq<char>>, names: Seq<Seq<char>>)
    requires
        table_wf(before, ids),
        is_name_sorted(before, after, names),
    ensures
        table_wf(after, ids),
        after.len() == before.len(),
{
    broadcast use vstd::seq_lib::group_to_multiset_ensures;

    assert(before.no_duplicates()) by {
        assert forall|i: int, j: int| 0 <= i < before.len() && 0 <= j < before.len() && i != j implies before[i] != before[j] by {
            if i < j {
                assert(before[i].0 != before[j].0);
            } else {
                assert(before[j].0 != before[i].0);
            }
        }
    }
    before.lemma_multiset_has_no_duplicates();
    after.lemma_multiset_has_no_duplicates_conv();
    vstd::seq_lib::to_multiset_len(before);
    vstd::seq_lib::to_multiset_len(after);
    assert forall|i: int| 0 <= i < after.len() implies before.contains(#[trigger] after[i]) by {
        assert(after.to_multiset().contains(after[i]));
    }
    assert forall|i: int, j: int| 0 <= i < j < after.len() implies (#[trigger] after[i]).0 != (#[trigger] after[j]).0 by {
        assert(before.contains(after[i]));
        assert(before.contains(after[j]));
        let a = choose|a: int| 0 <= a < before.len() && before[a] == after[i];
        let b = choose|b: int| 0 <= b < before.len() && before[b] == after[j];
        if a < b {
            assert(before[a].0 != before[b].0);
        } else if b < a {
            assert(before[b].0 != before[a].0);
        }
    }
    assert forall|i: int| 0 <= i < after.len() implies (#[trigger] after[i]).1 < ids.len() && ids[after[i].1 as int] == after[i].0 by {
        assert(before.contains(after[i]));
        let a = choose|a: int| 0 <= a < before.len() && before[a] == after[i];
        assert(before[a].1 < ids.len());
    }
}

/// Inserts each of the IDs `new_ids`, with the handles following those of
/// the `names` already loaded, then sorts the table by name.
fn load_table(
    map: &mut IndexMap<String, u64, RandomState>,
    names: &mut Vec<String>,
    new_ids: &Vec<String>,
    new_names: Vec<String>,
    Ghost(ids): Ghost<Seq<Seq<char>>>,
)
    requires
        table_wf(table_entries(*old(map)), ids),
        ids.len() == old(names)@.len(),
        new_ids@.len() == new_names@.len(),
        old(names)@.len() + new_ids@.len() <= u64::MAX,
    ensures
        string_views(final(names)@) == string_views(old(names)@) + string_views(new_names@),
        table_wf(table_entries(*final(map)), ids + string_views(new_ids@)),
        is_name_sorted(
            loaded(table_entries(*old(map)), string_views(new_ids@), old(names)@.len() as int),
            table_entries(*final(map)),
            string_views(final(names)@),
        ),
{
    let ghost start = table_entries(*map);
    let ghost all_ids = ids + string_views(new_ids@);
    let base = names.len();
    let mut i: usize = 0;
    proof {
        assert(string_views(new_ids@).take(0) =~= Seq::<Seq<char>>::empty());
        assert(all_ids.take(ids.len() as int) == ids);
    }
    while i < new_ids.len()
        invariant
            0 <= i <= new_ids@.len(),
            base == ids.len(),
            base + new_ids@.len() <= u64::MAX,
            all_ids == ids + string_views(new_ids@),
            table_entries(*map) == loaded(start, string_views(new_ids@).take(i as int), base as int),
            table_wf(table_entries(*map), all_ids.take(base + i)),
        decreases new_ids@.len() - i,
    {
        let id = new_ids[i].clone();
        let handle = base as u64 + i as u64;
        let ghost before = table_entries(*map);
        table_insert(map, id, handle);
        proof {
            let taken = string_views(new_ids@).take(i + 1);
            assert(taken.drop_last() == string_views(new_ids@).take(i as int));
            assert(taken.last() == new_ids@[i as int]@);
            assert(all_ids.take(base + i + 1).take(base + i) == all_ids.take(base + i));
            assert(all_ids.take(base + i + 1)[handle as int] == new_ids@[i as int]@);
            lemma_insert_wf(before, all_ids.take(base + i), all_ids.take(base + i + 1), new_ids@[i as int]@, handle);
        }
        i = i + 1;
    }
    proof {
        assert(string_views(new_ids@).take(new_ids@.len() as int) == string_views(new_ids@));
        assert(all_ids.take(base + new_ids@.len()) == all_ids);
    }
    let ghost loaded_entries = table_entries(*map);
    let ghost old_names = names@;
    let ghost added = new_names@;
    let mut new_names = new_names;
    names.append(&mut new_names);
    proof {
        assert(names@ == old_names + added);
        assert(string_views(names@) =~= string_views(old_names) + string_views(added));
    }
    table_sort_by_name(map, names);
    proof {
        lemma_sorted_wf(loaded_entries, table_entries(*map), all_ids, string_views(names@));
    }
}


/// A unit kind, as far as the registry reads it.
#[derive(Debug)]
pub struct UnitKind {
    pub id: String,
    pub name: String,
    /// The civilizations that alone can train it; empty for all of them.
    pub only_for_civs: Vec<String>,
    /// The ID of the unit kind it replaces for those civilizations.
    pub replaces: Option<String>,
}

/// A civilization, as far as the registry reads it.
#[derive(Debug)]
pub struct Civilization {
    pub id: String,
    pub name: String,
    /// The names of the techs it starts with.
    pub starting_techs: Vec<String>,
}

/// A building, as far as the registry reads it; buildings are found by
/// name.
#[derive(Debug)]
pub struct Building {
    pub name: String,
    /// The civilizations that alone can construct it; empty for all of them.
    pub only_for_civs: Vec<String>,
    /// The name of the building it replaces for those civilizations.
    pub replaces: Option<String>,
}

/// A tech, as far as the registry reads it; techs are found by name.
#[derive(Debug)]
pub struct Tech {
    pub name: String,
}

/// A resource, as far as the registry reads it.
#[derive(Debug)]
pub struct Resource {
    pub id: String,
    pub name: String,
}

/// The game files of each kind, in the order the asset store lists them.
#[derive(Debug)]
pub struct Assets {
    pub unit_kinds: Vec<UnitKind>,
    pub civs: Vec<Civilization>,
    pub buildings: Vec<Building>,
    pub techs: Vec<Tech>,
    pub resources: Vec<Resource>,
}

/// The IDs and names of unit kinds.
fn unit_kind_labels(items: &Vec<UnitKind>) -> (labels: (Vec<String>, Vec<String>))
    ensures
        string_views(labels.0@) == items@.map_values(|u: UnitKind| u.id@),
        labels.0@.len() == items@.len(),
        labels.1@.len() == items@.len(),
        string_views(labels.1@) == items@.map_values(|u: UnitKind| u.name@),
{
    let mut ids: Vec<String> = Vec::new();
    let mut names: Vec<String> = Vec::new();
    let mut i: usize = 0;
    while i < items.len()
        invariant
            0 <= i <= items@.len(),
            ids@.len() == i,
            names@.len() == i,
            string_views(ids@) == items@.take(i as int).map_values(|u: UnitKind| u.id@),
            string_views(names@) == items@.take(i as int).map_values(|u: UnitKind| u.name@),
        decreases items@.len() - i,
    {
        let ghost old_ids = ids@;
        let ghost old_names = names@;
        ids.push(items[i].id.clone());
        names.push(items[i].name.clone());
        proof {
            assert(items@.take(i + 1).map_values(|u: UnitKind| u.id@) =~= items@.take(i as int).map_values(|u: UnitKind| u.id@).push(items@[i as int].id@));
            assert(items@.take(i + 1).map_values(|u: UnitKind| u.name@) =~= items@.take(i as int).map_values(|u: UnitKind| u.name@).push(items@[i as int].name@));
            assert(string_views(ids@) =~= string_views(old_ids).push(items@[i as int].id@));
            assert(string_views(names@) =~= string_views(old_names).push(items@[i as int].name@));
        }
        i = i + 1;
    }
    proof {
        assert(items@.take(items@.len() as int) == items@);
    }
    (ids, names)
}

/// The IDs and names of civilizations.
fn civ_labels(items: &Vec<Civilization>) -> (labels: (Vec<String>, Vec<String>))
    ensures
        string_views(labels.0@) == items@.map_values(|c: Civilization| c.id@),
        labels.0@.len() == items@.len(),
        labels.1@.len() == items@.len(),
        string_views(labels.1@) == items@.map_values(|c: Civilization| c.name@),
{
    let mut ids: Vec<String> = Vec::new();
    let mut names: Vec<String> = Vec::new();
    let mut i: usize = 0;
    while i < items.len()
        invariant
            0 <= i <= items@.len(),
            ids@.len() == i,
            names@.len() == i,
            string_views(ids@) == items@.take(i as int).map_values(|c: Civilization| c.id@),
            string_views(names@) == items@.take(i as int).map_values(|c: Civilization| c.name@),
        decreases items@.len() - i,
    {
        let ghost old_ids = ids@;
        let ghost old_names = names@;
        ids.push(items[i].id.clone());
        names.push(items[i].name.clone());
        proof {
            assert(items@.take(i + 1).map_values(|c: Civilization| c.id@) =~= items@.take(i as int).map_values(|c: Civilization| c.id@).push(items@[i as int].id@));
            assert(items@.take(i + 1).map_values(|c: Civilization| c.name@) =~= items@.take(i as int).map_values(|c: Civilization| c.name@).push(items@[i as int].name@));
            assert(string_views(ids@) =~= string_views(old_ids).push(items@[i as int].id@));
            assert(string_views(names@) =~= string_views(old_names).push(items@[i as int].name@));
        }
        i = i + 1;
    }
    proof {
        assert(items@.take(items@.len() as int) == items@);
    }
    (ids, names)
}

/// The names of buildings, which serve as their IDs.
fn building_labels(items: &Vec<Building>) -> (labels: (Vec<String>, Vec<String>))
    ensures
        string_views(labels.0@) == items@.map_values(|b: Building| b.name@),
        labels.0@.len() == items@.len(),
        labels.1@.len() == items@.len(),
        string_views(labels.1@) == items@.map_values(|b: Building| b.name@),
{
    let mut ids: Vec<String> = Vec::new();
    let mut names: Vec<String> = Vec::new();
    let mut i: usize = 0;
    while i < items.len()
        invariant
            0 <= i <= items@.len(),
            ids@.len() == i,
            names@.len() == i,
            string_views(ids@) == items@.take(i as int).map_values(|b: Building| b.name@),
            string_views(names@) == items@.take(i as int).map_values(|b: Building| b.name@),
        decreases items@.len() - i,
    {
        let ghost old_ids = ids@;
        let ghost old_names = names@;
        ids.push(items[i].name.clone());
        names.push(items[i].name.clone());
        proof {
            assert(items@.take(i + 1).map_values(|b: Building| b.name@) =~= items@.take(i as int).map_values(|b: Building| b.name@).push(items@[i as int].name@));
            assert(items@.take(i + 1).map_values(|b: Building| b.name@) =~= items@.take(i as int).map_values(|b: Building| b.name@).push(items@[i as int].name@));
            assert(string_views(ids@) =~= string_views(old_ids).push(items@[i as int].name@));
            assert(string_views(names@) =~= string_views(old_names).push(items@[i as int].name@));
        }
        i = i + 1;
    }
    proof {
        assert(items@.take(items@.len() as int) == items@);
    }
    (ids, names)
}

/// The names of techs, which serve as their IDs.
fn tech_labels(items: &Vec<Tech>) -> (labels: (Vec<String>, Vec<String>))
    ensures
        string_views(labels.0@) == items@.map_values(|t: Tech| t.name@),
        labels.0@.len() == items@.len(),
        labels.1@.len() == items@.len(),
        string_views(labels.1@) == items@.map_values(|t: Tech| t.name@),
{
    let mut ids: Vec<String> = Vec::new();
    let mut names: Vec<String> = Vec::new();
    let mut i: usize = 0;
    while i < items.len()
        invariant
            0 <= i <= items@.len(),
            ids@.len() == i,
            names@.len() == i,
            string_views(ids@) == items@.take(i as int).map_values(|t: Tech| t.name@),
            string_views(names@) == items@.take(i as int).map_values(|t: Tech| t.name@),
        decreases items@.len() - i,
    {
        let ghost old_ids = ids@;
        let ghost old_names = names@;
        ids.push(items[i].name.clone());
        names.push(items[i].name.clone());
        proof {
            assert(items@.take(i + 1).map_values(|t: Tech| t.name@) =~= items@.take(i as int).map_values(|t: Tech| t.name@).push(items@[i as int].name@));
            assert(items@.take(i + 1).map_values(|t: Tech| t.name@) =~= items@.take(i as int).map_values(|t: Tech| t.name@).push(items@[i as int].name@));
            assert(string_views(ids@) =~= string_views(old_ids).push(items@[i as int].name@));
            assert(string_views(names@) =~= string_views(old_names).push(items@[i as int].name@));
        }
        i = i + 1;
    }
    proof {
        assert(items@.take(items@.len() as int) == items@);
    }
    (ids, names)
}

/// The IDs and names of resources.
fn resource_labels(items: &Vec<Resource>) -> (labels: (Vec<String>, Vec<String>))
    ensures
        string_views(labels.0@) == items@.map_values(|r: Resource| r.id@),
        labels.0@.len() == items@.len(),
        labels.1@.len() == items@.len(),
        string_views(labels.1@) == items@.map_values(|r: Resource| r.name@),
{
    let mut ids: Vec<String> = Vec::new();
    let mut names: Vec<String> = Vec::new();
    let mut i: usize = 0;
    while i < items.len()
        invariant
            0 <= i <= items@.len(),
            ids@.len() == i,
            names@.len() == i,
            string_views(ids@) == items@.take(i as int).map_values(|r: Resource| r.id@),
            string_views(names@) == items@.take(i as int).map_values(|r: Resource| r.name@),
        decreases items@.len() - i,
    {
        let ghost old_ids = ids@;
        let ghost old_names = names@;
        ids.push(items[i].id.clone());
        names.push(items[i].name.clone());
        proof {
            assert(items@.take(i + 1).map_values(|r: Resource| r.id@) =~= items@.take(i as int).map_values(|r: Resource| r.id@).push(items@[i as int].id@));
            assert(items@.take(i + 1).map_values(|r: Resource| r.name@) =~= items@.take(i as int).map_values(|r: Resource| r.name@).push(items@[i as int].name@));
            assert(string_views(ids@) =~= string_views(old_ids).push(items@[i as int].id@));
            assert(string_views(names@) =~= string_views(old_names).push(items@[i as int].name@));
        }
        i = i + 1;
    }
    proof {
        assert(items@.take(items@.len() as int) == items@);
    }
    (ids, names)
}

/// A handle found in a well-formed table names a stored item with the
/// looked-up ID.
pub proof fn lemma_found_handle(entries: Seq<(Seq<char>, u64)>, ids: Seq<Seq<char>>, id: Seq<char>)
    requires
        table_wf(entries, ids),
        handle_for(entries, id) is Some,
    ensures
        handle_for(entries, id)->0 < ids.len(),
        ids[handle_for(entries, id)->0 as int] == id,
{
    let i = choose|i: int| 0 <= i < entries.len() && (#[trigger] entries[i]).0 == id;
    assert(entries[i].1 < ids.len());
}

/// `r` is what looking `id` up in a table with the given entries gives,
/// the item taken from `store` by its handle.
pub open spec fn item_found<T>(entries: Seq<(Seq<char>, u64)>, store: Seq<T>, kind: ItemKind, id: Seq<char>, r: Result<&T, RegistryItemNotFound>) -> bool {
    match r {
        Ok(item) => handle_for(entries, id) matches Some(h) && h < store.len() && *item == store[h as int],
        Err(e) => handle_for(entries, id) is None && e.0@ == kind_name(kind) && e.1@ == id,
    }
}

/// Looks `id` up and takes the item from `store`.
fn lookup_in<'a, T>(
    map: &IndexMap<String, u64, RandomState>,
    store: &'a Vec<T>,
    kind: ItemKind,
    id: &str,
    Ghost(ids): Ghost<Seq<Seq<char>>>,
) -> (r: Result<&'a T, RegistryItemNotFound>)
    requires
        table_wf(table_entries(*map), ids),
        ids.len() == store@.len(),
    ensures
        item_found(table_entries(*map), store@, kind, id@, r),
{
    match get(map, id, kind.name()) {
        Ok(handle) => {
            proof {
                lemma_found_handle(table_entries(*map), ids, id@);
            }
            let n = store.len();
            assert(handle < n);
            let item = &store[handle as usize];
            assert(*item == store@[handle as int]);
            Ok(item)
        },
        Err(e) => Err(e),
    }
}

/// The items of `store` in the order of the table's entries.
fn items_in<'a, T>(map: &IndexMap<String, u64, RandomState>, store: &'a Vec<T>, Ghost(ids): Ghost<Seq<Seq<char>>>) -> (items: Vec<&'a T>)
    requires
        table_wf(table_entries(*map), ids),
        ids.len() == store@.len(),
    ensures
        items@.len() == table_entries(*map).len(),
        forall|i: int| 0 <= i < items@.len() ==> *(#[trigger] items@[i]) == store@[table_entries(*map)[i].1 as int],
{
    let handles = table_values(map);
    let ghost entries = table_entries(*map);
    let mut items: Vec<&'a T> = Vec::new();
    let mut i: usize = 0;
    while i < handles.len()
        invariant
            0 <= i <= handles@.len(),
            handles@ == entries.map_values(|e: (Seq<char>, u64)| e.1),
            table_wf(entries, ids),
            ids.len() == store@.len(),
            items@.len() == i,
            forall|k: int| 0 <= k < i ==> *(#[trigger] items@[k]) == store@[entries[k].1 as int],
        decreases handles@.len() - i,
    {
        let handle = handles[i];
        proof {
            assert(handle == entries[i as int].1);
            assert(entries[i as int].1 < ids.len());
        }
        let n = store.len();
        assert(handle < n);
        let item = &store[handle as usize];
        assert(*item == store@[entries[i as int].1 as int]);
        items.push(item);
        i = i + 1;
    }
    items
}

/// Whether `list` holds a string equal to `s`.
fn contains_string(list: &Vec<String>, s: &String) -> (found: bool)
    ensures
        found == string_views(list@).contains(s@),
{
    let mut i: usize = 0;
    while i < list.len()
        invariant
            0 <= i <= list@.len(),
            forall|k: int| 0 <= k < i ==> list@[k]@ != s@,
        decreases list@.len() - i,
    {
        if list[i] == *s {
            proof {
                assert(string_views(list@)[i as int] == s@);
            }
            return true;
        }
        i = i + 1;
    }
    proof {
        assert forall|k: int| 0 <= k < list@.len() implies string_views(list@)[k] != s@ by {
            assert(string_views(list@)[k] == list@[k]@);
        }
    }
    false
}

/// The unit kind `u`, exclusive to the civilization `civ_id`, replaces the
/// unit kind `unit_id` there.
pub open spec fn unit_replaces(u: UnitKind, unit_id: Seq<char>, civ_id: Seq<char>) -> bool {
    &&& string_views(u.only_for_civs@).contains(civ_id)
    &&& u.replaces matches Some(r) && r@ == unit_id
}

/// The building `b`, exclusive to the civilization `civ_id`, replaces the
/// building `building_name` there.
pub open spec fn building_replaces(b: Building, building_name: Seq<char>, civ_id: Seq<char>) -> bool {
    &&& string_views(b.only_for_civs@).contains(civ_id)
    &&& b.replaces matches Some(r) && r@ == building_name
}

/// The names of the unit kinds exclusive to the civilization `civ_id`, in
/// the table's order.
pub open spec fn exclusive_units(store: Seq<UnitKind>, entries: Seq<(Seq<char>, u64)>, civ_id: Seq<char>) -> Seq<Seq<char>>
    decreases entries.len(),
{
    if entries.len() == 0 {
        Seq::empty()
    } else {
        let rest = exclusive_units(store, entries.drop_last(), civ_id);
        let u = store[entries.last().1 as int];
        if string_views(u.only_for_civs@).contains(civ_id) {
            rest.push(u.name@)
        } else {
            rest
        }
    }
}

/// The names of the buildings exclusive to the civilization `civ_id`, in
/// the table's order.
pub open spec fn exclusive_buildings(store: Seq<Building>, entries: Seq<(Seq<char>, u64)>, civ_id: Seq<char>) -> Seq<Seq<char>>
    decreases entries.len(),
{
    if entries.len() == 0 {
        Seq::empty()
    } else {
        let rest = exclusive_buildings(store, entries.drop_last(), civ_id);
        let b = store[entries.last().1 as int];
        if string_views(b.only_for_civs@).contains(civ_id) {
            rest.push(b.name@)
        } else {
            rest
        }
    }
}

/// A civilization's name, followed by what sets it apart in brackets when
/// anything does.
pub open spec fn civ_description(name: Seq<char>, specials: Seq<Seq<char>>) -> Seq<char> {
    if specials.len() > 0 {
        name + " ("@ + joined(specials, ", "@) + ")"@
    } else {
        name
    }
}

/// A registry of data-driven game files - unit kinds, civilizations,
/// buildings, etc. Each kind has a table from IDs to handles, a handle
/// being the item's place in the registry's store of that kind's assets.
pub struct Registry {
    unit_kinds: IndexMap<String, u64, RandomState>,
    civs: IndexMap<String, u64, RandomState>,
    buildings: IndexMap<String, u64, RandomState>,
    techs: IndexMap<String, u64, RandomState>,
    resources: IndexMap<String, u64, RandomState>,
    unit_kind_assets: Vec<UnitKind>,
    civ_assets: Vec<Civilization>,
    building_assets: Vec<Building>,
    tech_assets: Vec<Tech>,
    resource_assets: Vec<Resource>,
    unit_kind_names: Vec<String>,
    civ_names: Vec<String>,
    building_names: Vec<String>,
    tech_names: Vec<String>,
    resource_names: Vec<String>,
}

impl Registry {
    /// The entries of the table of `kind`, in their order.
    pub closed spec fn table(&self, kind: ItemKind) -> Seq<(Seq<char>, u64)> {
        match kind {
            ItemKind::UnitKind => table_entries(self.unit_kinds),
            ItemKind::Civilization => table_entries(self.civs),
            ItemKind::Building => table_entries(self.buildings),
            ItemKind::Tech => table_entries(self.techs),
            ItemKind::Resource => table_entries(self.resources),
        }
    }

    pub closed spec fn unit_kind_store(&self) -> Seq<UnitKind> {
        self.unit_kind_assets@
    }

    pub closed spec fn civ_store(&self) -> Seq<Civilization> {
        self.civ_assets@
    }

    pub closed spec fn building_store(&self) -> Seq<Building> {
        self.building_assets@
    }

    pub closed spec fn tech_store(&self) -> Seq<Tech> {
        self.tech_assets@
    }

    pub closed spec fn resource_store(&self) -> Seq<Resource> {
        self.resource_assets@
    }

    /// The IDs of the stored items of `kind`, by handle.
    pub open spec fn ids(&self, kind: ItemKind) -> Seq<Seq<char>> {
        match kind {
            ItemKind::UnitKind => self.unit_kind_store().map_values(|u: UnitKind| u.id@),
            ItemKind::Civilization => self.civ_store().map_values(|c: Civilization| c.id@),
            ItemKind::Building => self.building_store().map_values(|b: Building| b.name@),
            ItemKind::Tech => self.tech_store().map_values(|t: Tech| t.name@),
            ItemKind::Resource => self.resource_store().map_values(|r: Resource| r.id@),
        }
    }

    /// The names of the stored items of `kind`, by handle.
    pub open spec fn names(&self, kind: ItemKind) -> Seq<Seq<char>> {
        match kind {
            ItemKind::UnitKind => self.unit_kind_store().map_values(|u: UnitKind| u.name@),
            ItemKind::Civilization => self.civ_store().map_values(|c: Civilization| c.name@),
            ItemKind::Building => self.building_store().map_values(|b: Building| b.name@),
            ItemKind::Tech => self.tech_store().map_values(|t: Tech| t.name@),
            ItemKind::Resource => self.resource_store().map_values(|r: Resource| r.name@),
        }
    }

    /// The name lists that the sorts read match the stored items.
    pub closed spec fn names_kept(&self) -> bool {
        &&& string_views(self.unit_kind_names@) == self.names(ItemKind::UnitKind)
        &&& string_views(self.civ_names@) == self.names(ItemKind::Civilization)
        &&& string_views(self.building_names@) == self.names(ItemKind::Building)
        &&& string_views(self.tech_names@) == self.names(ItemKind::Tech)
        &&& string_views(self.resource_names@) == self.names(ItemKind::Resource)
    }

    /// Each table has distinct IDs and leads each of them to a stored item
    /// with that ID.
    pub open spec fn wf(&self) -> bool {
        &&& forall|kind: ItemKind| table_wf(#[trigger] self.table(kind), self.ids(kind))
        &&& self.names_kept()
    }

    /// An empty registry.
    pub fn new() -> (registry: Self)
        ensures
            registry.wf(),
            forall|kind: ItemKind| (#[trigger] registry.table(kind)).len() == 0 && registry.ids(kind).len() == 0,
    {
        let registry = Registry {
            unit_kinds: table_new(),
            civs: table_new(),
            buildings: table_new(),
            techs: table_new(),
            resources: table_new(),
            unit_kind_assets: Vec::new(),
            civ_assets: Vec::new(),
            building_assets: Vec::new(),
            tech_assets: Vec::new(),
            resource_assets: Vec::new(),
            unit_kind_names: Vec::new(),
            civ_names: Vec::new(),
            building_names: Vec::new(),
            tech_names: Vec::new(),
            resource_names: Vec::new(),
        };
        proof {
            assert(string_views(registry.unit_kind_names@) =~= registry.names(ItemKind::UnitKind));
            assert(string_views(registry.civ_names@) =~= registry.names(ItemKind::Civilization));
            assert(string_views(registry.building_names@) =~= registry.names(ItemKind::Building));
            assert(string_views(registry.tech_names@) =~= registry.names(ItemKind::Tech));
            assert(string_views(registry.resource_names@) =~= registry.names(ItemKind::Resource));
        }
        registry
    }

    #[verifier::rlimit(40)]
    /// Loads the game files of every kind: each item is stored and its ID
    /// inserted into its kind's table, whose entries are then sorted by the
    /// names of their items, items with equal names keeping their order.
    pub fn load_from_assets(&mut self, assets: Assets)
        requires
            old(self).wf(),
            old(self).ids(ItemKind::UnitKind).len() + assets.unit_kinds@.len() <= u64::MAX,
            old(self).ids(ItemKind::Civilization).len() + assets.civs@.len() <= u64::MAX,
            old(self).ids(ItemKind::Building).len() + assets.buildings@.len() <= u64::MAX,
            old(self).ids(ItemKind::Tech).len() + assets.techs@.len() <= u64::MAX,
            old(self).ids(ItemKind::Resource).len() + assets.resources@.len() <= u64::MAX,
        ensures
            final(self).wf(),
            final(self).unit_kind_store() == old(self).unit_kind_store() + assets.unit_kinds@,
            final(self).civ_store() == old(self).civ_store() + assets.civs@,
            final(self).building_store() == old(self).building_store() + assets.buildings@,
            final(self).tech_store() == old(self).tech_store() + assets.techs@,
            final(self).resource_store() == old(self).resource_store() + assets.resources@,
            forall|kind: ItemKind| is_name_sorted(
                loaded(old(self).table(kind), #[trigger] final(self).ids(kind).skip(old(self).ids(kind).len() as int), old(self).ids(kind).len() as int),
                final(self).table(kind),
                final(self).names(kind),
            ),
    {
        let mut assets = assets;
        let ghost before = *self;
        proof {
            assert(table_wf(before.table(ItemKind::UnitKind), before.ids(ItemKind::UnitKind)));
            assert(table_wf(before.table(ItemKind::Civilization), before.ids(ItemKind::Civilization)));
            assert(table_wf(before.table(ItemKind::Building), before.ids(ItemKind::Building)));
            assert(table_wf(before.table(ItemKind::Tech), before.ids(ItemKind::Tech)));
            assert(table_wf(before.table(ItemKind::Resource), before.ids(ItemKind::Resource)));
            assert(before.names_kept());
            assert(string_views(self.unit_kind_names@).len() == self.unit_kind_names@.len());
            assert(string_views(self.civ_names@).len() == self.civ_names@.len());
            assert(string_views(self.building_names@).len() == self.building_names@.len());
            assert(string_views(self.tech_names@).len() == self.tech_names@.len());
            assert(string_views(self.resource_names@).len() == self.resource_names@.len());
        }

        let (ids, names) = unit_kind_labels(&assets.unit_kinds);
        load_table(&mut self.unit_kinds, &mut self.unit_kind_names, &ids, names, Ghost(before.ids(ItemKind::UnitKind)));
        let ghost added = assets.unit_kinds@;
        self.unit_kind_assets.append(&mut assets.unit_kinds);
        proof {
            assert(self.unit_kind_store() == before.unit_kind_store() + added);
            assert(self.ids(ItemKind::UnitKind) =~= before.ids(ItemKind::UnitKind) + string_views(ids@));
            assert(self.names(ItemKind::UnitKind) =~= before.names(ItemKind::UnitKind) + added.map_values(|u: UnitKind| u.name@));
            assert(self.ids(ItemKind::UnitKind).skip(before.ids(ItemKind::UnitKind).len() as int) =~= string_views(ids@));
        }

        let (ids, names) = civ_labels(&assets.civs);
        load_table(&mut self.civs, &mut self.civ_names, &ids, names, Ghost(before.ids(ItemKind::Civilization)));
        let ghost added = assets.civs@;
        self.civ_assets.append(&mut assets.civs);
        proof {
            assert(self.civ_store() == before.civ_store() + added);
            assert(self.ids(ItemKind::Civilization) =~= before.ids(ItemKind::Civilization) + string_views(ids@));
            assert(self.names(ItemKind::Civilization) =~= before.names(ItemKind::Civilization) + added.map_values(|c: Civilization| c.name@));
            assert(self.ids(ItemKind::Civilization).skip(before.ids(ItemKind::Civilization).len() as int) =~= string_views(ids@));
        }

        let (ids, names) = building_labels(&assets.buildings);
        load_table(&mut self.buildings, &mut self.building_names, &ids, names, Ghost(before.ids(ItemKind::Building)));
        let ghost added = assets.buildings@;
        self.building_assets.append(&mut assets.buildings);
        proof {
            assert(self.building_store() == before.building_store() + added);
            assert(self.ids(ItemKind::Building) =~= before.ids(ItemKind::Building) + string_views(ids@));
            assert(self.names(ItemKind::Building) =~= before.names(ItemKind::Building) + added.map_values(|b: Building| b.name@));
            assert(self.ids(ItemKind::Building).skip(before.ids(ItemKind::Building).len() as int) =~= string_views(ids@));
        }

        let (ids, names) = tech_labels(&assets.techs);
        load_table(&mut self.techs, &mut self.tech_names, &ids, names, Ghost(before.ids(ItemKind::Tech)));
        let ghost added = assets.techs@;
        self.tech_assets.append(&mut assets.techs);
        proof {
            assert(self.tech_store() == before.tech_store() + added);
            assert(self.ids(ItemKind::Tech) =~= before.ids(ItemKind::Tech) + string_views(ids@));
            assert(self.names(ItemKind::Tech) =~= before.names(ItemKind::Tech) + added.map_values(|t: Tech| t.name@));
            assert(self.ids(ItemKind::Tech).skip(before.ids(ItemKind::Tech).len() as int) =~= string_views(ids@));
        }

        let (ids, names) = resource_labels(&assets.resources);
        load_table(&mut self.resources, &mut self.resource_names, &ids, names, Ghost(before.ids(ItemKind::Resource)));
        let ghost added = assets.resources@;
        self.resource_assets.append(&mut assets.resources);
        proof {
            assert(self.resource_store() == before.resource_store() + added);
            assert(self.ids(ItemKind::Resource) =~= before.ids(ItemKind::Resource) + string_views(ids@));
            assert(self.names(ItemKind::Resource) =~= before.names(ItemKind::Resource) + added.map_values(|r: Resource| r.name@));
            assert(self.ids(ItemKind::Resource).skip(before.ids(ItemKind::Resource).len() as int) =~= string_views(ids@));
        }
        proof {
            assert forall|kind: ItemKind| table_wf(#[trigger] self.table(kind), self.ids(kind)) by {}
        }
    }

    /// Looks up the handle of the item of `kind` with the ID `id`.
    pub fn item(&self, kind: ItemKind, id: &str) -> (r: Result<u64, RegistryItemNotFound>)
        ensures
            found_as(self.table(kind), kind, id@, r),
    {
        let typ = kind.name();
        match kind {
            ItemKind::UnitKind => get(&self.unit_kinds, id, typ),
            ItemKind::Civilization => get(&self.civs, id, typ),
            ItemKind::Building => get(&self.buildings, id, typ),
            ItemKind::Tech => get(&self.techs, id, typ),
            ItemKind::Resource => get(&self.resources, id, typ),
        }
    }

    /// The number of civilizations.
    pub fn num_civs(&self) -> (n: usize)
        ensures
            n == self.table(ItemKind::Civilization).len(),
    {
        table_len(&self.civs)
    }

    /// The handles of the items of `kind`, in the table's order.
    pub fn handles(&self, kind: ItemKind) -> (handles: Vec<u64>)
        ensures
            handles@ == self.table(kind).map_values(|e: (Seq<char>, u64)| e.1),
    {
        match kind {
            ItemKind::UnitKind => table_values(&self.unit_kinds),
            ItemKind::Civilization => table_values(&self.civs),
            ItemKind::Building => table_values(&self.buildings),
            ItemKind::Tech => table_values(&self.techs),
            ItemKind::Resource => table_values(&self.resources),
        }
    }

    pub fn unit_kind(&self, id: &str) -> (r: Result<&UnitKind, RegistryItemNotFound>)
        requires
            self.wf(),
        ensures
            item_found(self.table(ItemKind::UnitKind), self.unit_kind_store(), ItemKind::UnitKind, id@, r),
    {
        proof {
            assert(table_wf(self.table(ItemKind::UnitKind), self.ids(ItemKind::UnitKind)));
        }
        lookup_in(&self.unit_kinds, &self.unit_kind_assets, ItemKind::UnitKind, id, Ghost(self.ids(ItemKind::UnitKind)))
    }

    pub fn civ(&self, id: &str) -> (r: Result<&Civilization, RegistryItemNotFound>)
        requires
            self.wf(),
        ensures
            item_found(self.table(ItemKind::Civilization), self.civ_store(), ItemKind::Civilization, id@, r),
    {
        proof {
            assert(table_wf(self.table(ItemKind::Civilization), self.ids(ItemKind::Civilization)));
        }
        lookup_in(&self.civs, &self.civ_assets, ItemKind::Civilization, id, Ghost(self.ids(ItemKind::Civilization)))
    }

    pub fn building(&self, name: &str) -> (r: Result<&Building, RegistryItemNotFound>)
        requires
            self.wf(),
        ensures
            item_found(self.table(ItemKind::Building), self.building_store(), ItemKind::Building, name@, r),
    {
        proof {
            assert(table_wf(self.table(ItemKind::Building), self.ids(ItemKind::Building)));
        }
        lookup_in(&self.buildings, &self.building_assets, ItemKind::Building, name, Ghost(self.ids(ItemKind::Building)))
    }

    pub fn tech(&self, name: &str) -> (r: Result<&Tech, RegistryItemNotFound>)
        requires
            self.wf(),
        ensures
            item_found(self.table(ItemKind::Tech), self.tech_store(), ItemKind::Tech, name@, r),
    {
        proof {
            assert(table_wf(self.table(ItemKind::Tech), self.ids(ItemKind::Tech)));
        }
        lookup_in(&self.techs, &self.tech_assets, ItemKind::Tech, name, Ghost(self.ids(ItemKind::Tech)))
    }

    pub fn resource(&self, id: &str) -> (r: Result<&Resource, RegistryItemNotFound>)
        requires
            self.wf(),
        ensures
            item_found(self.table(ItemKind::Resource), self.resource_store(), ItemKind::Resource, id@, r),
    {
        proof {
            assert(table_wf(self.table(ItemKind::Resource), self.ids(ItemKind::Resource)));
        }
        lookup_in(&self.resources, &self.resource_assets, ItemKind::Resource, id, Ghost(self.ids(ItemKind::Resource)))
    }

    /// The unit kinds, in the table's order.
    pub fn unit_kinds(&self) -> (items: Vec<&UnitKind>)
        requires
            self.wf(),
        ensures
            items@.len() == self.table(ItemKind::UnitKind).len(),
            forall|i: int| 0 <= i < items@.len() ==> *(#[trigger] items@[i]) == self.unit_kind_store()[self.table(ItemKind::UnitKind)[i].1 as int],
    {
        proof {
            assert(table_wf(self.table(ItemKind::UnitKind), self.ids(ItemKind::UnitKind)));
        }
        items_in(&self.unit_kinds, &self.unit_kind_assets, Ghost(self.ids(ItemKind::UnitKind)))
    }

    /// The civilizations, in the table's order.
    pub fn civs(&self) -> (items: Vec<&Civilization>)
        requires
            self.wf(),
        ensures
            items@.len() == self.table(ItemKind::Civilization).len(),
            forall|i: int| 0 <= i < items@.len() ==> *(#[trigger] items@[i]) == self.civ_store()[self.table(ItemKind::Civilization)[i].1 as int],
    {
        proof {
            assert(table_wf(self.table(ItemKind::Civilization), self.ids(ItemKind::Civilization)));
        }
        items_in(&self.civs, &self.civ_assets, Ghost(self.ids(ItemKind::Civilization)))
    }

    /// The buildings, in the table's order.
    pub fn buildings(&self) -> (items: Vec<&Building>)
        requires
            self.wf(),
        ensures
            items@.len() == self.table(ItemKind::Building).len(),
            forall|i: int| 0 <= i < items@.len() ==> *(#[trigger] items@[i]) == self.building_store()[self.table(ItemKind::Building)[i].1 as int],
    {
        proof {
            assert(table_wf(self.table(ItemKind::Building), self.ids(ItemKind::Building)));
        }
        items_in(&self.buildings, &self.building_assets, Ghost(self.ids(ItemKind::Building)))
    }

    /// The techs, in the table's order.
    pub fn techs(&self) -> (items: Vec<&Tech>)
        requires
            self.wf(),
        ensures
            items@.len() == self.table(ItemKind::Tech).len(),
            forall|i: int| 0 <= i < items@.len() ==> *(#[trigger] items@[i]) == self.tech_store()[self.table(ItemKind::Tech)[i].1 as int],
    {
        proof {
            assert(table_wf(self.table(ItemKind::Tech), self.ids(ItemKind::Tech)));
        }
        items_in(&self.techs, &self.tech_assets, Ghost(self.ids(ItemKind::Tech)))
    }

    /// The resources, in the table's order.
    pub fn resources(&self) -> (items: Vec<&Resource>)
        requires
            self.wf(),
        ensures
            items@.len() == self.table(ItemKind::Resource).len(),
            forall|i: int| 0 <= i < items@.len() ==> *(#[trigger] items@[i]) == self.resource_store()[self.table(ItemKind::Resource)[i].1 as int],
    {
        proof {
            assert(table_wf(self.table(ItemKind::Resource), self.ids(ItemKind::Resource)));
        }
        items_in(&self.resources, &self.resource_assets, Ghost(self.ids(ItemKind::Resource)))
    }

    /// Whether some unit kind exclusive to `civ` replaces `unit` there.
    pub fn is_unit_replaced_for_civ(&self, unit: &UnitKind, civ: &Civilization) -> (replaced: bool)
        requires
            self.wf(),
        ensures
            replaced == exists|k: int| 0 <= k < self.table(ItemKind::UnitKind).len()
                && unit_replaces(#[trigger] self.unit_kind_store()[self.table(ItemKind::UnitKind)[k].1 as int], unit.id@, civ.id@),
    {
        let units = self.unit_kinds();
        let ghost entries = self.table(ItemKind::UnitKind);
        let ghost store = self.unit_kind_store();
        let mut i: usize = 0;
        while i < units.len()
            invariant
                0 <= i <= units@.len(),
                entries == self.table(ItemKind::UnitKind),
                store == self.unit_kind_store(),
                units@.len() == entries.len(),
                forall|k: int| 0 <= k < units@.len() ==> *(#[trigger] units@[k]) == store[entries[k].1 as int],
                forall|k: int| 0 <= k < i ==> !unit_replaces(#[trigger] store[entries[k].1 as int], unit.id@, civ.id@),
            decreases units@.len() - i,
        {
            let u = units[i];
            assert(*u == store[entries[i as int].1 as int]);
            if contains_string(&u.only_for_civs, &civ.id) {
                match &u.replaces {
                    Some(r) => {
                        if *r == unit.id {
                            proof {
                                assert(unit_replaces(self.unit_kind_store()[self.table(ItemKind::UnitKind)[i as int].1 as int], unit.id@, civ.id@));
                            }
                            return true;
                        }
                    },
                    None => {},
                }
            }
            i = i + 1;
        }
        false
    }

    /// Whether some building exclusive to `civ` replaces `building` there.
    pub fn is_building_replaced_for_civ(&self, building: &Building, civ: &Civilization) -> (replaced: bool)
        requires
            self.wf(),
        ensures
            replaced == exists|k: int| 0 <= k < self.table(ItemKind::Building).len()
                && building_replaces(#[trigger] self.building_store()[self.table(ItemKind::Building)[k].1 as int], building.name@, civ.id@),
    {
        let buildings = self.buildings();
        let ghost entries = self.table(ItemKind::Building);
        let ghost store = self.building_store();
        let mut i: usize = 0;
        while i < buildings.len()
            invariant
                0 <= i <= buildings@.len(),
                entries == self.table(ItemKind::Building),
                store == self.building_store(),
                buildings@.len() == entries.len(),
                forall|k: int| 0 <= k < buildings@.len() ==> *(#[trigger] buildings@[k]) == store[entries[k].1 as int],
                forall|k: int| 0 <= k < i ==> !building_replaces(#[trigger] store[entries[k].1 as int], building.name@, civ.id@),
            decreases buildings@.len() - i,
        {
            let b = buildings[i];
            assert(*b == store[entries[i as int].1 as int]);
            if contains_string(&b.only_for_civs, &civ.id) {
                match &b.replaces {
                    Some(r) => {
                        if *r == building.name {
                            proof {
                                assert(building_replaces(self.building_store()[self.table(ItemKind::Building)[i as int].1 as int], building.name@, civ.id@));
                            }
                            return true;
                        }
                    },
                    None => {},
                }
            }
            i = i + 1;
        }
        false
    }

    /// Describes a civilization: its name, followed in brackets by its
    /// starting techs and the unit kinds and buildings exclusive to it.
    pub fn describe_civ(&self, civ: &Civilization) -> (text: String)
        requires
            self.wf(),
        ensures
            text@ == civ_description(
                civ.name@,
                string_views(civ.starting_techs@)
                    + exclusive_units(self.unit_kind_store(), self.table(ItemKind::UnitKind), civ.id@)
                    + exclusive_buildings(self.building_store(), self.table(ItemKind::Building), civ.id@),
            ),
    {
        let mut parentheticals: Vec<String> = Vec::new();
        let mut i: usize = 0;
        while i < civ.starting_techs.len()
            invariant
                0 <= i <= civ.starting_techs@.len(),
                string_views(parentheticals@) == string_views(civ.starting_techs@).take(i as int),
            decreases civ.starting_techs@.len() - i,
        {
            let ghost before = parentheticals@;
            parentheticals.push(civ.starting_techs[i].clone());
            proof {
                assert(string_views(parentheticals@) =~= string_views(before).push(civ.starting_techs@[i as int]@));
                assert(string_views(civ.starting_techs@).take(i + 1) =~= string_views(civ.starting_techs@).take(i as int).push(civ.starting_techs@[i as int]@));
            }
            i = i + 1;
        }
        let ghost techs = string_views(civ.starting_techs@);
        proof {
            assert(techs.take(techs.len() as int) == techs);
        }

        let units = self.unit_kinds();
        let ghost unit_entries = self.table(ItemKind::UnitKind);
        let ghost unit_store = self.unit_kind_store();
        let mut j: usize = 0;
        proof {
            assert(unit_entries.take(0) =~= Seq::<(Seq<char>, u64)>::empty());
            assert(techs + exclusive_units(unit_store, unit_entries.take(0), civ.id@) =~= techs);
        }
        while j < units.len()
            invariant
                0 <= j <= units@.len(),
                units@.len() == unit_entries.len(),
                forall|k: int| 0 <= k < units@.len() ==> *(#[trigger] units@[k]) == unit_store[unit_entries[k].1 as int],
                string_views(parentheticals@) == techs + exclusive_units(unit_store, unit_entries.take(j as int), civ.id@),
            decreases units@.len() - j,
        {
            let u = units[j];
            proof {
                assert(*u == unit_store[unit_entries[j as int].1 as int]);
                assert(unit_entries.take(j + 1).drop_last() == unit_entries.take(j as int));
                assert(unit_entries.take(j + 1).last() == unit_entries[j as int]);
            }
            if contains_string(&u.only_for_civs, &civ.id) {
                let ghost before = parentheticals@;
                parentheticals.push(u.name.clone());
                proof {
                    assert(string_views(parentheticals@) =~= string_views(before).push(u.name@));
                }
            }
            j = j + 1;
        }
        proof {
            assert(unit_entries.take(unit_entries.len() as int) == unit_entries);
        }
        let ghost with_units = techs + exclusive_units(unit_store, unit_entries, civ.id@);

        let buildings = self.buildings();
        let ghost building_entries = self.table(ItemKind::Building);
        let ghost building_store = self.building_store();
        let mut k: usize = 0;
        proof {
            assert(building_entries.take(0) =~= Seq::<(Seq<char>, u64)>::empty());
            assert(with_units + exclusive_buildings(building_store, building_entries.take(0), civ.id@) =~= with_units);
        }
        while k < buildings.len()
            invariant
                0 <= k <= buildings@.len(),
                buildings@.len() == building_entries.len(),
                forall|m: int| 0 <= m < buildings@.len() ==> *(#[trigger] buildings@[m]) == building_store[building_entries[m].1 as int],
                string_views(parentheticals@) == with_units + exclusive_buildings(building_store, building_entries.take(k as int), civ.id@),
            decreases buildings@.len() - k,
        {
            let b = buildings[k];
            proof {
                assert(*b == building_store[building_entries[k as int].1 as int]);
                assert(building_entries.take(k + 1).drop_last() == building_entries.take(k as int));
                assert(building_entries.take(k + 1).last() == building_entries[k as int]);
            }
            if contains_string(&b.only_for_civs, &civ.id) {
                let ghost before = parentheticals@;
                parentheticals.push(b.name.clone());
                proof {
                    assert(string_views(parentheticals@) =~= string_views(before).push(b.name@));
                }
            }
            k = k + 1;
        }
        proof {
            assert(building_entries.take(building_entries.len() as int) == building_entries);
        }

        let mut result = civ.name.clone();
        if parentheticals.len() > 0 {
            result.append(" (");
            let inner = delimit_string(&parentheticals, ", ");
            result.append(inner.as_str());
            result.append(")");
        }
        result
    }
}

} // verus!
