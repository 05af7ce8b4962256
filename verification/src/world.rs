//! Decisions about the game world taken on the client: where the view
//! starts, whether the turn can end, and what a unit update tells the rest
//! of the client.

use crate::pos::Pos;
use vstd::prelude::*;

verus! {

/// What the view's placement needs to know of a unit.
#[derive(Clone, Copy, Debug, PartialEq, Eq, Structural)]
pub struct UnitPlacement {
    /// The player owning the unit.
    pub owner: u64,
    /// The unit can found cities.
    pub founds_cities: bool,
    pub pos: Pos,
}

/// What the view's placement needs to know of a city.
#[derive(Clone, Copy, Debug, PartialEq, Eq, Structural)]
pub struct CityPlacement {
    /// The player owning the city.
    pub owner: u64,
    pub pos: Pos,
}

/// The position of the first unit of `me` that can found cities.
pub open spec fn first_settler(units: Seq<UnitPlacement>, me: u64) -> Option<Pos>
    decreases units.len(),
{
    if units.len() == 0 {
        None
    } else if units[0].owner == me && units[0].founds_cities {
        Some(units[0].pos)
    } else {
        first_settler(units.drop_first(), me)
    }
}

/// The position of the first city of `me`.
pub open spec fn first_city(cities: Seq<CityPlacement>, me: u64) -> Option<Pos>
    decreases cities.len(),
{
    if cities.len() == 0 {
        None
    } else if cities[0].owner == me {
        Some(cities[0].pos)
    } else {
        first_city(cities.drop_first(), me)
    }
}

/// The tile the view centers on when the game starts: the position of our
/// settler, the position of our capital, or the origin, in that order of
/// priority.
pub fn initial_view_center(units: &Vec<UnitPlacement>, cities: &Vec<CityPlacement>, me: u64) -> (center: Pos)
    ensures
        center == (match first_settler(units@, me) {
            Some(p) => p,
            None => match first_city(cities@, me) {
                Some(p) => p,
                None => Pos { x: 0, y: 0 },
            },
        }),
{
    let mut i: usize = 0;
    assert(units@.skip(0) == units@);
    while i < units.len()
        invariant
            0 <= i <= units@.len(),
            first_settler(units@.skip(i as int), me) == first_settler(units@, me),
        decreases units@.len() - i,
    {
        let unit = units[i];
        assert(units@.skip(i as int)[0] == unit);
        if unit.owner == me && unit.founds_cities {
            return unit.pos;
        }
        assert(units@.skip(i as int).drop_first() == units@.skip(i + 1));
        i = i + 1;
    }
    assert(units@.skip(i as int).len() == 0);
    let mut j: usize = 0;
    assert(cities@.skip(0) == cities@);
    while j < cities.len()
        invariant
            0 <= j <= cities@.len(),
            first_settler(units@, me) is None,
            first_city(cities@.skip(j as int), me) == first_city(cities@, me),
        decreases cities@.len() - j,
    {
        let city = cities[j];
        assert(cities@.skip(j as int)[0] == city);
        if city.owner == me {
            return city.pos;
        }
        assert(cities@.skip(j as int).drop_first() == cities@.skip(j + 1));
        j = j + 1;
    }
    assert(cities@.skip(j as int).len() == 0);
    Pos { x: 0, y: 0 }
}

/// Whether the current turn can be ended because all units have been moved:
/// the selection has run through every unit, no prompt is open, no unit is
/// selected and no unit movement awaits the server.
pub fn can_end_turn(selection_exhausted: bool, prompts_open: bool, selection_empty: bool, pending_unit_movements: bool) -> (can_end: bool)
    ensures
        can_end == (selection_exhausted && !prompts_open && selection_empty && !pending_unit_movements),
{
    selection_exhausted && !prompts_open && selection_empty && !pending_unit_movements
}

/// Whether the user cannot move the view now: a city screen is open.
pub fn is_view_locked(city_screen_open: bool) -> (locked: bool)
    ensures
        locked == city_screen_open,
{
    city_screen_open
}

/// Operations queued to run, with mutable access to the game, at the start
/// of the next frame.
pub struct OperationQueue<T> {
    ops: Vec<T>,
}

impl<T> View for OperationQueue<T> {
    type V = Seq<T>;

    closed spec fn view(&self) -> Seq<T> {
        self.ops@
    }
}

impl<T> OperationQueue<T> {
    /// No operation waits.
    pub fn new() -> (queue: Self)
        ensures
            queue@ == Seq::<T>::empty(),
    {
        OperationQueue { ops: Vec::new() }
    }

    /// Queues `op` after the operations already waiting.
    pub fn enqueue(&mut self, op: T)
        ensures
            final(self)@ == old(self)@.push(op),
    {
        self.ops.push(op);
    }

    /// Starts a frame's flush: hands out every waiting operation, in the
    /// order they were queued, to be run now, and leaves none waiting.
    pub fn begin_flush(&mut self) -> (ops: Vec<T>)
        ensures
            ops@ == old(self)@,
            final(self)@ == Seq::<T>::empty(),
    {
        let mut taken: Vec<T> = Vec::new();
        std::mem::swap(&mut taken, &mut self.ops);
        taken
    }

    /// Ends a frame's flush: operations queued while the flushed ones ran
    /// are dropped, not run.
    pub fn end_flush(&mut self)
        ensures
            final(self)@ == Seq::<T>::empty(),
    {
        self.ops.clear();
    }
}

/// An event about units that the world hands on to the rest of the client.
#[derive(Clone, Copy, Debug, PartialEq, Eq, Structural)]
pub enum UnitEvent {
    /// The unit moved from `old_pos` to `new_pos`.
    Moved { unit: u64, old_pos: Pos, new_pos: Pos },
    /// The unit's data changed.
    Updated { unit: u64 },
}

/// The events for units moved together from `old_pos` to `new_pos`.
pub open spec fn moved_events(units: Seq<u64>, old_pos: Pos, new_pos: Pos) -> Seq<UnitEvent>
    decreases units.len(),
{
    if units.len() == 0 {
        Seq::empty()
    } else {
        moved_events(units.drop_last(), old_pos, new_pos)
            + seq![
            UnitEvent::Moved { unit: units.last(), old_pos, new_pos },
            UnitEvent::Updated { unit: units.last() },
        ]
    }
}

/// The events for units moved together from `old_pos` to `new_pos`: for
/// each unit in turn, that it moved and that it changed.
pub fn units_moved_events(units: &Vec<u64>, old_pos: Pos, new_pos: Pos) -> (events: Vec<UnitEvent>)
    ensures
        events@ == moved_events(units@, old_pos, new_pos),
        events@.len() == 2 * units@.len(),
        forall|i: int| 0 <= i < units@.len() ==> events@[2 * i] == (UnitEvent::Moved { unit: units@[i], old_pos, new_pos })
            && events@[2 * i + 1] == (UnitEvent::Updated { unit: units@[i] }),
{
    let mut events: Vec<UnitEvent> = Vec::new();
    let mut i: usize = 0;
    while i < units.len()
        invariant
            0 <= i <= units@.len(),
            events@ == moved_events(units@.take(i as int), old_pos, new_pos),
            events@.len() == 2 * i,
            forall|j: int| 0 <= j < i ==> events@[2 * j] == (UnitEvent::Moved { unit: units@[j], old_pos, new_pos })
                && events@[2 * j + 1] == (UnitEvent::Updated { unit: units@[j] }),
        decreases units@.len() - i,
    {
        let unit = units[i];
        events.push(UnitEvent::Moved { unit, old_pos, new_pos });
        events.push(UnitEvent::Updated { unit });
        proof {
            assert(units@.take(i + 1).drop_last() == units@.take(i as int));
        }
        i = i + 1;
    }
    proof {
        assert(units@.take(units@.len() as int) == units@);
    }
    events
}

/// What an update of a unit's data from the server does: a unit not known
/// before is added; a known unit that stands elsewhere now has moved, which
/// gives the events of a move; either way, the unit's data changed.
pub fn unit_update_events(unit: u64, known: bool, old_pos: Pos, new_pos: Pos) -> (r: (bool, Vec<UnitEvent>))
    ensures
        r.0 == !known,
        known && old_pos != new_pos ==> r.1@ == seq![
            UnitEvent::Moved { unit, old_pos, new_pos },
            UnitEvent::Updated { unit },
            UnitEvent::Updated { unit },
        ],
        !(known && old_pos != new_pos) ==> r.1@ == seq![UnitEvent::Updated { unit }],
{
    let mut events: Vec<UnitEvent> = Vec::new();
    if known && old_pos != new_pos {
        events.push(UnitEvent::Moved { unit, old_pos, new_pos });
        events.push(UnitEvent::Updated { unit });
    }
    events.push(UnitEvent::Updated { unit });
    (!known, events)
}

} // verus!
