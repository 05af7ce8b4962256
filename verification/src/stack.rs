//! Unit stacks: every unit on the map, grouped by the tile it stands on.

use crate::pos::{OutOfBounds, Pos};
use crate::tile::{lemma_index_in_area, lemma_index_injective};
use smallvec::SmallVec;
use vstd::prelude::*;

verus! {

// ---------------------------------------------------------------------------
// The list of units of a stack.

/// The units of one stack, kept in a `SmallVec` that holds one unit without
/// allocating.
#[verifier::external_body]
pub struct UnitList {
    units: SmallVec<[u64; 1]>,
}

/// The units in a `UnitList`, in order.
pub uninterp spec fn unit_list_contents(list: UnitList) -> Seq<u64>;

/// Calls `SmallVec::new`: the list is empty.
#[verifier::external_body]
fn unit_list_new() -> (list: UnitList)
    ensures
        unit_list_contents(list).len() == 0,
{
    UnitList { units: SmallVec::new() }
}

/// Calls `SmallVec::len`.
#[verifier::external_body]
fn unit_list_len(list: &UnitList) -> (len: usize)
    ensures
        len == unit_list_contents(*list).len(),
{
    list.units.len()
}

/// Reads one unit through `SmallVec`'s `Index` (by way of its slice).
#[verifier::external_body]
fn unit_list_get(list: &UnitList, i: usize) -> (unit: u64)
    requires
        i < unit_list_contents(*list).len(),
    ensures
        unit == unit_list_contents(*list)[i as int],
{
    list.units[i]
}

/// Calls `SmallVec::push`: the unit is appended.
#[verifier::external_body]
fn unit_list_push(list: &mut UnitList, unit: u64)
    ensures
        unit_list_contents(*final(list)) == unit_list_contents(*old(list)).push(unit),
{
    list.units.push(unit);
}

/// Calls `SmallVec::remove`: the unit at `i` is taken out, the later ones
/// move up.
#[verifier::external_body]
fn unit_list_remove(list: &mut UnitList, i: usize)
    requires
        i < unit_list_contents(*old(list)).len(),
    ensures
        unit_list_contents(*final(list)) == unit_list_contents(*old(list)).remove(i as int),
{
    list.units.remove(i);
}

/// Calls `SmallVec::clear`: the list is empty.
#[verifier::external_body]
fn unit_list_clear(list: &mut UnitList)
    ensures
        unit_list_contents(*final(list)).len() == 0,
{
    list.units.clear();
}

/// Calls `SmallVec::as_slice`.
#[verifier::external_body]
fn unit_list_as_slice(list: &UnitList) -> (units: &[u64])
    ensures
        units@ == unit_list_contents(*list),
{
    list.units.as_slice()
}

// ---------------------------------------------------------------------------
// Ranking units.

/// How the units on the map rank for the current selection.
pub struct StackRanking {
    /// For each unit, its combat score as a key: the higher the key, the
    /// stronger the unit. The first entry for a unit counts.
    pub scores: Vec<(u64, u64)>,
    /// The selected units, in selection order.
    pub selected: Vec<u64>,
}

/// The score key of `unit`: that of its first entry.
pub open spec fn score_lookup(scores: Seq<(u64, u64)>, unit: u64) -> Option<u64>
    decreases scores.len(),
{
    if scores.len() == 0 {
        None
    } else if scores[0].0 == unit {
        Some(scores[0].1)
    } else {
        score_lookup(scores.drop_first(), unit)
    }
}

impl StackRanking {
    pub open spec fn has_score(&self, unit: u64) -> bool {
        score_lookup(self.scores@, unit) is Some
    }

    pub open spec fn score(&self, unit: u64) -> u64 {
        score_lookup(self.scores@, unit)->0
    }

    /// `a` stands above `b` in a stack: it has the higher score, or the same
    /// score and the higher ID.
    pub open spec fn ranks_above(&self, a: u64, b: u64) -> bool {
        self.score(a) > self.score(b) || (self.score(a) == self.score(b) && a > b)
    }

    /// `units` are in stack order: the strongest first.
    pub open spec fn in_stack_order(&self, units: Seq<u64>) -> bool {
        forall|i: int, j: int| 0 <= i < j < units.len() ==> self.ranks_above(#[trigger] units[i], #[trigger] units[j])
    }

    /// The unit shown on top of a stack of `units`: the first selected one,
    /// or else the first.
    pub open spec fn top_of(&self, units: Seq<u64>) -> Option<u64> {
        if exists|i: int| 0 <= i < units.len() && self.selected@.contains(units[i]) {
            let i = choose|i: int| 0 <= i < units.len() && self.selected@.contains(units[i]) && forall|j: int| 0 <= j < i ==> !self.selected@.contains(#[trigger] units[j]);
            Some(units[i])
        } else if units.len() > 0 {
            Some(units[0])
        } else {
            None
        }
    }

    /// Looks up the score key of `unit`.
    fn score_of(&self, unit: u64) -> (key: u64)
        requires
            self.has_score(unit),
        ensures
            key == self.score(unit),
    {
        let mut i: usize = 0;
        assert(self.scores@.skip(0) == self.scores@);
        while i < self.scores.len()
            invariant
                0 <= i <= self.scores@.len(),
                score_lookup(self.scores@.skip(i as int), unit) == score_lookup(self.scores@, unit),
                score_lookup(self.scores@, unit) is Some,
            decreases self.scores@.len() - i,
        {
            let (u, key) = self.scores[i];
            assert(self.scores@.skip(i as int)[0] == self.scores@[i as int]);
            if u == unit {
                return key;
            }
            assert(self.scores@.skip(i as int).drop_first() == self.scores@.skip(i + 1));
            i = i + 1;
        }
        assert(self.scores@.skip(i as int).len() == 0);
        0
    }

    /// Whether `unit` is selected.
    fn is_selected(&self, unit: u64) -> (selected: bool)
        ensures
            selected == self.selected@.contains(unit),
    {
        let mut i: usize = 0;
        while i < self.selected.len()
            invariant
                0 <= i <= self.selected@.len(),
                forall|j: int| 0 <= j < i ==> self.selected@[j] != unit,
            decreases self.selected@.len() - i,
        {
            if self.selected[i] == unit {
                return true;
            }
            i = i + 1;
        }
        false
    }
}


/// The units of a sequence of (unit, score key) pairs.
pub open spec fn pair_units(pairs: Seq<(u64, u64)>) -> Seq<u64> {
    pairs.map_values(|p: (u64, u64)| p.0)
}

/// A sequence in stack order has no unit twice.
pub proof fn lemma_stack_order_distinct(ranking: StackRanking, units: Seq<u64>)
    requires
        ranking.in_stack_order(units),
    ensures
        units.no_duplicates(),
{
    assert forall|i: int, j: int| 0 <= i < units.len() && 0 <= j < units.len() && i != j implies units[i] != units[j] by {
        if i < j {
            assert(ranking.ranks_above(units[i], units[j]));
        } else {
            assert(ranking.ranks_above(units[j], units[i]));
        }
    }
}

// ---------------------------------------------------------------------------
// Stacks.

/// A stack of units all on the same tile.
///
/// Unlike the server code, _all_ units on a tile belong to the
/// same stack, regardless of their owner.
/// There is exactly one unit stack per tile.
///
/// Units are sorted in the stack by _descending combat strength_:
/// the top unit (the first one) is always the strongest. Note that
/// combat strength is dependent on the attacking unit, which
/// is the currently selected unit, so stacks are resorted whenever
/// the selection is updated.
///
/// Additionally, if a unit in this stack is _selected_ by the user, then it is always at the top.
pub struct UnitStack {
    units: UnitList,
    top_unit: Option<u64>,
}

impl UnitStack {
    pub closed spec fn units_seq(&self) -> Seq<u64> {
        unit_list_contents(self.units)
    }

    pub closed spec fn spec_top(&self) -> Option<u64> {
        self.top_unit
    }

    /// No unit stands in the stack twice.
    pub open spec fn wf(&self) -> bool {
        self.units_seq().no_duplicates()
    }

    /// An empty stack.
    pub fn new() -> (stack: Self)
        ensures
            stack.units_seq().len() == 0,
            stack.spec_top() is None,
    {
        UnitStack { units: unit_list_new(), top_unit: None }
    }

    /// Gets the units in the stack, where unit 0 is
    /// the strongest.
    pub fn units(&self) -> (units: &[u64])
        ensures
            units@ == self.units_seq(),
    {
        unit_list_as_slice(&self.units)
    }

    pub fn top_unit(&self) -> (top: Option<u64>)
        ensures
            top == self.spec_top(),
    {
        self.top_unit
    }

    /// The index of `unit` in the stack, if it stands there.
    fn position(&self, unit: u64) -> (index: Option<usize>)
        ensures
            match index {
                Some(i) => i < self.units_seq().len() && self.units_seq()[i as int] == unit
                    && forall|j: int| 0 <= j < i ==> self.units_seq()[j] != unit,
                None => !self.units_seq().contains(unit),
            },
    {
        let n = unit_list_len(&self.units);
        let mut i: usize = 0;
        while i < n
            invariant
                n == self.units_seq().len(),
                0 <= i <= n,
                forall|j: int| 0 <= j < i ==> self.units_seq()[j] != unit,
            decreases n - i,
        {
            if unit_list_get(&self.units, i) == unit {
                return Some(i);
            }
            i = i + 1;
        }
        None
    }

    /// Adds a unit to the stack, then resorts; does nothing if the unit
    /// already stands there.
    pub(crate) fn add_unit(&mut self, ranking: &StackRanking, unit: u64)
        requires
            old(self).wf(),
            ranking.has_score(unit),
            forall|u: u64| old(self).units_seq().contains(u) ==> ranking.has_score(u),
        ensures
            unit_added(*ranking, *old(self), *final(self), unit),
    {
        broadcast use vstd::seq_lib::group_to_multiset_ensures;

        if self.position(unit).is_none() {
            unit_list_push(&mut self.units, unit);
            proof {
                assert(self.units_seq().no_duplicates()) by {
                    let s = self.units_seq();
                    let o = old(self).units_seq();
                    assert(s == o.push(unit));
                    assert forall|i: int, j: int| 0 <= i < s.len() && 0 <= j < s.len() && i != j implies s[i] != s[j] by {
                        if i < o.len() && j < o.len() {
                            assert(s[i] == o[i] && s[j] == o[j]);
                        } else if i < o.len() {
                            assert(o.contains(s[i]));
                        } else {
                            assert(o.contains(s[j]));
                        }
                    }
                }
                assert forall|u: u64| self.units_seq().contains(u) implies ranking.has_score(u) by {
                    if u != unit {
                        let i = choose|i: int| 0 <= i < self.units_seq().len() && self.units_seq()[i] == u;
                        assert(old(self).units_seq()[i] == u);
                    }
                }
            }
            let ghost pushed = self.units_seq();
            self.resort(ranking);
            proof {
                assert forall|u: u64| #[trigger] self.units_seq().contains(u) <==> (old(self).units_seq().contains(u) || u == unit) by {
                    vstd::seq_lib::to_multiset_contains(self.units_seq(), u);
                    vstd::seq_lib::to_multiset_contains(pushed, u);
                    if pushed.contains(u) && u != unit {
                        let i = choose|i: int| 0 <= i < pushed.len() && pushed[i] == u;
                        assert(old(self).units_seq()[i] == u);
                    }
                    if old(self).units_seq().contains(u) {
                        let i = choose|i: int| 0 <= i < old(self).units_seq().len() && old(self).units_seq()[i] == u;
                        assert(pushed[i] == u);
                    }
                    assert(pushed[pushed.len() - 1] == unit);
                }
            }
        }
    }

    /// Removes a unit from the stack, keeping the others in order. The top
    /// unit is left as it was.
    pub(crate) fn remove_unit(&mut self, unit: u64)
        requires
            old(self).wf(),
        ensures
            final(self).wf(),
            final(self).spec_top() == old(self).spec_top(),
            !old(self).units_seq().contains(unit) ==> final(self).units_seq() == old(self).units_seq(),
            old(self).units_seq().contains(unit) ==> exists|i: int|
                0 <= i < old(self).units_seq().len() && old(self).units_seq()[i] == unit
                    && final(self).units_seq() == old(self).units_seq().remove(i),
            final(self).units_seq().to_set() == old(self).units_seq().to_set().remove(unit),
    {
        let ghost o = self.units_seq();
        if let Some(index) = self.position(unit) {
            unit_list_remove(&mut self.units, index);
            proof {
                let s = self.units_seq();
                assert(s == o.remove(index as int));
                assert forall|i: int, j: int| 0 <= i < s.len() && 0 <= j < s.len() && i != j implies s[i] != s[j] by {
                    let a = if i < index { i } else { i + 1 };
                    let b = if j < index { j } else { j + 1 };
                    assert(s[i] == o[a] && s[j] == o[b]);
                }
                assert forall|u: u64| s.to_set().contains(u) <==> o.to_set().remove(unit).contains(u) by {
                    if s.contains(u) {
                        let i = choose|i: int| 0 <= i < s.len() && s[i] == u;
                        let a = if i < index { i } else { i + 1 };
                        assert(o[a] == u);
                        assert(a != index);
                    }
                    if o.contains(u) && u != unit {
                        let a = choose|a: int| 0 <= a < o.len() && o[a] == u;
                        assert(a != index);
                        if a < index {
                            assert(s[a] == u);
                        } else {
                            assert(s[a - 1] == u);
                        }
                    }
                }
                assert(s.to_set() =~= o.to_set().remove(unit));
            }
        } else {
            proof {
                assert(o.to_set() =~= o.to_set().remove(unit));
            }
        }
    }

    /// Resorts the stack: strongest first, and on top the first selected
    /// unit, or else the strongest.
    ///
    /// Should be called whenever a unit is added to the stack,
    /// or whenever our selected unit is changed.
    pub fn resort(&mut self, ranking: &StackRanking)
        requires
            old(self).wf(),
            forall|u: u64| old(self).units_seq().contains(u) ==> ranking.has_score(u),
        ensures
            final(self).wf(),
            final(self).units_seq().to_multiset() == old(self).units_seq().to_multiset(),
            ranking.in_stack_order(final(self).units_seq()),
            final(self).spec_top() == ranking.top_of(final(self).units_seq()),
    {
        broadcast use vstd::seq_lib::group_to_multiset_ensures;

        let n = unit_list_len(&self.units);
        let ghost o = self.units_seq();
        let mut sorted: Vec<(u64, u64)> = Vec::new();
        let mut i: usize = 0;
        assert(pair_units(sorted@) =~= o.take(0));
        while i < n
            invariant
                n == o.len(),
                o == self.units_seq(),
                o.no_duplicates(),
                forall|u: u64| o.contains(u) ==> ranking.has_score(u),
                0 <= i <= n,
                forall|k: int| 0 <= k < sorted@.len() ==> (#[trigger] sorted@[k]).1 == ranking.score(sorted@[k].0),
                ranking.in_stack_order(pair_units(sorted@)),
                pair_units(sorted@).to_multiset() == o.take(i as int).to_multiset(),
            decreases n - i,
        {
            let unit = unit_list_get(&self.units, i);
            assert(o.contains(unit));
            let key = ranking.score_of(unit);
            proof {
                // `unit` is not yet among the sorted units.
                assert(!o.take(i as int).contains(unit)) by {
                    if o.take(i as int).contains(unit) {
                        let j = choose|j: int| 0 <= j < i && o.take(i as int)[j] == unit;
                        assert(o[j] == o[i as int]);
                    }
                }
                vstd::seq_lib::to_multiset_contains(o.take(i as int), unit);
                vstd::seq_lib::to_multiset_contains(pair_units(sorted@), unit);
                assert(o.take(i as int).to_multiset().count(unit) == 0);
                assert(pair_units(sorted@).to_multiset().count(unit) == 0);
                assert(!pair_units(sorted@).contains(unit));
            }
            let mut p: usize = 0;
            while p < sorted.len() && !(key > sorted[p].1 || (key == sorted[p].1 && unit > sorted[p].0))
                invariant
                    0 <= p <= sorted@.len(),
                    key == ranking.score(unit),
                    forall|k: int| 0 <= k < sorted@.len() ==> (#[trigger] sorted@[k]).1 == ranking.score(sorted@[k].0),
                    !pair_units(sorted@).contains(unit),
                    forall|q: int| 0 <= q < p ==> ranking.ranks_above(#[trigger] sorted@[q].0, unit),
                decreases sorted@.len() - p,
            {
                proof {
                    assert(pair_units(sorted@)[p as int] == sorted@[p as int].0);
                    assert(sorted@[p as int].0 != unit);
                }
                p = p + 1;
            }
            let ghost before = sorted@;
            sorted.insert(p, (unit, key));
            proof {
                let after = sorted@;
                assert(after == before.insert(p as int, (unit, key)));
                assert(pair_units(after) =~= pair_units(before).insert(p as int, unit));
                assert(o.take(i + 1) =~= o.take(i as int).push(unit));
                vstd::seq_lib::to_multiset_insert(pair_units(before), p as int, unit);
                vstd::seq_lib::to_multiset_build(o.take(i as int), unit);
                assert forall|k: int| 0 <= k < after.len() implies (#[trigger] after[k]).1 == ranking.score(after[k].0) by {
                    if k < p {
                        assert(after[k] == before[k]);
                    } else if k > p {
                        assert(after[k] == before[k - 1]);
                    }
                }
                let pu = pair_units(after);
                assert forall|a: int, b: int| 0 <= a < b < pu.len() implies ranking.ranks_above(#[trigger] pu[a], #[trigger] pu[b]) by {
                    let pb = pair_units(before);
                    if b < p {
                        assert(pu[a] == pb[a] && pu[b] == pb[b]);
                    } else if a > p {
                        assert(pu[a] == pb[a - 1] && pu[b] == pb[b - 1]);
                    } else if a < p && b == p {
                        assert(pu[a] == before[a].0);
                    } else if a < p && b > p {
                        assert(pu[a] == pb[a] && pu[b] == pb[b - 1]);
                    } else if a == p {
                        assert(pu[a] == unit);
                        assert(pu[b] == pb[b - 1]);
                        // `unit` ranks above the pair it was put before, which ranks
                        // at or above every later one.
                        assert(p < before.len());
                        assert(pb[p as int] == before[p as int].0);
                        assert(ranking.ranks_above(unit, pb[p as int]));
                        if b - 1 > p {
                            assert(ranking.ranks_above(pb[p as int], pb[b - 1]));
                        }
                    }
                }
            }
            i = i + 1;
        }
        proof {
            assert(o.take(n as int) == o);
        }
        unit_list_clear(&mut self.units);
        let mut k: usize = 0;
        while k < sorted.len()
            invariant
                0 <= k <= sorted@.len(),
                self.units_seq() == pair_units(sorted@).take(k as int),
            decreases sorted@.len() - k,
        {
            unit_list_push(&mut self.units, sorted[k].0);
            proof {
                assert(pair_units(sorted@).take(k + 1) =~= pair_units(sorted@).take(k as int).push(sorted@[k as int].0));
            }
            k = k + 1;
        }
        proof {
            assert(pair_units(sorted@).take(sorted@.len() as int) == pair_units(sorted@));
            lemma_stack_order_distinct(*ranking, self.units_seq());
        }
        self.top_unit = self.pick_top(ranking);
    }

    /// The first selected unit of the stack, or else its first unit.
    fn pick_top(&self, ranking: &StackRanking) -> (top: Option<u64>)
        ensures
            top == ranking.top_of(self.units_seq()),
    {
        let n = unit_list_len(&self.units);
        let mut i: usize = 0;
        while i < n
            invariant
                n == self.units_seq().len(),
                0 <= i <= n,
                forall|j: int| 0 <= j < i ==> !ranking.selected@.contains(#[trigger] self.units_seq()[j]),
            decreases n - i,
        {
            let u = unit_list_get(&self.units, i);
            if ranking.is_selected(u) {
                proof {
                    let s = self.units_seq();
                    let c = choose|c: int| 0 <= c < s.len() && ranking.selected@.contains(s[c]) && forall|j: int| 0 <= j < c ==> !ranking.selected@.contains(#[trigger] s[j]);
                    assert(c == i) by {
                        if c < i {
                            assert(!ranking.selected@.contains(s[c]));
                        } else if c > i {
                            assert(!ranking.selected@.contains(s[i as int]));
                        }
                    }
                }
                return Some(u);
            }
            i = i + 1;
        }
        if n > 0 {
            Some(unit_list_get(&self.units, 0))
        } else {
            None
        }
    }
}


/// `after` is `before` with `unit` added and resorted, or unchanged where
/// `unit` already stood there.
pub open spec fn unit_added(ranking: StackRanking, before: UnitStack, after: UnitStack, unit: u64) -> bool {
    &&& after.wf()
    &&& forall|u: u64| #[trigger] after.units_seq().contains(u) <==> (before.units_seq().contains(u) || u == unit)
    &&& before.units_seq().contains(unit) ==> after == before
    &&& !before.units_seq().contains(unit) ==> {
        &&& after.units_seq().to_multiset() == before.units_seq().push(unit).to_multiset()
        &&& ranking.in_stack_order(after.units_seq())
        &&& after.spec_top() == ranking.top_of(after.units_seq())
    }
}

/// `after` is `before` without `unit`, the others in their order and the top
/// unit as it was.
pub open spec fn unit_removed(before: UnitStack, after: UnitStack, unit: u64) -> bool {
    &&& after.wf()
    &&& after.spec_top() == before.spec_top()
    &&& !before.units_seq().contains(unit) ==> after.units_seq() == before.units_seq()
    &&& before.units_seq().contains(unit) ==> exists|i: int|
        0 <= i < before.units_seq().len() && before.units_seq()[i] == unit
            && after.units_seq() == before.units_seq().remove(i)
    &&& after.units_seq().to_set() == before.units_seq().to_set().remove(unit)
}

/// Maintains a [`UnitStack`] for every tile on the map; the stack of the tile
/// at `(x, y)` is entry `x + y * width`.
pub struct StackGrid {
    width: u32,
    height: u32,
    stacks: Vec<UnitStack>,
}

impl StackGrid {
    pub closed spec fn spec_width(&self) -> u32 {
        self.width
    }

    pub closed spec fn spec_height(&self) -> u32 {
        self.height
    }

    pub closed spec fn stacks_seq(&self) -> Seq<UnitStack> {
        self.stacks@
    }

    pub open spec fn area(&self) -> int {
        self.spec_width() * self.spec_height()
    }

    pub open spec fn in_bounds(&self, pos: Pos) -> bool {
        pos.x < self.spec_width() && pos.y < self.spec_height()
    }

    pub open spec fn index_of(&self, pos: Pos) -> int {
        pos.x + pos.y * self.spec_width()
    }

    /// The stack of the tile at `pos`.
    pub open spec fn stack_at(&self, pos: Pos) -> UnitStack {
        self.stacks_seq()[self.index_of(pos)]
    }

    /// One stack per tile, each with no unit twice.
    pub open spec fn wf(&self) -> bool {
        &&& self.stacks_seq().len() == self.area()
        &&& self.area() <= u32::MAX
        &&& forall|i: int| 0 <= i < self.stacks_seq().len() ==> (#[trigger] self.stacks_seq()[i]).wf()
    }

    /// Every unit in any stack has a score.
    pub open spec fn scored_by(&self, ranking: StackRanking) -> bool {
        forall|i: int, u: u64|
            0 <= i < self.stacks_seq().len() && #[trigger] self.stacks_seq()[i].units_seq().contains(u) ==> ranking.has_score(u)
    }

    /// The stacks agree with where the units stand: a tile's stack holds
    /// exactly the units standing on that tile.
    pub open spec fn agrees_with(&self, positions: Map<u64, Pos>) -> bool {
        forall|p: Pos, u: u64|
            self.in_bounds(p) ==> (#[trigger] self.stack_at(p).units_seq().contains(u) <==> (positions.contains_key(u) && positions[u] == p))
    }

    /// Creates a grid of `width` by `height` empty stacks.
    pub fn new(width: u32, height: u32) -> (grid: Self)
        requires
            width * height <= u32::MAX,
        ensures
            grid.wf(),
            grid.spec_width() == width,
            grid.spec_height() == height,
            forall|i: int| 0 <= i < grid.stacks_seq().len() ==> (#[trigger] grid.stacks_seq()[i]).units_seq().len() == 0
                && grid.stacks_seq()[i].spec_top() is None,
    {
        let n = (width * height) as usize;
        let mut stacks: Vec<UnitStack> = Vec::new();
        let mut i: usize = 0;
        while i < n
            invariant
                0 <= i <= n,
                stacks@.len() == i,
                forall|j: int| 0 <= j < i ==> (#[trigger] stacks@[j]).units_seq().len() == 0 && stacks@[j].spec_top() is None,
            decreases n - i,
        {
            stacks.push(UnitStack::new());
            i = i + 1;
        }
        StackGrid { width, height, stacks }
    }

    fn index(&self, pos: Pos) -> (index: Result<usize, OutOfBounds>)
        requires
            self.wf(),
        ensures
            match index {
                Ok(i) => self.in_bounds(pos) && i == self.index_of(pos) && i < self.area(),
                Err(e) => !self.in_bounds(pos) && e == (OutOfBounds { x: pos.x, y: pos.y }),
            },
    {
        if pos.x >= self.width || pos.y >= self.height {
            Err(OutOfBounds { x: pos.x, y: pos.y })
        } else {
            proof {
                lemma_index_in_area(pos.x as int, pos.y as int, self.width as int, self.height as int);
            }
            Ok((pos.x + pos.y * self.width) as usize)
        }
    }

    /// Gets the stack at `pos`.
    pub fn get(&self, pos: Pos) -> (stack: Result<&UnitStack, OutOfBounds>)
        requires
            self.wf(),
        ensures
            match stack {
                Ok(s) => self.in_bounds(pos) && *s == self.stack_at(pos),
                Err(e) => !self.in_bounds(pos) && e == (OutOfBounds { x: pos.x, y: pos.y }),
            },
    {
        let index = self.index(pos)?;
        Ok(&self.stacks[index])
    }

    /// Puts a new unit, standing at `pos`, into that tile's stack.
    pub fn on_unit_added(&mut self, ranking: &StackRanking, unit: u64, pos: Pos)
        requires
            old(self).wf(),
            old(self).scored_by(*ranking),
            ranking.has_score(unit),
        ensures
            final(self).wf(),
            final(self).spec_width() == old(self).spec_width(),
            final(self).spec_height() == old(self).spec_height(),
            final(self).scored_by(*ranking),
            forall|i: int| 0 <= i < old(self).area() && (!old(self).in_bounds(pos) || i != old(self).index_of(pos))
                ==> #[trigger] final(self).stacks_seq()[i] == old(self).stacks_seq()[i],
            old(self).in_bounds(pos) ==> unit_added(*ranking, old(self).stack_at(pos), final(self).stack_at(pos), unit),
    {
        if let Ok(i) = self.index(pos) {
            proof {
                assert forall|u: u64| self.stacks@[i as int].units_seq().contains(u) implies ranking.has_score(u) by {
                    assert(self.stacks_seq()[i as int].units_seq().contains(u));
                }
            }
            let ghost prior_grid = *self;
            self.stacks[i].add_unit(ranking, unit);
            proof {
                lemma_scored_after_change(prior_grid, *self, *ranking, i as int, unit);
            }
        }
    }

    /// Moves units from the stack at `old_pos` into the stack at `new_pos`.
    pub fn on_units_moved(&mut self, ranking: &StackRanking, units: &Vec<u64>, old_pos: Pos, new_pos: Pos)
        requires
            old(self).wf(),
            old(self).scored_by(*ranking),
            forall|u: u64| units@.contains(u) ==> ranking.has_score(u),
        ensures
            final(self).wf(),
            final(self).scored_by(*ranking),
            units_moved(*old(self), *final(self), *ranking, units@, old_pos, new_pos),
    {
        let ghost before = *self;
        if let Ok(i) = self.index(old_pos) {
            proof {
                let b = before.stacks_seq()[i as int].units_seq();
                assert forall|j: int| 0 <= j < b.len() implies (|u: u64| !units@.take(0).contains(u))(#[trigger] b[j]) by {}
                lemma_filter_all_pass(b, |u: u64| !units@.take(0).contains(u));
            }
            let mut k: usize = 0;
            while k < units.len()
                invariant
                    0 <= k <= units@.len(),
                    i == before.index_of(old_pos),
                    i < before.area(),
                    before.wf(),
                    before.in_bounds(old_pos),
                    self.wf(),
                    self.spec_width() == before.spec_width(),
                    self.spec_height() == before.spec_height(),
                    forall|j: int| 0 <= j < before.area() && j != i ==> #[trigger] self.stacks_seq()[j] == before.stacks_seq()[j],
                    self.stacks_seq()[i as int].units_seq().to_set() == before.stacks_seq()[i as int].units_seq().to_set().difference(units@.take(k as int).to_set()),
                    self.stacks_seq()[i as int].spec_top() == before.stacks_seq()[i as int].spec_top(),
                    self.stacks_seq()[i as int].units_seq() == before.stacks_seq()[i as int].units_seq().filter(|u: u64| !units@.take(k as int).contains(u)),
                decreases units@.len() - k,
            {
                let unit = units[k];
                let ghost prior = self.stacks_seq()[i as int];
                assert(self.stacks@[i as int].wf());
                self.stacks[i].remove_unit(unit);
                proof {
                    assert(units@.take(k + 1) == units@.take(k as int) + seq![unit]);
                    Seq::<u64>::lemma_to_set_insert_commutes(units@.take(k as int), unit);
                    assert(self.stacks_seq()[i as int].units_seq().to_set() =~= before.stacks_seq()[i as int].units_seq().to_set().difference(units@.take(k + 1).to_set()));
                    let b = before.stacks_seq()[i as int].units_seq();
                    let pk = |u: u64| !units@.take(k as int).contains(u);
                    let ne = |u: u64| u != unit;
                    lemma_removed_is_filter(prior, self.stacks_seq()[i as int], unit);
                    lemma_filter_twice(b, pk, ne);
                    assert((|u: u64| pk(u) && ne(u)) =~= (|u: u64| !units@.take(k + 1).contains(u))) by {
                        assert forall|u: u64| #![auto] units@.take(k + 1).contains(u) <==> (units@.take(k as int).contains(u) || u == unit) by {
                            if units@.take(k + 1).contains(u) {
                                let a = choose|a: int| 0 <= a < k + 1 && #[trigger] units@.take(k + 1)[a] == u;
                                if a < k {
                                    assert(units@.take(k as int)[a] == u);
                                }
                            }
                            if units@.take(k as int).contains(u) {
                                let a = choose|a: int| 0 <= a < k && #[trigger] units@.take(k as int)[a] == u;
                                assert(units@.take(k + 1)[a] == u);
                            }
                            if u == unit {
                                assert(units@.take(k + 1)[k as int] == u);
                            }
                        }
                    }
                }
                k = k + 1;
            }
            proof {
                assert(units@.take(units@.len() as int) == units@);
            }
        }
        let ghost mid = *self;
        proof {
            assert forall|j: int, u: u64| 0 <= j < mid.stacks_seq().len() && #[trigger] mid.stacks_seq()[j].units_seq().contains(u) implies ranking.has_score(u) by {
                if before.in_bounds(old_pos) && j == before.index_of(old_pos) {
                    assert(mid.stacks_seq()[j].units_seq().to_set().contains(u));
                    assert(before.stacks_seq()[j].units_seq().to_set().contains(u));
                } else {
                    assert(before.stacks_seq()[j] == mid.stacks_seq()[j]);
                }
            }
        }
        if let Ok(i) = self.index(new_pos) {
            let mut k: usize = 0;
            let ghost mut added_any = false;
            while k < units.len()
                invariant
                    0 <= k <= units@.len(),
                    i == mid.index_of(new_pos),
                    i < mid.area(),
                    mid.in_bounds(new_pos),
                    mid.wf(),
                    self.wf(),
                    self.scored_by(*ranking),
                    forall|u: u64| units@.contains(u) ==> ranking.has_score(u),
                    self.spec_width() == mid.spec_width(),
                    self.spec_height() == mid.spec_height(),
                    forall|j: int| 0 <= j < mid.area() && j != i ==> #[trigger] self.stacks_seq()[j] == mid.stacks_seq()[j],
                    self.stacks_seq()[i as int].units_seq().to_set() == mid.stacks_seq()[i as int].units_seq().to_set().union(units@.take(k as int).to_set()),
                    added_any ==> ranking.in_stack_order(self.stacks_seq()[i as int].units_seq())
                        && self.stacks_seq()[i as int].spec_top() == ranking.top_of(self.stacks_seq()[i as int].units_seq()),
                    !added_any ==> self.stacks_seq()[i as int] == mid.stacks_seq()[i as int],
                    added_any <==> exists|j: int| 0 <= j < k && !mid.stacks_seq()[i as int].units_seq().contains(#[trigger] units@[j]),
                decreases units@.len() - k,
            {
                let unit = units[k];
                assert(units@.contains(unit));
                let ghost prior = self.stacks_seq()[i as int];
                let ghost prior_grid = *self;
                proof {
                    assert forall|u: u64| self.stacks@[i as int].units_seq().contains(u) implies ranking.has_score(u) by {
                        assert(self.stacks_seq()[i as int].units_seq().contains(u));
                    }
                }
                self.stacks[i].add_unit(ranking, unit);
                proof {
                    let now = self.stacks_seq()[i as int];
                    broadcast use vstd::seq_lib::group_to_multiset_ensures;
                    assert(units@.take(k + 1) == units@.take(k as int) + seq![unit]);
                    Seq::<u64>::lemma_to_set_insert_commutes(units@.take(k as int), unit);
                    if !prior.units_seq().contains(unit) {
                        assert forall|u: u64| now.units_seq().contains(u) <==> prior.units_seq().push(unit).contains(u) by {
                            vstd::seq_lib::to_multiset_contains(now.units_seq(), u);
                            vstd::seq_lib::to_multiset_contains(prior.units_seq().push(unit), u);
                        }
                        assert forall|u: u64| now.units_seq().to_set().contains(u) <==> prior.units_seq().to_set().insert(unit).contains(u) by {
                            if prior.units_seq().contains(u) {
                                let a = choose|a: int| 0 <= a < prior.units_seq().len() && prior.units_seq()[a] == u;
                                assert(prior.units_seq().push(unit)[a] == u);
                            }
                            if prior.units_seq().push(unit).contains(u) && u != unit {
                                let a = choose|a: int| 0 <= a < prior.units_seq().push(unit).len() && prior.units_seq().push(unit)[a] == u;
                                assert(prior.units_seq()[a] == u);
                            }
                            assert(prior.units_seq().push(unit)[prior.units_seq().len() as int] == unit);
                        }
                        assert(now.units_seq().to_set() =~= prior.units_seq().to_set().insert(unit));
                        added_any = true;
                        assert(unit == units@[k as int]);
                        assert(!mid.stacks_seq()[i as int].units_seq().contains(unit)) by {
                            if mid.stacks_seq()[i as int].units_seq().contains(unit) {
                                assert(mid.stacks_seq()[i as int].units_seq().to_set().contains(unit));
                                assert(prior.units_seq().to_set().contains(unit));
                                assert(prior.units_seq().contains(unit));
                            }
                        }
                    } else {
                        assert(prior.units_seq().to_set().contains(unit));
                        assert(now.units_seq().to_set() =~= prior.units_seq().to_set().insert(unit));
                        assert(mid.stacks_seq()[i as int].units_seq().contains(unit) || units@.take(k as int).contains(unit)) by {
                            assert(prior.units_seq().to_set().contains(unit));
                        }
                        if !mid.stacks_seq()[i as int].units_seq().contains(unit) {
                            let j = choose|j: int| 0 <= j < k && units@.take(k as int)[j] == unit;
                            assert(units@[j] == unit);
                        }
                    }
                    assert(self.stacks_seq()[i as int].units_seq().to_set() =~= mid.stacks_seq()[i as int].units_seq().to_set().union(units@.take(k + 1).to_set()));
                    lemma_scored_after_change(prior_grid, *self, *ranking, i as int, unit);
                }
                k = k + 1;
            }
            proof {
                assert(units@.take(units@.len() as int) == units@);
            }
        }
    }

    /// Takes a unit, standing at `pos`, out of that tile's stack.
    pub fn on_unit_deleted(&mut self, unit: u64, pos: Pos)
        requires
            old(self).wf(),
        ensures
            final(self).wf(),
            final(self).spec_width() == old(self).spec_width(),
            final(self).spec_height() == old(self).spec_height(),
            forall|i: int| 0 <= i < old(self).area() && (!old(self).in_bounds(pos) || i != old(self).index_of(pos))
                ==> #[trigger] final(self).stacks_seq()[i] == old(self).stacks_seq()[i],
            old(self).in_bounds(pos) ==> unit_removed(old(self).stack_at(pos), final(self).stack_at(pos), unit),
    {
        if let Ok(i) = self.index(pos) {
            assert(self.stacks@[i as int].wf());
            self.stacks[i].remove_unit(unit);
        }
    }

    /// Resorts every stack.
    pub fn resort(&mut self, ranking: &StackRanking)
        requires
            old(self).wf(),
            old(self).scored_by(*ranking),
        ensures
            final(self).wf(),
            final(self).spec_width() == old(self).spec_width(),
            final(self).spec_height() == old(self).spec_height(),
            forall|i: int| 0 <= i < old(self).area() ==> {
                &&& (#[trigger] final(self).stacks_seq()[i]).units_seq().to_multiset() == old(self).stacks_seq()[i].units_seq().to_multiset()
                &&& ranking.in_stack_order(final(self).stacks_seq()[i].units_seq())
                &&& final(self).stacks_seq()[i].spec_top() == ranking.top_of(final(self).stacks_seq()[i].units_seq())
            },
    {
        let ghost before = *self;
        let mut i: usize = 0;
        while i < self.stacks.len()
            invariant
                0 <= i <= self.stacks_seq().len(),
                before.wf(),
                before.scored_by(*ranking),
                self.spec_width() == before.spec_width(),
                self.spec_height() == before.spec_height(),
                self.stacks_seq().len() == before.stacks_seq().len(),
                forall|j: int| 0 <= j < self.stacks_seq().len() ==> (#[trigger] self.stacks_seq()[j]).wf(),
                forall|j: int| i <= j < self.stacks_seq().len() ==> #[trigger] self.stacks_seq()[j] == before.stacks_seq()[j],
                forall|j: int| 0 <= j < i ==> {
                    &&& (#[trigger] self.stacks_seq()[j]).units_seq().to_multiset() == before.stacks_seq()[j].units_seq().to_multiset()
                    &&& ranking.in_stack_order(self.stacks_seq()[j].units_seq())
                    &&& self.stacks_seq()[j].spec_top() == ranking.top_of(self.stacks_seq()[j].units_seq())
                },
            decreases self.stacks_seq().len() - i,
        {
            proof {
                assert(self.stacks_seq()[i as int] == before.stacks_seq()[i as int]);
                assert forall|u: u64| self.stacks@[i as int].units_seq().contains(u) implies ranking.has_score(u) by {
                    assert(before.stacks_seq()[i as int].units_seq().contains(u));
                }
            }
            self.stacks[i].resort(ranking);
            i = i + 1;
        }
    }
}

/// A selected unit is on top: when any unit of a stack is selected, the
/// unit that a resort puts on top is a selected unit of that stack, the
/// first selected one in stack order; otherwise it is the strongest.
pub proof fn lemma_selected_unit_on_top(ranking: StackRanking, units: Seq<u64>)
    ensures
        (exists|i: int| 0 <= i < units.len() && ranking.selected@.contains(#[trigger] units[i])) ==> {
            &&& ranking.top_of(units) matches Some(top)
            &&& units.contains(top)
            &&& ranking.selected@.contains(top)
        },
        !(exists|i: int| 0 <= i < units.len() && ranking.selected@.contains(#[trigger] units[i])) && units.len() > 0
            ==> ranking.top_of(units) == Some(units[0]),
{
    if exists|i: int| 0 <= i < units.len() && ranking.selected@.contains(#[trigger] units[i]) {
        let i = choose|i: int| 0 <= i < units.len() && ranking.selected@.contains(#[trigger] units[i]);
        lemma_first_selected(ranking, units, i);
    }
}

/// Where some unit is selected, there is a first selected one.
proof fn lemma_first_selected(ranking: StackRanking, units: Seq<u64>, i: int)
    requires
        0 <= i < units.len(),
        ranking.selected@.contains(units[i]),
    ensures
        exists|k: int| 0 <= k < units.len() && ranking.selected@.contains(units[k]) && forall|j: int| 0 <= j < k ==> !ranking.selected@.contains(#[trigger] units[j]),
    decreases i,
{
    if exists|j: int| 0 <= j < i && ranking.selected@.contains(#[trigger] units[j]) {
        let j = choose|j: int| 0 <= j < i && ranking.selected@.contains(#[trigger] units[j]);
        lemma_first_selected(ranking, units, j);
    } else {
        assert(forall|j: int| 0 <= j < i ==> !ranking.selected@.contains(#[trigger] units[j]));
    }
}

/// Resorting keeps the stacks in agreement with where the units stand.
pub proof fn lemma_resorted_grid_agrees(before: StackGrid, after: StackGrid, positions: Map<u64, Pos>)
    requires
        before.wf(),
        before.agrees_with(positions),
        after.spec_width() == before.spec_width(),
        after.spec_height() == before.spec_height(),
        forall|i: int| 0 <= i < before.area() ==> (#[trigger] after.stacks_seq()[i]).units_seq().to_multiset() == before.stacks_seq()[i].units_seq().to_multiset(),
    ensures
        after.agrees_with(positions),
{
    assert forall|p: Pos, u: u64| after.in_bounds(p) implies (#[trigger] after.stack_at(p).units_seq().contains(u) <==> (positions.contains_key(u) && positions[u] == p)) by {
        lemma_index_in_area(p.x as int, p.y as int, before.spec_width() as int, before.spec_height() as int);
        let i = before.index_of(p);
        let a = after.stacks_seq()[i].units_seq();
        let b = before.stacks_seq()[i].units_seq();
        assert(a.to_multiset() == b.to_multiset());
        vstd::seq_lib::to_multiset_contains(a, u);
        vstd::seq_lib::to_multiset_contains(b, u);
        assert(before.stack_at(p).units_seq().contains(u) <==> (positions.contains_key(u) && positions[u] == p));
    }
}

/// The positions of units after `units` moved to `new_pos`.
pub open spec fn moved_positions(positions: Map<u64, Pos>, units: Seq<u64>, new_pos: Pos) -> Map<u64, Pos> {
    Map::new(
        |u: u64| positions.contains_key(u) || units.contains(u),
        |u: u64| if units.contains(u) { new_pos } else { positions[u] },
    )
}

/// Moving units keeps the stacks in agreement with where the units stand:
/// after `on_units_moved`, each tile's stack holds exactly the units standing
/// on it, the moved units now at their new tile.
pub proof fn lemma_moved_units_agree(
    before: StackGrid,
    after: StackGrid,
    ranking: StackRanking,
    units: Seq<u64>,
    old_pos: Pos,
    new_pos: Pos,
    positions: Map<u64, Pos>,
)
    requires
        before.wf(),
        before.agrees_with(positions),
        units_moved(before, after, ranking, units, old_pos, new_pos),
        forall|u: u64| units.contains(u) ==> positions.contains_key(u) && positions[u] == old_pos,
    ensures
        after.agrees_with(moved_positions(positions, units, new_pos)),
{
    let moved = moved_positions(positions, units, new_pos);
    assert forall|p: Pos, u: u64| after.in_bounds(p) implies (#[trigger] after.stack_at(p).units_seq().contains(u) <==> (moved.contains_key(u) && moved[u] == p)) by {
        let i = before.index_of(p);
        lemma_index_in_area(p.x as int, p.y as int, before.spec_width() as int, before.spec_height() as int);
        assert(after.stack_at(p) == after.stacks_seq()[i]);
        let after_set = after.stacks_seq()[i].units_seq().to_set();
        assert(after.stack_at(p).units_seq().contains(u) <==> after_set.contains(u));
        let same_as_new = before.in_bounds(new_pos) && i == before.index_of(new_pos);
        let same_as_old = before.in_bounds(old_pos) && i == before.index_of(old_pos);
        if before.in_bounds(new_pos) && i == before.index_of(new_pos) {
            lemma_index_injective(p.x as int, p.y as int, new_pos.x as int, new_pos.y as int, before.spec_width() as int);
        }
        if before.in_bounds(old_pos) && i == before.index_of(old_pos) {
            lemma_index_injective(p.x as int, p.y as int, old_pos.x as int, old_pos.y as int, before.spec_width() as int);
        }
        assert(before.stack_at(p).units_seq().contains(u) <==> before.stacks_seq()[i].units_seq().to_set().contains(u));
        assert(before.stack_at(p).units_seq().contains(u) <==> (positions.contains_key(u) && positions[u] == p));
        if units.contains(u) {
            assert(units.to_set().contains(u));
        } else {
            assert(!units.to_set().contains(u));
        }
    }
}

/// Adding a unit keeps the stacks in agreement with where the units stand.
pub proof fn lemma_added_unit_agrees(before: StackGrid, after: StackGrid, ranking: StackRanking, unit: u64, pos: Pos, positions: Map<u64, Pos>)
    requires
        before.wf(),
        before.agrees_with(positions),
        !positions.contains_key(unit),
        before.in_bounds(pos),
        after.spec_width() == before.spec_width(),
        after.spec_height() == before.spec_height(),
        forall|i: int| 0 <= i < before.area() && i != before.index_of(pos) ==> #[trigger] after.stacks_seq()[i] == before.stacks_seq()[i],
        unit_added(ranking, before.stack_at(pos), after.stack_at(pos), unit),
    ensures
        after.agrees_with(positions.insert(unit, pos)),
{
    assert forall|p: Pos, u: u64| after.in_bounds(p) implies (#[trigger] after.stack_at(p).units_seq().contains(u) <==> (positions.insert(unit, pos).contains_key(u) && positions.insert(unit, pos)[u] == p)) by {
        lemma_index_in_area(p.x as int, p.y as int, before.spec_width() as int, before.spec_height() as int);
        if before.index_of(p) == before.index_of(pos) {
            lemma_index_injective(p.x as int, p.y as int, pos.x as int, pos.y as int, before.spec_width() as int);
            assert(p == pos);
        } else {
            assert(after.stack_at(p) == before.stack_at(p));
            assert(p != pos);
        }
        assert(before.stack_at(p).units_seq().contains(u) <==> (positions.contains_key(u) && positions[u] == p));
    }
}

/// Deleting a unit keeps the stacks in agreement with where the units stand.
pub proof fn lemma_deleted_unit_agrees(before: StackGrid, after: StackGrid, unit: u64, positions: Map<u64, Pos>)
    requires
        before.wf(),
        before.agrees_with(positions),
        positions.contains_key(unit),
        before.in_bounds(positions[unit]),
        after.spec_width() == before.spec_width(),
        after.spec_height() == before.spec_height(),
        forall|i: int| 0 <= i < before.area() && i != before.index_of(positions[unit]) ==> #[trigger] after.stacks_seq()[i] == before.stacks_seq()[i],
        unit_removed(before.stack_at(positions[unit]), after.stack_at(positions[unit]), unit),
    ensures
        after.agrees_with(positions.remove(unit)),
{
    let pos = positions[unit];
    assert forall|p: Pos, u: u64| after.in_bounds(p) implies (#[trigger] after.stack_at(p).units_seq().contains(u) <==> (positions.remove(unit).contains_key(u) && positions.remove(unit)[u] == p)) by {
        lemma_index_in_area(p.x as int, p.y as int, before.spec_width() as int, before.spec_height() as int);
        assert(before.stack_at(p).units_seq().contains(u) <==> (positions.contains_key(u) && positions[u] == p));
        if before.index_of(p) == before.index_of(pos) {
            lemma_index_injective(p.x as int, p.y as int, pos.x as int, pos.y as int, before.spec_width() as int);
            assert(p == pos);
            assert(after.stack_at(p).units_seq().contains(u) <==> after.stack_at(p).units_seq().to_set().contains(u));
            assert(before.stack_at(p).units_seq().contains(u) <==> before.stack_at(p).units_seq().to_set().contains(u));
        } else {
            assert(after.stack_at(p) == before.stack_at(p));
        }
    }
}

/// The effect of moving `units` from `old_pos` to `new_pos`: at the old tile
/// they leave the stack, the others keeping their order, at the new tile they
/// join it (the stack resorted where a unit joined, its order kept where none
/// did), and every other stack is as it was.
pub open spec fn units_moved(before: StackGrid, after: StackGrid, ranking: StackRanking, units: Seq<u64>, old_pos: Pos, new_pos: Pos) -> bool {
    let old_index = before.index_of(old_pos);
    let new_index = before.index_of(new_pos);
    let mid_set = |i: int| if before.in_bounds(old_pos) && i == old_index {
        before.stacks_seq()[i].units_seq().to_set().difference(units.to_set())
    } else {
        before.stacks_seq()[i].units_seq().to_set()
    };
    let mid_seq = |i: int| if before.in_bounds(old_pos) && i == old_index {
        before.stacks_seq()[i].units_seq().filter(|u: u64| !units.contains(u))
    } else {
        before.stacks_seq()[i].units_seq()
    };
    &&& after.spec_width() == before.spec_width()
    &&& after.spec_height() == before.spec_height()
    &&& forall|i: int| 0 <= i < before.area() ==> (#[trigger] after.stacks_seq()[i]).units_seq().to_set() == (
        if before.in_bounds(new_pos) && i == new_index { mid_set(i).union(units.to_set()) } else { mid_set(i) })
    &&& forall|i: int| 0 <= i < before.area() && (!before.in_bounds(old_pos) || i != old_index)
        && (!before.in_bounds(new_pos) || i != new_index) ==> #[trigger] after.stacks_seq()[i] == before.stacks_seq()[i]
    &&& before.in_bounds(old_pos) && (!before.in_bounds(new_pos) || new_index != old_index)
        ==> after.stacks_seq()[old_index].spec_top() == before.stacks_seq()[old_index].spec_top()
    &&& before.in_bounds(new_pos) && (exists|j: int| 0 <= j < units.len() && !mid_set(new_index).contains(#[trigger] units[j]))
        ==> ranking.in_stack_order(after.stacks_seq()[new_index].units_seq())
            && after.stacks_seq()[new_index].spec_top() == ranking.top_of(after.stacks_seq()[new_index].units_seq())
    &&& before.in_bounds(old_pos) && (!before.in_bounds(new_pos) || new_index != old_index)
        ==> after.stacks_seq()[old_index].units_seq() == mid_seq(old_index)
    &&& before.in_bounds(new_pos) && !(exists|j: int| 0 <= j < units.len() && !mid_set(new_index).contains(#[trigger] units[j]))
        ==> after.stacks_seq()[new_index].units_seq() == mid_seq(new_index)
}



/// Filtering keeps a sequence whose items all pass.
proof fn lemma_filter_all_pass(s: Seq<u64>, pred: spec_fn(u64) -> bool)
    requires
        forall|i: int| 0 <= i < s.len() ==> pred(#[trigger] s[i]),
    ensures
        s.filter(pred) == s,
    decreases s.len(),
{
    reveal(Seq::filter);
    if s.len() > 0 {
        lemma_filter_all_pass(s.drop_last(), pred);
        assert(s.drop_last().push(s.last()) == s);
    }
}

/// Filtering twice is filtering once by both conditions.
proof fn lemma_filter_twice(s: Seq<u64>, p: spec_fn(u64) -> bool, q: spec_fn(u64) -> bool)
    ensures
        s.filter(p).filter(q) == s.filter(|u: u64| p(u) && q(u)),
    decreases s.len(),
{
    reveal(Seq::filter);
    if s.len() > 0 {
        let d = s.drop_last();
        lemma_filter_twice(d, p, q);
        d.filter(p).lemma_filter_push(s.last(), q);
    }
}

/// Removing the one place where `x` stands in a sequence without
/// duplicates is filtering `x` out.
proof fn lemma_remove_is_filter(s: Seq<u64>, i: int, x: u64)
    requires
        s.no_duplicates(),
        0 <= i < s.len(),
        s[i] == x,
    ensures
        s.remove(i) == s.filter(|u: u64| u != x),
    decreases s.len(),
{
    reveal(Seq::filter);
    let d = s.drop_last();
    if i == s.len() - 1 {
        assert forall|j: int| 0 <= j < d.len() implies (|u: u64| u != x)(#[trigger] d[j]) by {
            assert(s[j] == d[j]);
        }
        lemma_filter_all_pass(d, |u: u64| u != x);
        assert(s.remove(i) == d);
    } else {
        assert(d.no_duplicates()) by {
            assert forall|a: int, b: int| 0 <= a < d.len() && 0 <= b < d.len() && a != b implies d[a] != d[b] by {
                assert(s[a] == d[a] && s[b] == d[b]);
            }
        }
        lemma_remove_is_filter(d, i, x);
        assert(s.last() != x);
        assert(s.remove(i) == d.remove(i).push(s.last()));
    }
}

/// After a unit is taken out of a stack, the stack is what filtering the
/// unit out gives.
proof fn lemma_removed_is_filter(before: UnitStack, after: UnitStack, unit: u64)
    requires
        before.wf(),
        unit_removed(before, after, unit),
    ensures
        after.units_seq() == before.units_seq().filter(|u: u64| u != unit),
{
    let s = before.units_seq();
    if s.contains(unit) {
        let i = choose|i: int| 0 <= i < s.len() && s[i] == unit && after.units_seq() == s.remove(i);
        lemma_remove_is_filter(s, i, unit);
    } else {
        assert forall|j: int| 0 <= j < s.len() implies (|u: u64| u != unit)(#[trigger] s[j]) by {
            assert(s.contains(s[j]));
        }
        lemma_filter_all_pass(s, |u: u64| u != unit);
    }
}

/// Changing one stack to hold only its units and one more scored unit keeps
/// every unit of the grid scored.
proof fn lemma_scored_after_change(before: StackGrid, after: StackGrid, ranking: StackRanking, i: int, unit: u64)
    requires
        before.scored_by(ranking),
        ranking.has_score(unit),
        0 <= i < before.stacks_seq().len(),
        after.stacks_seq().len() == before.stacks_seq().len(),
        forall|j: int| 0 <= j < before.stacks_seq().len() && j != i ==> #[trigger] after.stacks_seq()[j] == before.stacks_seq()[j],
        forall|u: u64| #[trigger] after.stacks_seq()[i].units_seq().contains(u) ==> before.stacks_seq()[i].units_seq().contains(u) || u == unit,
    ensures
        after.scored_by(ranking),
{
    assert forall|j: int, u: u64| 0 <= j < after.stacks_seq().len() && #[trigger] after.stacks_seq()[j].units_seq().contains(u) implies ranking.has_score(u) by {
        if j != i {
            assert(after.stacks_seq()[j] == before.stacks_seq()[j]);
        } else if u != unit {
            assert(before.stacks_seq()[i].units_seq().contains(u));
        }
    }
}

} // verus!
