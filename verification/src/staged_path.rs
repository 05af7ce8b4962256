//! The overlay of the staged path: where along a path the turn markers go.

use crate::path::PathPoint;
use vstd::prelude::*;

verus! {

/// Point `j` of a path carries a marker with its turn number: it is not the
/// start, and it is the last point or the last point reached in its turn.
pub open spec fn has_turn_marker(points: Seq<PathPoint>, j: int) -> bool {
    &&& 1 <= j < points.len()
    &&& (j == points.len() - 1 || points[j].turn != points[j + 1].turn)
}

/// The indices of the points of `points` that carry a turn marker, in
/// order along the path.
pub fn turn_markers(points: &[PathPoint]) -> (markers: Vec<usize>)
    ensures
        forall|k: int| 0 <= k < markers@.len() ==> has_turn_marker(points@, #[trigger] markers@[k] as int),
        forall|a: int, b: int| 0 <= a < b < markers@.len() ==> #[trigger] markers@[a] < #[trigger] markers@[b],
        forall|j: int| has_turn_marker(points@, j) ==> #[trigger] markers@.contains(j as usize),
{
    let mut markers: Vec<usize> = Vec::new();
    let n = points.len();
    let mut j: usize = 1;
    while j < n
        invariant
            n == points@.len(),
            1 <= j || n == 0,
            j <= n || n == 0,
            forall|k: int| 0 <= k < markers@.len() ==> has_turn_marker(points@, #[trigger] markers@[k] as int),
            forall|k: int| 0 <= k < markers@.len() ==> #[trigger] markers@[k] < j,
            forall|a: int, b: int| 0 <= a < b < markers@.len() ==> #[trigger] markers@[a] < #[trigger] markers@[b],
            forall|i: int| 1 <= i < j && has_turn_marker(points@, i) ==> #[trigger] markers@.contains(i as usize),
        decreases n - j,
    {
        if j == n - 1 || points[j].turn != points[j + 1].turn {
            let ghost before = markers@;
            markers.push(j);
            proof {
                assert forall|i: int| 1 <= i < j + 1 && has_turn_marker(points@, i) implies #[trigger] markers@.contains(i as usize) by {
                    if i == j {
                        assert(markers@[before.len() as int] == j);
                    } else {
                        assert(before.contains(i as usize));
                        let w = choose|w: int| 0 <= w < before.len() && before[w] == i as usize;
                        assert(markers@[w] == before[w]);
                    }
                }
            }
        }
        j = j + 1;
    }
    markers
}

} // verus!
