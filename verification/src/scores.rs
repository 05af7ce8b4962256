//! The player scores list: its order, its entries and what a click on one
//! asks for.

use crate::text::{decimal_digits, push_decimal};
use vstd::prelude::*;

verus! {

/// Player `a` is listed before player `b`: a higher score, or the same score
/// and an earlier place in the game's list of players.
pub open spec fn listed_before(scores: Seq<u32>, a: int, b: int) -> bool {
    scores[a] > scores[b] || (scores[a] == scores[b] && a < b)
}

/// `order` lists each of the players `0..scores.len()` once, highest score
/// first, players with equal scores in the order they were given.
pub open spec fn is_score_order(scores: Seq<u32>, order: Seq<usize>) -> bool {
    &&& order.len() == scores.len()
    &&& forall|i: int| 0 <= i < order.len() ==> #[trigger] order[i] < scores.len()
    &&& forall|k: usize| k < scores.len() ==> #[trigger] order.contains(k)
    &&& forall|i: int, j: int| 0 <= i < j < order.len() ==> listed_before(scores, #[trigger] order[i] as int, #[trigger] order[j] as int)
}

/// The order in which to list the players with the given scores: a stable
/// sort by descending score.
pub fn score_order(scores: &Vec<u32>) -> (order: Vec<usize>)
    ensures
        is_score_order(scores@, order@),
{
    let mut order: Vec<usize> = Vec::new();
    let mut i: usize = 0;
    while i < scores.len()
        invariant
            0 <= i <= scores@.len(),
            order@.len() == i,
            forall|a: int| 0 <= a < order@.len() ==> #[trigger] order@[a] < i,
            forall|k: usize| k < i ==> #[trigger] order@.contains(k),
            forall|a: int, b: int| 0 <= a < b < order@.len() ==> listed_before(scores@, #[trigger] order@[a] as int, #[trigger] order@[b] as int),
        decreases scores@.len() - i,
    {
        // The new player goes after every player with at least its score.
        let mut pos: usize = 0;
        while pos < order.len() && scores[order[pos]] >= scores[i]
            invariant
                0 <= pos <= order@.len(),
                i < scores@.len(),
                forall|a: int| 0 <= a < order@.len() ==> #[trigger] order@[a] < i,
                forall|a: int| 0 <= a < pos ==> scores@[#[trigger] order@[a] as int] >= scores@[i as int],
            decreases order@.len() - pos,
        {
            pos = pos + 1;
        }
        let ghost before = order@;
        proof {
            assert forall|a: int| pos <= a < before.len() implies scores@[#[trigger] before[a] as int] < scores@[i as int] by {
                assert(listed_before(scores@, before[pos as int] as int, before[a] as int) || a == pos);
            }
        }
        order.insert(pos, i);
        proof {
            let after = order@;
            assert(after == before.insert(pos as int, i));
            assert forall|a: int| 0 <= a < after.len() implies #[trigger] after[a] < i + 1 by {
                if a < pos {
                    assert(after[a] == before[a]);
                } else if a > pos {
                    assert(after[a] == before[a - 1]);
                }
            }
            assert forall|k: usize| k < i + 1 implies #[trigger] after.contains(k) by {
                if k == i {
                    assert(after[pos as int] == i);
                } else {
                    assert(before.contains(k));
                    let w = choose|w: int| 0 <= w < before.len() && before[w] == k;
                    if w < pos {
                        assert(after[w] == before[w]);
                    } else {
                        assert(after[w + 1] == before[w]);
                    }
                }
            }
            assert forall|a: int, b: int| 0 <= a < b < after.len() implies listed_before(scores@, #[trigger] after[a] as int, #[trigger] after[b] as int) by {
                if a < pos && b < pos {
                    assert(after[a] == before[a] && after[b] == before[b]);
                } else if a < pos && b == pos {
                    assert(after[a] == before[a]);
                    assert(before[a] < i);
                } else if a < pos {
                    assert(after[a] == before[a] && after[b] == before[b - 1]);
                } else if a == pos {
                    assert(after[b] == before[b - 1]);
                } else {
                    assert(after[a] == before[a - 1] && after[b] == before[b - 1]);
                }
            }
        }
        i = i + 1;
    }
    order
}

/// A player's entry in the list: `"{score}:    {name}"`, where the name is
/// `@color{<color>}{<username>}`, in brackets for the player at this
/// client, and followed by a red `(WAR)` for a player we are at war with.
pub open spec fn entry_text(score: u32, color: Seq<char>, username: Seq<char>, is_me: bool, at_war: bool) -> Seq<char> {
    let name = "@color{"@ + color + "}{"@ + username + "}"@;
    let name = if is_me { "["@ + name + "]"@ } else { name };
    let name = if at_war { name + " @color{rgb(207,69,32)}{(WAR)}"@ } else { name };
    decimal_digits(score as nat) + ":    "@ + name
}

/// Writes a player's entry in the list.
pub fn score_entry_text(score: u32, color: &str, username: &str, is_me: bool, at_war: bool) -> (text: String)
    ensures
        text@ == entry_text(score, color@, username@, is_me, at_war),
{
    let mut text = String::new();
    push_decimal(&mut text, score as u64);
    text.append(":    ");
    if is_me {
        text.append("[");
    }
    text.append("@color{");
    text.append(color);
    text.append("}{");
    text.append(username);
    text.append("}");
    if is_me {
        text.append("]");
    }
    if at_war {
        text.append(" @color{rgb(207,69,32)}{(WAR)}");
    }
    proof {
        let name = "@color{"@ + color@ + "}{"@ + username@ + "}"@;
        let name1 = if is_me { "["@ + name + "]"@ } else { name };
        let name2 = if at_war { name1 + " @color{rgb(207,69,32)}{(WAR)}"@ } else { name1 };
        assert(text@ =~= decimal_digits(score as nat) + ":    "@ + name2);
    }
    text
}

/// What a click on another player's entry asks for.
#[derive(Clone, Copy, Debug, PartialEq, Eq, Structural)]
pub enum DiplomacyAction {
    DeclareWar,
    MakePeace,
    Nothing,
}

/// A click with Alt held on another player's entry makes peace with a
/// player we were at war with, and declares war on any other; a click
/// without Alt does nothing.
pub fn diplomacy_action(alt: bool, was_at_war: bool) -> (action: DiplomacyAction)
    ensures
        !alt ==> action == DiplomacyAction::Nothing,
        alt && was_at_war ==> action == DiplomacyAction::MakePeace,
        alt && !was_at_war ==> action == DiplomacyAction::DeclareWar,
{
    if alt {
        if was_at_war {
            DiplomacyAction::MakePeace
        } else {
            DiplomacyAction::DeclareWar
        }
    } else {
        DiplomacyAction::Nothing
    }
}

} // verus!
