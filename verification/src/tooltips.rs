//! Helpers for the text of tooltips.

use crate::text::string_views;
use vstd::prelude::*;
use vstd::std_specs::cmp::PartialEqSpec;

verus! {

/// The length of the run that starts at the front of `items`, counting from
/// `k`: items after the first belong to the run as long as each compares
/// equal to the first.
pub open spec fn run_length<T: PartialEq>(items: Seq<T>, k: int) -> int
    decreases items.len() - k,
{
    if k >= items.len() || k < 1 {
        if k < 1 { 1 } else { k }
    } else if items[k].eq_spec(&items[0]) {
        run_length(items, k + 1)
    } else {
        k
    }
}

/// `items` in runs of equal items: each run as its length and its first
/// item.
pub open spec fn runs<T: PartialEq>(items: Seq<T>) -> Seq<(u32, T)>
    decreases items.len(),
{
    if items.len() == 0 {
        Seq::empty()
    } else {
        let n = run_length(items, 1);
        if 1 <= n <= items.len() {
            seq![(n as u32, items[0])] + runs(items.skip(n))
        } else {
            Seq::empty()
        }
    }
}

proof fn lemma_run_length_bounds<T: PartialEq>(items: Seq<T>, k: int)
    requires
        1 <= k <= items.len(),
    ensures
        k <= run_length(items, k) <= items.len(),
    decreases items.len() - k,
{
    if k < items.len() && items[k].eq_spec(&items[0]) {
        lemma_run_length_bounds(items, k + 1);
    }
}

/// The sum of the counts of `counted`.
pub open spec fn total_count<T>(counted: Seq<(u32, T)>) -> int
    decreases counted.len(),
{
    if counted.len() == 0 {
        0
    } else {
        counted[0].0 + total_count(counted.drop_first())
    }
}

/// Counting runs accounts for every item once: the counts add up to the
/// number of items, and each count is at least one.
pub proof fn lemma_runs_cover<T: PartialEq>(items: Seq<T>)
    requires
        items.len() <= u32::MAX,
    ensures
        total_count(runs(items)) == items.len(),
        forall|i: int| 0 <= i < runs(items).len() ==> (#[trigger] runs(items)[i]).0 >= 1,
    decreases items.len(),
{
    if items.len() > 0 {
        lemma_run_length_bounds(items, 1);
        let n = run_length(items, 1);
        let rest = items.skip(n);
        lemma_runs_cover(rest);
        let r = runs(items);
        assert(r == seq![(n as u32, items[0])] + runs(rest));
        assert(r.drop_first() == runs(rest));
        assert forall|i: int| 0 <= i < r.len() implies (#[trigger] r[i]).0 >= 1 by {
            if i > 0 {
                assert(r[i] == runs(rest)[i - 1]);
            }
        }
    }
}

/// Counts runs of equal items: `[a, a, b, a]` becomes
/// `[(2, a), (1, b), (1, a)]`.
pub fn count_entries<T: PartialEq>(items: Vec<T>) -> (counted: Vec<(u32, T)>)
    requires
        items.len() <= u32::MAX,
    ensures
        T::obeys_eq_spec() ==> counted@ == runs(items@),
{
    let ghost all = items@;
    let mut items = items;
    let mut v: Vec<(u32, T)> = Vec::new();
    let ghost mut consumed: int = 0;
    while items.len() > 0
        invariant
            all.len() <= u32::MAX,
            0 <= consumed <= all.len(),
            items@ == all.skip(consumed),
            T::obeys_eq_spec() ==> runs(all) == v@ + runs(items@),
        decreases items.len(),
    {
        let ghost rest = items@;
        let next = items.remove(0);
        let mut n: u32 = 1;
        proof {
            lemma_run_length_bounds(rest, 1);
        }
        while items.len() > 0 && items[0] == next
            invariant
                rest.len() <= u32::MAX,
                1 <= n <= rest.len(),
                next == rest[0],
                items@ == rest.skip(n as int),
                T::obeys_eq_spec() ==> run_length(rest, 1) == run_length(rest, n as int),
            decreases items.len(),
        {
            proof {
                assert(items@[0] == rest[n as int]);
            }
            items.remove(0);
            n = n + 1;
            proof {
                assert(rest.skip((n - 1) as int).skip(1) == rest.skip(n as int));
            }
        }
        proof {
            if T::obeys_eq_spec() {
                if items.len() > 0 {
                    assert(items@[0] == rest[n as int]);
                }
                assert(run_length(rest, n as int) == n);
                assert(runs(rest) == seq![(n, rest[0])] + runs(rest.skip(n as int)));
                assert(v@.push((n, next)) + runs(items@) == v@ + runs(rest));
            }
            assert(all.skip(consumed).skip(n as int) == all.skip(consumed + n));
            consumed = consumed + n;
        }
        v.push((n, next));
    }
    proof {
        if T::obeys_eq_spec() {
            assert(runs(items@) == Seq::<(u32, T)>::empty());
            assert(v@ + Seq::<(u32, T)>::empty() == v@);
        }
    }
    v
}

/// The length of the run of equal texts that starts at the front of
/// `items`, counting from `k`.
pub open spec fn text_run_length(items: Seq<Seq<char>>, k: int) -> int
    decreases items.len() - k,
{
    if k >= items.len() || k < 1 {
        if k < 1 { 1 } else { k }
    } else if items[k] == items[0] {
        text_run_length(items, k + 1)
    } else {
        k
    }
}

/// `items` in runs of equal texts: each run as its length and its text.
pub open spec fn text_runs(items: Seq<Seq<char>>) -> Seq<(u32, Seq<char>)>
    decreases items.len(),
{
    if items.len() == 0 {
        Seq::empty()
    } else {
        let n = text_run_length(items, 1);
        if 1 <= n <= items.len() {
            seq![(n as u32, items[0])] + text_runs(items.skip(n))
        } else {
            Seq::empty()
        }
    }
}

/// `run` copies of each run's text, in order.
pub open spec fn expand_runs(runs: Seq<(u32, Seq<char>)>) -> Seq<Seq<char>>
    decreases runs.len(),
{
    if runs.len() == 0 {
        Seq::empty()
    } else {
        Seq::new(runs[0].0 as nat, |i: int| runs[0].1) + expand_runs(runs.drop_first())
    }
}

proof fn lemma_text_run_length(items: Seq<Seq<char>>, k: int)
    requires
        1 <= k <= items.len(),
        forall|j: int| 1 <= j < k ==> #[trigger] items[j] == items[0],
    ensures
        k <= text_run_length(items, k) <= items.len(),
        forall|j: int| 0 <= j < text_run_length(items, k) ==> #[trigger] items[j] == items[0],
        text_run_length(items, k) < items.len() ==> items[text_run_length(items, k)] != items[0],
    decreases items.len() - k,
{
    if k < items.len() && items[k] == items[0] {
        lemma_text_run_length(items, k + 1);
    }
}

/// Runs of texts take the texts apart and nothing else: every run has at
/// least one text, two neighbouring runs hold different texts, and writing
/// each run's text as often as it counts gives the texts back.
pub proof fn lemma_text_runs(items: Seq<Seq<char>>)
    requires
        items.len() <= u32::MAX,
    ensures
        forall|i: int| 0 <= i < text_runs(items).len() ==> (#[trigger] text_runs(items)[i]).0 >= 1,
        forall|i: int| 0 <= i < text_runs(items).len() - 1 ==> (#[trigger] text_runs(items)[i]).1 != text_runs(items)[i + 1].1,
        expand_runs(text_runs(items)) == items,
    decreases items.len(),
{
    if items.len() > 0 {
        lemma_text_run_length(items, 1);
        let n = text_run_length(items, 1);
        let rest = items.skip(n);
        lemma_text_runs(rest);
        let r = text_runs(items);
        assert(r == seq![(n as u32, items[0])] + text_runs(rest));
        assert(r.drop_first() == text_runs(rest));
        assert forall|i: int| 0 <= i < r.len() implies (#[trigger] r[i]).0 >= 1 by {
            if i > 0 {
                assert(r[i] == text_runs(rest)[i - 1]);
            }
        }
        assert forall|i: int| 0 <= i < r.len() - 1 implies (#[trigger] r[i]).1 != r[i + 1].1 by {
            if i > 0 {
                assert(r[i] == text_runs(rest)[i - 1]);
                assert(r[i + 1] == text_runs(rest)[i]);
            } else if rest.len() > 0 {
                lemma_text_run_length(rest, 1);
                assert(r[1] == text_runs(rest)[0]);
                assert(text_runs(rest)[0].1 == rest[0]);
                assert(rest[0] == items[n]);
            }
        }
        let head = Seq::new(n as nat, |i: int| items[0]);
        assert(head == items.take(n));
        assert(expand_runs(r) == head + expand_runs(text_runs(rest)));
        assert(items.take(n) + items.skip(n) == items);
    }
}

/// The counts of `counted`, each with its text's characters.
pub open spec fn counted_texts(counted: Seq<(u32, String)>) -> Seq<(u32, Seq<char>)> {
    counted.map_values(|c: (u32, String)| (c.0, c.1@))
}

/// Counts runs of equal texts: `["a", "a", "b", "a"]` becomes
/// `[(2, "a"), (1, "b"), (1, "a")]`.
pub fn count_text_entries(items: Vec<String>) -> (counted: Vec<(u32, String)>)
    requires
        items.len() <= u32::MAX,
    ensures
        counted_texts(counted@) == text_runs(string_views(items@)),
{
    let ghost all = string_views(items@);
    let mut items = items;
    let mut v: Vec<(u32, String)> = Vec::new();
    let ghost mut consumed: int = 0;
    while items.len() > 0
        invariant
            all.len() <= u32::MAX,
            0 <= consumed <= all.len(),
            string_views(items@) == all.skip(consumed),
            text_runs(all) == counted_texts(v@) + text_runs(string_views(items@)),
        decreases items.len(),
    {
        let ghost rest = string_views(items@);
        assert(rest.len() == items@.len());
        let next = items.remove(0);
        let mut n: u32 = 1;
        proof {
            lemma_text_run_length(rest, 1);
        }
        while items.len() > 0 && items[0] == next
            invariant
                rest.len() <= u32::MAX,
                1 <= n <= rest.len(),
                next@ == rest[0],
                string_views(items@) == rest.skip(n as int),
                items@.len() + n == rest.len(),
                text_run_length(rest, 1) == text_run_length(rest, n as int),
            decreases items.len(),
        {
            proof {
                assert(string_views(items@)[0] == rest[n as int]);
            }
            let ghost before = items@;
            items.remove(0);
            n = n + 1;
            proof {
                assert(string_views(items@) == string_views(before).skip(1));
                assert(rest.skip((n - 1) as int).skip(1) == rest.skip(n as int));
            }
        }
        proof {
            if items.len() > 0 {
                assert(string_views(items@)[0] == rest[n as int]);
            }
            assert(text_run_length(rest, n as int) == n);
            assert(text_runs(rest) == seq![(n, rest[0])] + text_runs(rest.skip(n as int)));
            assert(all.skip(consumed).skip(n as int) == all.skip(consumed + n));
            consumed = consumed + n;
        }
        let ghost old_v = v@;
        v.push((n, next));
        proof {
            assert(counted_texts(v@) == counted_texts(old_v).push((n, rest[0])));
        }
    }
    proof {
        assert(text_runs(string_views(items@)) == Seq::<(u32, Seq<char>)>::empty());
    }
    v
}

} // verus!
