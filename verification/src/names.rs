//! The alphabetical order of names: character by character, by code point,
//! a name before every longer name that begins with it.

use crate::registry::{handle_name, name_of_handle};
use crate::text::string_views;
use core::cmp::Ordering;
use vstd::prelude::*;

verus! {

/// `a` comes strictly before `b` in alphabetical order.
pub open spec fn name_before(a: Seq<char>, b: Seq<char>) -> bool
    decreases a.len(),
{
    if a.len() == 0 {
        b.len() > 0
    } else if b.len() == 0 {
        false
    } else if a[0] != b[0] {
        (a[0] as int) < (b[0] as int)
    } else {
        name_before(a.drop_first(), b.drop_first())
    }
}

/// Of two names, exactly one comes first, or they are the same.
pub proof fn lemma_name_order_total(a: Seq<char>, b: Seq<char>)
    ensures
        name_before(a, b) || name_before(b, a) || a == b,
        !(name_before(a, b) && name_before(b, a)),
        name_before(a, b) ==> a != b,
    decreases a.len(),
{
    if a.len() > 0 && b.len() > 0 && a[0] == b[0] {
        lemma_name_order_total(a.drop_first(), b.drop_first());
        if a.drop_first() == b.drop_first() {
            assert(a == seq![a[0]] + a.drop_first());
            assert(b == seq![b[0]] + b.drop_first());
        }
    }
    if a.len() > 0 && b.len() > 0 && a[0] != b[0] {
        assert(a[0] as int != b[0] as int);
    }
    if a.len() == 0 && b.len() == 0 {
        assert(a == b);
    }
}

/// Whether `a` comes strictly before `b` in alphabetical order.
pub fn name_precedes(a: &str, b: &str) -> (before: bool)
    ensures
        before == name_before(a@, b@),
{
    let n = a.unicode_len();
    let m = b.unicode_len();
    let mut i: usize = 0;
    proof {
        assert(a@.skip(0) == a@);
        assert(b@.skip(0) == b@);
    }
    while i < n && i < m
        invariant
            n == a@.len(),
            m == b@.len(),
            0 <= i <= n,
            i <= m,
            name_before(a@.skip(i as int), b@.skip(i as int)) == name_before(a@, b@),
        decreases n - i,
    {
        let x = a.get_char(i);
        let y = b.get_char(i);
        proof {
            assert(a@.skip(i as int)[0] == x);
            assert(b@.skip(i as int)[0] == y);
            assert(a@.skip(i as int).drop_first() == a@.skip(i + 1));
            assert(b@.skip(i as int).drop_first() == b@.skip(i + 1));
        }
        if x != y {
            return (x as u32) < (y as u32);
        }
        i = i + 1;
    }
    proof {
        assert(a@.skip(i as int).len() == n - i);
        assert(b@.skip(i as int).len() == m - i);
    }
    i == n && i < m
}

/// Compares two names alphabetically.
pub fn compare_names(a: &str, b: &str) -> (order: Ordering)
    ensures
        (order == Ordering::Less) == name_before(a@, b@),
        (order == Ordering::Equal) == (a@ == b@),
        (order == Ordering::Greater) == name_before(b@, a@),
{
    proof {
        lemma_name_order_total(a@, b@);
        lemma_name_order_total(b@, a@);
    }
    if name_precedes(a, b) {
        Ordering::Less
    } else if name_precedes(b, a) {
        Ordering::Greater
    } else {
        Ordering::Equal
    }
}

/// Compares the names of the items with the handles `a` and `b`.
pub fn compare_handle_names(names: &Vec<String>, a: u64, b: u64) -> (order: Ordering)
    ensures
        (order == Ordering::Less) == name_before(handle_name(string_views(names@), a), handle_name(string_views(names@), b)),
        (order == Ordering::Equal) == (handle_name(string_views(names@), a) == handle_name(string_views(names@), b)),
        (order == Ordering::Greater) == name_before(handle_name(string_views(names@), b), handle_name(string_views(names@), a)),
{
    compare_names(name_of_handle(names, a), name_of_handle(names, b))
}

} // verus!
