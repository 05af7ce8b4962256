//! The city screen's information bar: the texts it shows.

use crate::text::{decimal_digits, push_decimal};
use vstd::prelude::*;

verus! {

/// The sign comparing two amounts: `">"` when `a` is larger, `"<"` when it
/// is smaller, `"="` when they are equal.
pub fn sign(a: u32, b: u32) -> (s: &'static str)
    ensures
        s@ == (if a > b {
            ">"@
        } else if a < b {
            "<"@
        } else {
            "="@
        }),
{
    if a > b {
        ">"
    } else if a < b {
        "<"
    } else {
        "="
    }
}

/// `n` in decimal.
pub open spec fn dec(n: u32) -> Seq<char> {
    decimal_digits(n as nat)
}

/// The city's name and population: `"{name}: {population}"`.
pub fn city_title(name: &str, population: u32) -> (text: String)
    ensures
        text@ == name@ + ": "@ + dec(population),
{
    let mut text = String::from_str(name);
    text.append(": ");
    push_decimal(&mut text, population as u64);
    text
}

/// The food the city yields and eats:
/// `"{yield} @icon[bread] - {consumed} @icon[eaten_bread]"`.
pub fn food_text(food_yield: u32, food_consumed: u32) -> (text: String)
    ensures
        text@ == dec(food_yield) + " @icon[bread] - "@ + dec(food_consumed) + " @icon[eaten_bread]"@,
{
    let mut text = String::new();
    push_decimal(&mut text, food_yield as u64);
    text.append(" @icon[bread] - ");
    push_decimal(&mut text, food_consumed as u64);
    text.append(" @icon[eaten_bread]");
    text
}

/// The hammers the city yields: `"{yield} @icon[hammer]"`.
pub fn hammers_text(hammer_yield: u32) -> (text: String)
    ensures
        text@ == dec(hammer_yield) + " @icon[hammer]"@,
{
    let mut text = String::new();
    push_decimal(&mut text, hammer_yield as u64);
    text.append(" @icon[hammer]");
    text
}

/// How the city's population changes: growing (in how many turns),
/// stagnant, or starving.
pub fn growth_text(growing: bool, stagnant: bool, turns_to_grow: u32) -> (text: String)
    ensures
        growing ==> text@ == "Growing ("@ + dec(turns_to_grow) + " turns)"@,
        !growing && stagnant ==> text@ == "Stagnant"@,
        !growing && !stagnant ==> text@ == "@color[180, 20, 30][STARVATION!]"@,
{
    if growing {
        let mut text = String::from_str("Growing (");
        push_decimal(&mut text, turns_to_grow as u64);
        text.append(" turns)");
        text
    } else if stagnant {
        String::from_str("Stagnant")
    } else {
        String::from_str("@color[180, 20, 30][STARVATION!]")
    }
}

/// What the city builds, with the turns left: `"{task} ({turns} turns)"`,
/// or nothing.
pub fn production_text(task: Option<(&str, u32)>) -> (text: String)
    ensures
        match task {
            Some((name, turns)) => text@ == name@ + " ("@ + dec(turns) + " turns)"@,
            None => text@ == Seq::<char>::empty(),
        },
{
    match task {
        Some((name, turns)) => {
            let mut text = String::from_str(name);
            text.append(" (");
            push_decimal(&mut text, turns as u64);
            text.append(" turns)");
            text
        },
        None => String::new(),
    }
}

/// An amount with its icon: `"{amount}@icon[{icon}] "` where the amount
/// stands left of a comparison sign, `" {amount}@icon[{icon}]"` where it
/// stands right of it.
pub fn amount_text(amount: u32, icon: &str, left_of_sign: bool) -> (text: String)
    ensures
        left_of_sign ==> text@ == dec(amount) + "@icon["@ + icon@ + "] "@,
        !left_of_sign ==> text@ == " "@ + dec(amount) + "@icon["@ + icon@ + "]"@,
{
    let mut text = String::new();
    if !left_of_sign {
        text.append(" ");
    }
    push_decimal(&mut text, amount as u64);
    text.append("@icon[");
    text.append(icon);
    if left_of_sign {
        text.append("] ");
    } else {
        text.append("]");
    }
    text
}

} // verus!
