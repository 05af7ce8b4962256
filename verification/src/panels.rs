//! The texts of the smaller panels of the game screen: research, culture
//! and the selected units.

use crate::music::{era_named, Era};
use crate::text::{decimal_digits, push_decimal};
use vstd::prelude::*;

verus! {

/// The research bar: `"Research: {tech} ({turns})"`, or
/// `"Research: None"` while nothing is researched.
pub fn research_text(research: Option<(&str, u32)>) -> (text: String)
    ensures
        match research {
            Some((tech, turns)) => text@ == "Research: "@ + tech@ + " ("@ + decimal_digits(turns as nat) + ")"@,
            None => text@ == "Research: None"@,
        },
{
    match research {
        Some((tech, turns)) => {
            let mut text = String::from_str("Research: ");
            text.append(tech);
            text.append(" (");
            push_decimal(&mut text, turns as u64);
            text.append(")");
            text
        },
        None => String::from_str("Research: None"),
    }
}

/// The city's culture level and its growth: `"{level} (+{per_turn} / turn)"`.
pub fn culture_text(level: &str, culture_per_turn: u32) -> (text: String)
    ensures
        text@ == level@ + " (+"@ + decimal_digits(culture_per_turn as nat) + " / turn)"@,
{
    let mut text = String::from_str(level);
    text.append(" (+");
    push_decimal(&mut text, culture_per_turn as u64);
    text.append(" / turn)");
    text
}

/// The city's culture: `"@icon[culture]: {culture} / {needed}"`.
pub fn culture_amount_text(culture: u32, culture_needed: u32) -> (text: String)
    ensures
        text@ == "@icon[culture]: "@ + decimal_digits(culture as nat) + " / "@ + decimal_digits(culture_needed as nat),
{
    let mut text = String::from_str("@icon[culture]: ");
    push_decimal(&mut text, culture as u64);
    text.append(" / ");
    push_decimal(&mut text, culture_needed as u64);
    text
}

/// The header of the unit panel: nothing without a selection, the unit
/// kind's name for one unit, `"Unit Stack ({n})"` for more.
pub fn unit_panel_header(num_selected: usize, kind_name: &str) -> (text: String)
    ensures
        num_selected == 0 ==> text@ == Seq::<char>::empty(),
        num_selected == 1 ==> text@ == kind_name@,
        num_selected > 1 ==> text@ == "Unit Stack ("@ + decimal_digits(num_selected as nat) + ")"@,
{
    if num_selected == 0 {
        String::new()
    } else if num_selected == 1 {
        String::from_str(kind_name)
    } else {
        let mut text = String::from_str("Unit Stack (");
        push_decimal(&mut text, num_selected as u64);
        text.append(")");
        text
    }
}

/// The information text of the unit panel for a single selected unit.
pub open spec fn unit_info_text(strength: Option<Seq<char>>, movement: Seq<char>, worker_task: Option<(Seq<char>, nat)>) -> Seq<char> {
    let base = match strength {
        Some(s) => "Strength: "@ + s + "\nMovement: "@ + movement,
        None => "Movement: "@ + movement,
    };
    match worker_task {
        Some((participle, turns)) => base + "\n"@ + participle + " ("@ + decimal_digits(turns) + ")"@,
        None => base,
    }
}

/// The information text of the unit panel: nothing unless exactly one unit
/// is selected; for one unit, `"Strength: {strength}"` (where it has a
/// strength) on the line above `"Movement: {movement}"`, and below them, if
/// the unit is a worker at a task, `"{task} ({turns left})"`.
pub fn unit_panel_info(num_selected: usize, strength: Option<&str>, movement: &str, worker_task: Option<(&str, u32)>) -> (text: String)
    ensures
        num_selected != 1 ==> text@ == Seq::<char>::empty(),
        num_selected == 1 ==> text@ == unit_info_text(
            match strength { Some(s) => Some(s@), None => None },
            movement@,
            match worker_task { Some((p, t)) => Some((p@, t as nat)), None => None },
        ),
{
    if num_selected != 1 {
        return String::new();
    }
    let mut text = match strength {
        Some(s) => {
            let mut t = String::from_str("Strength: ");
            t.append(s);
            t.append("\nMovement: ");
            t.append(movement);
            t
        },
        None => {
            let mut t = String::from_str("Movement: ");
            t.append(movement);
            t
        },
    };
    match worker_task {
        Some((participle, turns)) => {
            text.append("\n");
            text.append(participle);
            text.append(" (");
            push_decimal(&mut text, turns as u64);
            text.append(")");
        },
        None => {},
    }
    text
}

/// The name of an era, as the turn display gives it.
pub open spec fn era_name(era: Era) -> Seq<char> {
    match era {
        Era::Ancient => "Ancient"@,
        Era::Classical => "Classical"@,
        Era::Medieval => "Medieval"@,
        Era::Renaissance => "Renaissance"@,
        Era::Industrial => "Industrial"@,
        Era::Modern => "Modern"@,
        Era::Future => "Future"@,
    }
}

/// `s` with its capital ASCII letters made small.
pub open spec fn ascii_lowercase(s: Seq<char>) -> Seq<char> {
    s.map_values(|c: char| if 'A' <= c && c <= 'Z' { ((c as int) + 32) as char } else { c })
}

/// The turn display names each era by its own name: the same name, in small
/// letters, that the music's directories give that era.
pub proof fn lemma_era_name_is_its_own(era: Era)
    ensures
        era_named(ascii_lowercase(era_name(era))) == Some(era),
{
    reveal_strlit("Ancient");
    reveal_strlit("ancient");
    reveal_strlit("Classical");
    reveal_strlit("classical");
    reveal_strlit("Medieval");
    reveal_strlit("medieval");
    reveal_strlit("Renaissance");
    reveal_strlit("renaissance");
    reveal_strlit("Industrial");
    reveal_strlit("industrial");
    reveal_strlit("Modern");
    reveal_strlit("modern");
    reveal_strlit("Future");
    reveal_strlit("future");
    match era {
        Era::Ancient => {
            assert(ascii_lowercase("Ancient"@) =~= "ancient"@);
            assert(era_named("ancient"@) == Some(Era::Ancient));
        },
        Era::Classical => {
            assert(ascii_lowercase("Classical"@) =~= "classical"@);
            assert(era_named("classical"@) == Some(Era::Classical));
        },
        Era::Medieval => {
            assert(ascii_lowercase("Medieval"@) =~= "medieval"@);
            assert(era_named("medieval"@) == Some(Era::Medieval));
        },
        Era::Renaissance => {
            assert(ascii_lowercase("Renaissance"@) =~= "renaissance"@);
            assert(era_named("renaissance"@) == Some(Era::Renaissance));
        },
        Era::Industrial => {
            assert(ascii_lowercase("Industrial"@) =~= "industrial"@);
            assert(era_named("industrial"@) == Some(Era::Industrial));
        },
        Era::Modern => {
            assert(ascii_lowercase("Modern"@) =~= "modern"@);
            assert(era_named("modern"@) == Some(Era::Modern));
        },
        Era::Future => {
            assert(ascii_lowercase("Future"@) =~= "future"@);
            assert("future"@[0] != "modern"@[0]);
            assert(era_named("future"@) == Some(Era::Future));
        },
    }
}

/// The turn display of the main info bar: `"Turn {turn}    •    {era} Era"`.
pub fn turn_text(turn: u32, era: Era) -> (text: String)
    ensures
        text@ == "Turn "@ + decimal_digits(turn as nat) + "    •    "@ + era_name(era) + " Era"@,
{
    let mut text = String::from_str("Turn ");
    push_decimal(&mut text, turn as u64);
    text.append("    •    ");
    let name = match era {
        Era::Ancient => "Ancient",
        Era::Classical => "Classical",
        Era::Medieval => "Medieval",
        Era::Renaissance => "Renaissance",
        Era::Industrial => "Industrial",
        Era::Modern => "Modern",
        Era::Future => "Future",
    };
    text.append(name);
    text.append(" Era");
    text
}

} // verus!
