//! The economy screen: the research slider and the texts it shows.

use crate::text::{decimal_digits, push_decimal, push_signed_decimal, signed_decimal_digits};
use vstd::prelude::*;

verus! {

/// How far one click moves the research slider, in percent.
pub const SLIDER_INCREMENT: u32 = 10;

/// The share of revenue spent on research after one click on the slider:
/// up by `SLIDER_INCREMENT`, at most 100, or down by it, at least 0.
pub fn beaker_percent_after(current: u32, increase: bool) -> (percent: u32)
    ensures
        increase ==> percent == (if current + SLIDER_INCREMENT < 100 { current + SLIDER_INCREMENT } else { 100 }),
        !increase ==> percent == (if current >= SLIDER_INCREMENT { current - SLIDER_INCREMENT } else { 0 }),
{
    if increase {
        current.saturating_add(SLIDER_INCREMENT).min(100)
    } else {
        current.saturating_sub(SLIDER_INCREMENT)
    }
}

/// A colour, by its red, green, blue and alpha components.
#[derive(Clone, Copy, Debug, PartialEq, Eq, Structural)]
pub struct Color {
    pub red: u8,
    pub green: u8,
    pub blue: u8,
    pub alpha: u8,
}

/// The colour of gains: `(68, 194, 113, 255)`.
pub fn positive_color() -> (color: Color)
    ensures
        color == (Color { red: 68, green: 194, blue: 113, alpha: 255 }),
{
    Color { red: 68, green: 194, blue: 113, alpha: 255 }
}

/// The colour of losses: `(231, 60, 62, 255)`.
pub fn negative_color() -> (color: Color)
    ensures
        color == (Color { red: 231, green: 60, blue: 62, alpha: 255 }),
{
    Color { red: 231, green: 60, blue: 62, alpha: 255 }
}

/// The change of gold per turn as shown.
pub open spec fn gold_delta_digits(net_gold_per_turn: int) -> Seq<char> {
    if net_gold_per_turn < 0 {
        signed_decimal_digits(net_gold_per_turn)
    } else {
        "+"@ + decimal_digits(net_gold_per_turn as nat)
    }
}

/// The change of gold per turn as shown: a `+` before a gain (or none), the
/// number's own `-` before a loss; the flag says whether it is a loss.
pub fn gold_delta(net_gold_per_turn: i32) -> (delta: (String, bool))
    ensures
        delta.1 == (net_gold_per_turn < 0),
        delta.0@ == gold_delta_digits(net_gold_per_turn as int),
        net_gold_per_turn < 0 ==> delta.0@ == signed_decimal_digits(net_gold_per_turn as int),
        net_gold_per_turn >= 0 ==> delta.0@ == "+"@ + decimal_digits(net_gold_per_turn as nat),
{
    if net_gold_per_turn < 0 {
        let mut text = String::new();
        push_signed_decimal(&mut text, net_gold_per_turn as i64);
        proof {
            assert(text@ =~= signed_decimal_digits(net_gold_per_turn as int));
        }
        (text, true)
    } else {
        let mut text = String::from_str("+");
        push_decimal(&mut text, net_gold_per_turn as u64);
        (text, false)
    }
}

/// The gold line: `"@icon[gold]: {gold} @color[{color}][({delta} / turn)]"`,
/// where the change per turn is written as `gold_delta` writes it and in
/// the colour of gains (`positive`) or of losses (`negative`), each given as
/// the text that the colour markup takes.
pub fn gold_text(gold: i64, net_gold_per_turn: i32, positive: &str, negative: &str) -> (text: String)
    ensures
        text@ == "@icon[gold]: "@ + signed_decimal_digits(gold as int) + " @color["@
            + (if net_gold_per_turn < 0 { negative@ } else { positive@ }) + "][("@
            + gold_delta_digits(net_gold_per_turn as int) + " / turn)]"@,
{
    let (delta, loss) = gold_delta(net_gold_per_turn);
    let mut text = String::from_str("@icon[gold]: ");
    push_signed_decimal(&mut text, gold);
    text.append(" @color[");
    if loss {
        text.append(negative);
    } else {
        text.append(positive);
    }
    text.append("][(");
    text.append(delta.as_str());
    text.append(" / turn)]");
    text
}

/// The expenses line: `"@color[{negative}][Expenses:] {expenses}"`, with
/// the colour of losses given as the text that the colour markup takes.
pub fn expenses_text(expenses: u32, negative: &str) -> (text: String)
    ensures
        text@ == "@color["@ + negative@ + "][Expenses:] "@ + decimal_digits(expenses as nat),
{
    let mut text = String::from_str("@color[");
    text.append(negative);
    text.append("][Expenses:] ");
    push_decimal(&mut text, expenses as u64);
    text
}

/// The revenue line: `"@color[{positive}][Revenue:] {revenue}"`, with the
/// colour of gains given as the text that the colour markup takes.
pub fn revenue_text(base_revenue: u32, positive: &str) -> (text: String)
    ensures
        text@ == "@color["@ + positive@ + "][Revenue:] "@ + decimal_digits(base_revenue as nat),
{
    let mut text = String::from_str("@color[");
    text.append(positive);
    text.append("][Revenue:] ");
    push_decimal(&mut text, base_revenue as u64);
    text
}

/// The research output: `"(+{beakers} / turn)"`.
pub fn beaker_output_text(beaker_revenue: u32) -> (text: String)
    ensures
        text@ == "(+"@ + decimal_digits(beaker_revenue as nat) + " / turn)"@,
{
    let mut text = String::from_str("(+");
    push_decimal(&mut text, beaker_revenue as u64);
    text.append(" / turn)");
    text
}

/// The share spent on research: `"@icon[beaker]: {percent}%"`.
pub fn beaker_percent_text(beaker_percent: u32) -> (text: String)
    ensures
        text@ == "@icon[beaker]: "@ + decimal_digits(beaker_percent as nat) + "%"@,
{
    let mut text = String::from_str("@icon[beaker]: ");
    push_decimal(&mut text, beaker_percent as u64);
    text.append("%");
    text
}

} // verus!
