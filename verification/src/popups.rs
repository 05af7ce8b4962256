//! Popup windows.

use vstd::prelude::*;

verus! {

/// Popup windows. Creating and closing their windows is the user
/// interface's work; the manager itself keeps no state and writes their
/// texts.
#[derive(Default)]
pub struct PopupWindows {}

impl PopupWindows {
    pub fn new() -> (popups: Self)
        ensures
            popups == (PopupWindows {}),
    {
        PopupWindows {}
    }

    /// The text of the error popup: the error in red after `Error: `.
    pub fn error_popup_text(&self, error: &str) -> (text: String)
        ensures
            text@ == "@color[200,30,40][Error: "@ + error@ + "]"@,
    {
        let mut text = String::from_str("@color[200,30,40][Error: ");
        text.append(error);
        text.append("]");
        text
    }

    /// The text of the popup that opens the game, naming the player's people
    /// and the player.
    pub fn genesis_popup_text(&self, civ_adjective: &str, username: &str) -> (text: String)
        ensures
            text@ == "   The sun rises on 4000 BCE. For eons the "@ + civ_adjective@
                + " people have lived a nomadic life. Now they are ready to settle their first city.\n        \n    "@
                + username@ + ", lead your people to build a civilization that stands the test of time."@,
    {
        let mut text = String::from_str("   The sun rises on 4000 BCE. For eons the ");
        text.append(civ_adjective);
        text.append(" people have lived a nomadic life. Now they are ready to settle their first city.\n        \n    ");
        text.append(username);
        text.append(", lead your people to build a civilization that stands the test of time.");
        text
    }
}

} // verus!
