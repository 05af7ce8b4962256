//! The options window: what one frame of it does.

use vstd::prelude::*;

verus! {

/// What the options window asks of the menu.
#[derive(Clone, Copy, Debug, PartialEq, Eq, Structural)]
pub enum Action {
    Close,
}

/// The work of one frame of the options window.
#[derive(Clone, Copy, Debug, PartialEq, Eq, Structural)]
pub enum OptionsStep {
    /// Save the options to disk, then close the window.
    SaveAndClose,
    /// Read the sliders into the options.
    ReadSliders,
}

/// Displays a window to configure game settings. The window, its sliders
/// and its button belong to the user interface.
pub struct OptionsState {}

impl OptionsState {
    pub fn new() -> (state: Self)
        ensures
            state == (OptionsState {}),
    {
        OptionsState {}
    }

    /// One frame: a click on the back button saves the options and closes
    /// the window; otherwise the sliders are read.
    pub fn update(&mut self, back_clicked: bool) -> (step: OptionsStep)
        ensures
            step == (if back_clicked { OptionsStep::SaveAndClose } else { OptionsStep::ReadSliders }),
    {
        if back_clicked {
            OptionsStep::SaveAndClose
        } else {
            OptionsStep::ReadSliders
        }
    }

    /// The action a step hands to the menu: closing, after saving.
    pub fn action(&self, step: OptionsStep) -> (action: Option<Action>)
        ensures
            action == (if step == OptionsStep::SaveAndClose { Some(Action::Close) } else { None }),
    {
        match step {
            OptionsStep::SaveAndClose => Some(Action::Close),
            OptionsStep::ReadSliders => None,
        }
    }

    /// After the sliders were read: the audio learns of the new volumes
    /// when either of them changed.
    pub fn audio_needs_update(&self, music_volume_changed: bool, effects_volume_changed: bool) -> (update: bool)
        ensures
            update == (music_volume_changed || effects_volume_changed),
    {
        music_volume_changed || effects_volume_changed
    }
}

} // verus!
