//! Sound effects for game events.

use std::time::{Duration, Instant};
use vstd::prelude::*;

verus! {

#[verifier::external_type_specification]
#[verifier::external_body]
pub struct ExInstant(Instant);

/// Calls `Instant::now`. Nothing is stated of the result: it is the time.
#[verifier::external_body]
fn instant_now() -> Instant {
    Instant::now()
}

/// Calls `Instant::elapsed`. Nothing is stated of the result: it depends on
/// the time.
#[verifier::external_body]
fn instant_elapsed(instant: &Instant) -> Duration {
    instant.elapsed()
}

/// Calls `Duration::as_nanos`. `Duration` is opaque here, so nothing is
/// stated of the result.
#[verifier::external_body]
fn duration_as_nanos(duration: &Duration) -> u128 {
    duration.as_nanos()
}

/// How long, in nanoseconds, the sound of a unit move blocks the next one.
pub const MOVE_SOUND_INTERVAL_NANOS: u128 = 500_000_000;

/// A game event, as far as its sound depends on it.
#[derive(Clone, Copy, Debug, PartialEq, Eq, Structural)]
pub enum SoundEvent {
    /// A unit moved.
    UnitMoved {
        /// The unit is ours.
        ours: bool,
        /// The tile it moved to is forested.
        target_forested: bool,
    },
    WarDeclared,
    PeaceDeclared,
    /// A battle ended.
    CombatFinished {
        /// The winner is ours.
        winner_ours: bool,
        /// The loser is ours.
        loser_ours: bool,
    },
    /// A city's borders grew.
    BordersExpanded {
        /// The city is ours.
        ours: bool,
    },
    /// Any other event.
    Other,
}

/// The volume setting a sound is played at.
#[derive(Clone, Copy, Debug, PartialEq, Eq, Structural)]
pub enum SoundVolume {
    UnitMoved,
    WarAndPeace,
    Combat,
    BordersExpand,
    Tech,
}

/// A sound effect of the game.
#[derive(Clone, Copy, Debug, PartialEq, Eq, Structural)]
pub enum GameSound {
    Move,
    MoveThroughTrees,
    WarDeclared,
    PeaceDeclared,
    CombatVictory,
    CombatDefeat,
    BordersExpand,
}

impl GameSound {
    /// The sound's asset path.
    pub fn path(&self) -> (path: &'static str)
        ensures
            path@ == match self {
                GameSound::Move => "sound/event/move"@,
                GameSound::MoveThroughTrees => "sound/event/move_through_trees"@,
                GameSound::WarDeclared => "sound/event/war_declared"@,
                GameSound::PeaceDeclared => "sound/event/peace_declared"@,
                GameSound::CombatVictory => "sound/event/combat_victory"@,
                GameSound::CombatDefeat => "sound/event/combat_defeat"@,
                GameSound::BordersExpand => "sound/event/borders_expand"@,
            },
    {
        match self {
            GameSound::Move => "sound/event/move",
            GameSound::MoveThroughTrees => "sound/event/move_through_trees",
            GameSound::WarDeclared => "sound/event/war_declared",
            GameSound::PeaceDeclared => "sound/event/peace_declared",
            GameSound::CombatVictory => "sound/event/combat_victory",
            GameSound::CombatDefeat => "sound/event/combat_defeat",
            GameSound::BordersExpand => "sound/event/borders_expand",
        }
    }

    /// The volume setting the sound is played at.
    pub fn volume(&self) -> (volume: SoundVolume)
        ensures
            volume == match self {
                GameSound::Move | GameSound::MoveThroughTrees => SoundVolume::UnitMoved,
                GameSound::WarDeclared | GameSound::PeaceDeclared => SoundVolume::WarAndPeace,
                GameSound::CombatVictory | GameSound::CombatDefeat => SoundVolume::Combat,
                GameSound::BordersExpand => SoundVolume::BordersExpand,
            },
    {
        match self {
            GameSound::Move | GameSound::MoveThroughTrees => SoundVolume::UnitMoved,
            GameSound::WarDeclared | GameSound::PeaceDeclared => SoundVolume::WarAndPeace,
            GameSound::CombatVictory | GameSound::CombatDefeat => SoundVolume::Combat,
            GameSound::BordersExpand => SoundVolume::BordersExpand,
        }
    }
}

/// The sounds an event calls for, and whether a unit-move sound starts now.
/// `recently_moved` says that the last unit-move sound started less than
/// `MOVE_SOUND_INTERVAL_NANOS` ago.
pub open spec fn event_sounds(event: SoundEvent, recently_moved: bool) -> (Seq<GameSound>, bool) {
    match event {
        SoundEvent::UnitMoved { ours, target_forested } => {
            if !ours || recently_moved {
                (Seq::empty(), false)
            } else if target_forested {
                (seq![GameSound::Move, GameSound::MoveThroughTrees], true)
            } else {
                (seq![GameSound::Move], true)
            }
        },
        SoundEvent::WarDeclared => (seq![GameSound::WarDeclared], false),
        SoundEvent::PeaceDeclared => (seq![GameSound::PeaceDeclared], false),
        SoundEvent::CombatFinished { winner_ours, loser_ours } => {
            if winner_ours {
                (seq![GameSound::CombatVictory], false)
            } else if loser_ours {
                (seq![GameSound::CombatDefeat], false)
            } else {
                (Seq::empty(), false)
            }
        },
        SoundEvent::BordersExpanded { ours } => {
            if ours {
                (seq![GameSound::BordersExpand], false)
            } else {
                (Seq::empty(), false)
            }
        },
        SoundEvent::Other => (Seq::empty(), false),
    }
}

/// Decides which sounds an event calls for, given whether a unit-move sound
/// started recently; the flag says whether a unit-move sound starts now.
pub fn sounds_for_event(event: SoundEvent, recently_moved: bool) -> (r: (Vec<GameSound>, bool))
    ensures
        r.0@ == event_sounds(event, recently_moved).0,
        r.1 == event_sounds(event, recently_moved).1,
{
    let mut sounds: Vec<GameSound> = Vec::new();
    let mut started_move = false;
    match event {
        SoundEvent::UnitMoved { ours, target_forested } => {
            if ours && !recently_moved {
                started_move = true;
                sounds.push(GameSound::Move);
                if target_forested {
                    sounds.push(GameSound::MoveThroughTrees);
                }
            }
        },
        SoundEvent::WarDeclared => {
            sounds.push(GameSound::WarDeclared);
        },
        SoundEvent::PeaceDeclared => {
            sounds.push(GameSound::PeaceDeclared);
        },
        SoundEvent::CombatFinished { winner_ours, loser_ours } => {
            if winner_ours {
                sounds.push(GameSound::CombatVictory);
            } else if loser_ours {
                sounds.push(GameSound::CombatDefeat);
            }
        },
        SoundEvent::BordersExpanded { ours } => {
            if ours {
                sounds.push(GameSound::BordersExpand);
            }
        },
        SoundEvent::Other => {},
    }
    proof {
        assert(sounds@ =~= event_sounds(event, recently_moved).0);
    }
    (sounds, started_move)
}

/// A unit-move sound that started `elapsed_nanos` nanoseconds ago started
/// recently: less than `MOVE_SOUND_INTERVAL_NANOS` ago.
pub open spec fn moved_recently(elapsed_nanos: u128) -> bool {
    elapsed_nanos < MOVE_SOUND_INTERVAL_NANOS
}

/// Plays sounds for game events. `H` is the handle of a playing sound.
pub struct GameSounds<H> {
    /// The sounds that are playing.
    pub playing: Vec<H>,
    previous_unit_move_time: Instant,
}

impl<H> GameSounds<H> {
    pub closed spec fn playing_seq(&self) -> Seq<H> {
        self.playing@
    }

    /// When the last unit-move sound started.
    pub closed spec fn move_timer(&self) -> Instant {
        self.previous_unit_move_time
    }

    pub fn new() -> (sounds: Self)
        ensures
            sounds.playing_seq().len() == 0,
    {
        GameSounds { playing: Vec::new(), previous_unit_move_time: instant_now() }
    }

    /// The sounds to play for a game event. A move of one of our units plays
    /// its sounds only if no unit-move sound started in the last half second;
    /// the time of the last one is kept until another one starts. The clock
    /// is read here, for a move of one of our units only, and what it gives
    /// is handed to `sounds_after`.
    pub fn handle_game_event(&mut self, event: SoundEvent) -> (sounds: Vec<GameSound>)
        ensures
            final(self).playing_seq() == old(self).playing_seq(),
            exists|elapsed_nanos: u128| {
                let recently_moved = #[trigger] moved_recently(elapsed_nanos);
                &&& sounds@ == event_sounds(event, recently_moved).0
                &&& !event_sounds(event, recently_moved).1 ==> final(self).move_timer() == old(self).move_timer()
            },
            !(event is UnitMoved) ==> sounds@ == event_sounds(event, false).0,
            !(event is UnitMoved && sounds@.len() > 0) ==> final(self).move_timer() == old(self).move_timer(),
    {
        let elapsed_nanos = match event {
            SoundEvent::UnitMoved { ours: true, .. } => {
                let elapsed = instant_elapsed(&self.previous_unit_move_time);
                duration_as_nanos(&elapsed)
            },
            _ => MOVE_SOUND_INTERVAL_NANOS,
        };
        self.sounds_after(event, elapsed_nanos)
    }

    /// The sounds to play for a game event when the last unit-move sound
    /// started `elapsed_nanos` nanoseconds ago: a move of one of our units
    /// plays its sounds only if that is at least `MOVE_SOUND_INTERVAL_NANOS`,
    /// and then the time of the last unit-move sound becomes now; otherwise
    /// that time is kept.
    pub fn sounds_after(&mut self, event: SoundEvent, elapsed_nanos: u128) -> (sounds: Vec<GameSound>)
        ensures
            final(self).playing_seq() == old(self).playing_seq(),
            sounds@ == event_sounds(event, moved_recently(elapsed_nanos)).0,
            !event_sounds(event, moved_recently(elapsed_nanos)).1 ==> final(self).move_timer() == old(self).move_timer(),
    {
        let (sounds, started_move) = sounds_for_event(event, elapsed_nanos < MOVE_SOUND_INTERVAL_NANOS);
        if started_move {
            self.previous_unit_move_time = instant_now();
        }
        sounds
    }
}

} // verus!
