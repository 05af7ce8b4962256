//! What the game screen does when the game changes: the prompts it queues
//! and the sounds that greet a new tech.

use heck::ToSnakeCase;
use vstd::prelude::*;

verus! {

/// The snake-case form of a name, as `heck` writes it: lower case, words
/// joined by underscores.
pub uninterp spec fn snake_case(name: Seq<char>) -> Seq<char>;

/// Calls `heck::ToSnakeCase::to_snake_case` on a string slice. Its result
/// depends on the name alone; what it is, is left to `heck`.
#[verifier::external_body]
fn snake_case_of(name: &str) -> (snake: String)
    ensures
        snake@ == snake_case(name@),
{
    name.to_snake_case()
}

/// A prompt that the game screen queues.
#[derive(Clone, Copy, Debug, PartialEq, Eq, Structural)]
pub enum PromptRequest {
    /// Ask what the city with this ID should build.
    CityBuild(u64),
    /// Ask what to research.
    Research,
}

/// A city was updated: a city of ours with nothing to build gets a build
/// prompt.
pub fn prompt_for_city_update(city: u64, has_build_task: bool, ours: bool) -> (prompt: Option<PromptRequest>)
    ensures
        prompt == (if !has_build_task && ours { Some(PromptRequest::CityBuild(city)) } else { None }),
{
    if !has_build_task && ours {
        Some(PromptRequest::CityBuild(city))
    } else {
        None
    }
}

/// A player was updated: when it is us, after the first turn, and we
/// research nothing, the research prompt opens.
pub fn prompt_for_player_update(is_us: bool, turn: u32, researching: bool) -> (prompt: Option<PromptRequest>)
    ensures
        prompt == (if is_us && turn > 0 && !researching { Some(PromptRequest::Research) } else { None }),
{
    if is_us && turn > 0 && !researching {
        Some(PromptRequest::Research)
    } else {
        None
    }
}

/// The sound that plays when a tech is unlocked.
pub fn tech_unlocked_sound() -> (path: &'static str)
    ensures
        path@ == "sound/event/tech_unlocked"@,
{
    "sound/event/tech_unlocked"
}

/// The path of the recording of a tech's quote, given the tech's name in
/// snake case.
pub fn narration_path_for(snake_name: &str) -> (path: String)
    ensures
        path@ == "narration/tech/"@ + snake_name@,
{
    let mut path = String::from_str("narration/tech/");
    path.append(snake_name);
    path
}

/// The path of the recording of a tech's quote: under `narration/tech/`,
/// the tech's name in snake case.
pub fn tech_narration_path(tech_name: &str) -> (path: String)
    ensures
        path@ == "narration/tech/"@ + snake_case(tech_name@),
{
    let snake = snake_case_of(tech_name);
    narration_path_for(snake.as_str())
}

} // verus!
