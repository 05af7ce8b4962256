use riposte_client::game_screen::{
    narration_path_for, prompt_for_city_update, prompt_for_player_update, tech_narration_path, tech_unlocked_sound,
    PromptRequest,
};

#[test]
fn cities_without_a_task_are_prompted() {
    assert_eq!(prompt_for_city_update(7, false, true), Some(PromptRequest::CityBuild(7)));
    assert_eq!(prompt_for_city_update(7, true, true), None);
    assert_eq!(prompt_for_city_update(7, false, false), None);
}

#[test]
fn research_is_prompted_after_the_first_turn() {
    assert_eq!(prompt_for_player_update(true, 3, false), Some(PromptRequest::Research));
    assert_eq!(prompt_for_player_update(true, 0, false), None);
    assert_eq!(prompt_for_player_update(true, 3, true), None);
    assert_eq!(prompt_for_player_update(false, 3, false), None);
}

#[test]
fn tech_sounds() {
    assert_eq!(tech_unlocked_sound(), "sound/event/tech_unlocked");
    assert_eq!(narration_path_for("bronze_working"), "narration/tech/bronze_working");
    assert_eq!(tech_narration_path("Bronze Working"), "narration/tech/bronze_working");
    assert_eq!(tech_narration_path("Masonry"), "narration/tech/masonry");
}
