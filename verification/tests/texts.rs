use riposte_client::music::Era;
use riposte_client::panels::{culture_amount_text, culture_text, research_text, turn_text, unit_panel_header, unit_panel_info};
use riposte_client::client::RequestIds;
use riposte_client::economy::{
    beaker_output_text, beaker_percent_after, beaker_percent_text, expenses_text, gold_delta, gold_text, negative_color, positive_color,
    revenue_text, Color, SLIDER_INCREMENT,
};
use riposte_client::info_bar::{amount_text, city_title, food_text, growth_text, hammers_text, production_text};
use riposte_client::path::PathPoint;
use riposte_client::pos::Pos;
use riposte_client::scores::{diplomacy_action, score_entry_text, score_order, DiplomacyAction};
use riposte_client::staged_path::turn_markers;
use riposte_client::text::decimal;
use riposte_client::unit::MovementPoints;
use riposte_client::world::{
    can_end_turn, initial_view_center, unit_update_events, units_moved_events, CityPlacement, UnitEvent, UnitPlacement,
};

#[test]
fn decimal_numbers() {
    assert_eq!(decimal(0), "0");
    assert_eq!(decimal(7), "7");
    assert_eq!(decimal(10), "10");
    assert_eq!(decimal(1234567890), "1234567890");
    assert_eq!(decimal(u64::MAX), u64::MAX.to_string());
}

#[test]
fn city_info_bar_texts() {
    assert_eq!(city_title("Rome", 3), "Rome: 3");
    assert_eq!(food_text(6, 4), "6 @icon[bread] - 4 @icon[eaten_bread]");
    assert_eq!(hammers_text(12), "12 @icon[hammer]");
    assert_eq!(growth_text(true, false, 5), "Growing (5 turns)");
    assert_eq!(growth_text(true, true, 1), "Growing (1 turns)");
    assert_eq!(growth_text(false, true, 5), "Stagnant");
    assert_eq!(growth_text(false, false, 5), "@color[180, 20, 30][STARVATION!]");
    assert_eq!(production_text(Some(("Warrior", 2))), "Warrior (2 turns)");
    assert_eq!(production_text(None), "");
    assert_eq!(amount_text(3, "happy", true), "3@icon[happy] ");
    assert_eq!(amount_text(2, "unhappy", false), " 2@icon[unhappy]");
}

#[test]
fn research_slider_moves_in_steps() {
    assert_eq!(SLIDER_INCREMENT, 10);
    assert_eq!(beaker_percent_after(50, true), 60);
    assert_eq!(beaker_percent_after(95, true), 100);
    assert_eq!(beaker_percent_after(100, true), 100);
    assert_eq!(beaker_percent_after(50, false), 40);
    assert_eq!(beaker_percent_after(5, false), 0);
    assert_eq!(beaker_percent_after(0, false), 0);
}

#[test]
fn gold_and_research_texts() {
    assert_eq!(gold_delta(5), ("+5".to_string(), false));
    assert_eq!(gold_delta(0), ("+0".to_string(), false));
    assert_eq!(gold_delta(-12), ("-12".to_string(), true));
    assert_eq!(gold_delta(i32::MIN), ("-2147483648".to_string(), true));
    assert_eq!(beaker_output_text(8), "(+8 / turn)");
    assert_eq!(beaker_percent_text(70), "@icon[beaker]: 70%");
}

#[test]
fn scores_are_listed_highest_first() {
    assert_eq!(score_order(&vec![10, 30, 20]), vec![1, 2, 0]);
    assert_eq!(score_order(&vec![5, 7, 5, 7]), vec![1, 3, 0, 2]);
    assert_eq!(score_order(&vec![]), Vec::<usize>::new());
}

#[test]
fn score_entries() {
    assert_eq!(score_entry_text(12, "red", "alice", false, false), "12:    @color{red}{alice}");
    assert_eq!(score_entry_text(3, "blue", "bob", true, false), "3:    [@color{blue}{bob}]");
    assert_eq!(
        score_entry_text(0, "green", "eve", false, true),
        "0:    @color{green}{eve} @color{rgb(207,69,32)}{(WAR)}"
    );
}

#[test]
fn diplomacy_clicks() {
    assert_eq!(diplomacy_action(false, true), DiplomacyAction::Nothing);
    assert_eq!(diplomacy_action(true, true), DiplomacyAction::MakePeace);
    assert_eq!(diplomacy_action(true, false), DiplomacyAction::DeclareWar);
}

fn point(x: u32, turn: u32) -> PathPoint {
    PathPoint { pos: Pos::new(x, 0), turn, movement_left: MovementPoints::from_u32(0) }
}

#[test]
fn markers_sit_at_the_end_of_each_turn() {
    let points = vec![point(0, 0), point(1, 1), point(2, 1), point(3, 2), point(4, 2)];
    assert_eq!(turn_markers(&points), vec![2, 4]);
    assert_eq!(turn_markers(&[point(0, 0), point(1, 1), point(2, 2)]), vec![1, 2]);
    assert_eq!(turn_markers(&[point(0, 0)]), Vec::<usize>::new());
    assert_eq!(turn_markers(&[]), Vec::<usize>::new());
}

#[test]
fn view_starts_at_our_settler_then_our_city() {
    let units = vec![
        UnitPlacement { owner: 2, founds_cities: true, pos: Pos::new(9, 9) },
        UnitPlacement { owner: 1, founds_cities: false, pos: Pos::new(1, 1) },
        UnitPlacement { owner: 1, founds_cities: true, pos: Pos::new(4, 5) },
        UnitPlacement { owner: 1, founds_cities: true, pos: Pos::new(6, 6) },
    ];
    let cities = vec![CityPlacement { owner: 1, pos: Pos::new(7, 8) }];
    assert_eq!(initial_view_center(&units, &cities, 1), Pos::new(4, 5));
    assert_eq!(initial_view_center(&units[1..2].to_vec(), &cities, 1), Pos::new(7, 8));
    assert_eq!(initial_view_center(&vec![], &cities, 3), Pos::new(0, 0));
}

#[test]
fn turn_ends_only_when_everything_is_done() {
    assert!(can_end_turn(true, false, true, false));
    assert!(!can_end_turn(false, false, true, false));
    assert!(!can_end_turn(true, true, true, false));
    assert!(!can_end_turn(true, false, false, false));
    assert!(!can_end_turn(true, false, true, true));
}

#[test]
fn request_ids_count_up_from_one() {
    let mut ids = RequestIds::new();
    assert_eq!(ids.take(), 1);
    assert_eq!(ids.take(), 2);
    assert_eq!(ids.take(), 3);
}

#[test]
fn panel_texts() {
    assert_eq!(research_text(Some(("Bronze Working", 4))), "Research: Bronze Working (4)");
    assert_eq!(research_text(None), "Research: None");
    assert_eq!(culture_text("Poor", 2), "Poor (+2 / turn)");
    assert_eq!(culture_amount_text(15, 100), "@icon[culture]: 15 / 100");
    assert_eq!(unit_panel_header(0, "Warrior"), "");
    assert_eq!(unit_panel_header(1, "Warrior"), "Warrior");
    assert_eq!(unit_panel_header(3, "Warrior"), "Unit Stack (3)");
}

#[test]
fn turn_display() {
    assert_eq!(turn_text(1, Era::Ancient), "Turn 1    •    Ancient Era");
    assert_eq!(turn_text(120, Era::Renaissance), "Turn 120    •    Renaissance Era");
}

#[test]
fn gold_line_colours_the_change_by_its_sign() {
    assert_eq!(gold_text(120, 5, "green", "red"), "@icon[gold]: 120 @color[green][(+5 / turn)]");
    assert_eq!(gold_text(120, 0, "green", "red"), "@icon[gold]: 120 @color[green][(+0 / turn)]");
    assert_eq!(gold_text(7, -3, "green", "red"), "@icon[gold]: 7 @color[red][(-3 / turn)]");
    assert_eq!(gold_text(-2, -3, "green", "red"), "@icon[gold]: -2 @color[red][(-3 / turn)]");
}

#[test]
fn economy_colours_and_lines() {
    assert_eq!(positive_color(), Color { red: 68, green: 194, blue: 113, alpha: 255 });
    assert_eq!(negative_color(), Color { red: 231, green: 60, blue: 62, alpha: 255 });
    assert_eq!(expenses_text(12, "red"), "@color[red][Expenses:] 12");
    assert_eq!(revenue_text(30, "green"), "@color[green][Revenue:] 30");
}

#[test]
fn unit_panel_info_lines() {
    assert_eq!(unit_panel_info(1, Some("2"), "1/1", None), "Strength: 2\nMovement: 1/1");
    assert_eq!(unit_panel_info(1, None, "2/2", None), "Movement: 2/2");
    assert_eq!(
        unit_panel_info(1, None, "2/2", Some(("Building Road", 3))),
        "Movement: 2/2\nBuilding Road (3)"
    );
    assert_eq!(unit_panel_info(0, Some("2"), "1/1", None), "");
    assert_eq!(unit_panel_info(3, Some("2"), "1/1", None), "");
}

#[test]
fn moved_units_announce_move_then_update() {
    let a = Pos::new(1, 1);
    let b = Pos::new(2, 1);
    assert_eq!(
        units_moved_events(&vec![4, 9], a, b),
        vec![
            UnitEvent::Moved { unit: 4, old_pos: a, new_pos: b },
            UnitEvent::Updated { unit: 4 },
            UnitEvent::Moved { unit: 9, old_pos: a, new_pos: b },
            UnitEvent::Updated { unit: 9 },
        ]
    );
    assert!(units_moved_events(&vec![], a, b).is_empty());
}

#[test]
fn unit_updates_add_move_or_update() {
    let a = Pos::new(1, 1);
    let b = Pos::new(2, 1);
    assert_eq!(unit_update_events(3, false, a, a), (true, vec![UnitEvent::Updated { unit: 3 }]));
    assert_eq!(unit_update_events(3, true, a, a), (false, vec![UnitEvent::Updated { unit: 3 }]));
    assert_eq!(
        unit_update_events(3, true, a, b),
        (
            false,
            vec![
                UnitEvent::Moved { unit: 3, old_pos: a, new_pos: b },
                UnitEvent::Updated { unit: 3 },
                UnitEvent::Updated { unit: 3 },
            ]
        )
    );
}
