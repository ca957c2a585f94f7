use engine::actions::{
    names_of_others, pick_choice, refusal_message, resolve_choice, to_lowercase_all,
};
use engine::ast::{BuildingInstance, UnitInstance};
use engine::map::{GameMap, Terrain};
use engine::state::{ActionError, GameState, Popup, PopupKind};

fn plains(width: usize, height: usize) -> GameMap {
    GameMap::from_tiles("test".to_string(), vec![vec![Terrain::Plains; width]; height]).unwrap()
}

fn fresh() -> GameState {
    GameState::new(plains(30, 30))
}

fn submit(state: &mut GameState, line: &str) -> bool {
    state.action_input = line.to_string();
    state.action_editing = true;
    state.submit_action()
}

fn strings(items: &[&str]) -> Vec<String> {
    items.iter().map(|s| s.to_string()).collect()
}

fn popup(kind: PopupKind, choices: &[&str], input: &str) -> Popup {
    Popup { kind, prompt: "?".to_string(), choices: strings(choices), input: input.to_string() }
}

#[test]
fn build_farm_without_the_means_opens_a_popup_and_costs_nothing() {
    let mut state = fresh();
    state.civilizations[0].resources.ressources = 9;
    assert!(submit(&mut state, "build farm"));
    let p = state.popup.as_ref().unwrap();
    assert_eq!(p.title(), "Build");
    assert_eq!(p.kind, PopupKind::Build);
    assert_eq!(p.prompt, "Not enough resources for building");
    assert!(p.choices.is_empty());
    assert_eq!(state.civilizations[0].resources.ressources, 9);
    assert!(state.civilizations[0].constructions.is_empty());
    assert!(!state.action_editing);
    assert_eq!(state.action_input, "build farm");
}

#[test]
fn build_farm_with_the_means_builds() {
    let mut state = fresh();
    assert!(!submit(&mut state, "build farm"));
    assert!(state.popup.is_none());
    assert_eq!(state.civilizations[0].resources.ressources, 90);
    assert_eq!(state.civilizations[0].constructions[0].id_building, "Farm");
    assert_eq!(state.action_input, "");
    assert!(!state.action_editing);
}

#[test]
fn commands_ignore_case_and_spare_whitespace() {
    let mut state = fresh();
    assert!(!submit(&mut state, "  BUILD \t BaRRacks  "));
    assert_eq!(state.civilizations[0].constructions[0].id_building, "Barracks");
    assert_eq!(state.civilizations[0].resources.ressources, 80);
}

#[test]
fn words_after_the_argument_are_ignored() {
    let mut state = fresh();
    assert!(!submit(&mut state, "build farm now please"));
    assert_eq!(state.civilizations[0].constructions.len(), 1);
}

#[test]
fn build_alone_lists_the_buildings() {
    let mut state = fresh();
    assert!(submit(&mut state, "build"));
    let p = state.popup.as_ref().unwrap();
    assert_eq!(p.kind, PopupKind::Build);
    assert_eq!(p.prompt, "Choose building type:");
    assert_eq!(p.choices, strings(&["Farm", "Barracks"]));
    assert_eq!(p.input, "");
    assert_eq!(state.civilizations[0].resources.ressources, 100);
}

#[test]
fn an_unknown_building_is_named_in_the_popup() {
    let mut state = fresh();
    assert!(submit(&mut state, "Build Castle"));
    let p = state.popup.as_ref().unwrap();
    assert_eq!(p.kind, PopupKind::Build);
    assert_eq!(p.prompt, "Unknown building: castle");
}

#[test]
fn each_refusal_of_a_construction_has_its_popup() {
    let mut state = fresh();
    assert!(!submit(&mut state, "build farm"));
    assert!(submit(&mut state, "build farm"));
    assert_eq!(state.popup.as_ref().unwrap().prompt, "Another construction is already in progress");
    let mut state = fresh();
    state.civilizations[0].city.nb_slots_buildings = 0;
    assert!(submit(&mut state, "build farm"));
    assert_eq!(state.popup.as_ref().unwrap().prompt, "No available building slots");
}

#[test]
fn hire_and_recruit_are_one_verb() {
    for verb in ["hire", "recruit", "HIRE"] {
        let mut state = fresh();
        state.civilizations[0]
            .city
            .buildings
            .push(BuildingInstance { id_building: "Barracks".to_string(), level: 1 });
        assert!(!submit(&mut state, &format!("{verb} warrior")));
        assert_eq!(state.civilizations[0].recruitments[0].id_unit, "Warrior");
        assert_eq!(state.civilizations[0].resources.ressources, 95);
        assert_eq!(state.action_input, "");
    }
}

#[test]
fn hire_alone_lists_the_units() {
    let mut state = fresh();
    assert!(submit(&mut state, "hire"));
    let p = state.popup.as_ref().unwrap();
    assert_eq!(p.kind, PopupKind::Hire);
    assert_eq!(p.title(), "Hire");
    assert_eq!(p.prompt, "Choose unit to hire:");
    assert_eq!(p.choices, strings(&["Warrior"]));
}

#[test]
fn each_refusal_of_a_recruitment_has_its_popup() {
    let mut state = fresh();
    assert!(submit(&mut state, "hire archer"));
    assert_eq!(state.popup.as_ref().unwrap().prompt, "Unknown unit: archer");
    assert!(submit(&mut state, "hire warrior"));
    assert_eq!(
        state.popup.as_ref().unwrap().prompt,
        "No building able to produce this unit is present"
    );
    state.civilizations[0]
        .city
        .buildings
        .push(BuildingInstance { id_building: "Barracks".to_string(), level: 1 });
    state.civilizations[0].resources.ressources = 1;
    assert!(submit(&mut state, "hire warrior"));
    assert_eq!(state.popup.as_ref().unwrap().prompt, "Not enough resources to recruit unit");
    assert_eq!(state.popup.as_ref().unwrap().kind, PopupKind::Hire);
    state.civilizations[0].resources.ressources = 50;
    state.civilizations[0].city.nb_slots_units = 0;
    assert!(submit(&mut state, "hire warrior"));
    assert_eq!(state.popup.as_ref().unwrap().prompt, "No available unit slots");
    state.civilizations[0].city.nb_slots_units = 3;
    assert!(!submit(&mut state, "hire warrior"));
    assert!(submit(&mut state, "hire warrior"));
    assert_eq!(state.popup.as_ref().unwrap().prompt, "Another recruitment is already in progress");
}

#[test]
fn attack_alone_lists_the_other_cities() {
    let mut state = fresh();
    assert!(submit(&mut state, "attack"));
    let p = state.popup.as_ref().unwrap();
    assert_eq!(p.kind, PopupKind::Attack);
    assert_eq!(p.title(), "Attack");
    assert_eq!(p.prompt, "Choose player to attack:");
    assert_eq!(p.choices, strings(&["IA"]));
    state.player_turn = 1;
    assert!(submit(&mut state, "attack"));
    assert_eq!(state.popup.as_ref().unwrap().choices, strings(&["Player"]));
}

#[test]
fn attack_sends_the_army() {
    let mut state = fresh();
    state.civilizations[0]
        .city
        .units
        .push(UnitInstance { id_units: "Warrior".to_string(), nb_units: 8 });
    assert!(!submit(&mut state, "attack ia 3"));
    assert_eq!(state.travels.len(), 1);
    assert_eq!(state.travels[0].amount, 3);
    assert_eq!((state.travels[0].attacker, state.travels[0].defender), (0, 1));
    assert_eq!(state.travels[0].total, 7);
    assert_eq!(state.civilizations[0].city.units[0].nb_units, 5);
    assert_eq!(state.action_input, "");
    assert!(!submit(&mut state, "ATTACK IA"));
    assert_eq!(state.travels[1].amount, 5);
    assert!(state.civilizations[0].city.units.is_empty());
}

#[test]
fn an_amount_that_is_no_number_sends_everybody() {
    let mut state = fresh();
    state.civilizations[0]
        .city
        .units
        .push(UnitInstance { id_units: "Warrior".to_string(), nb_units: 8 });
    assert!(!submit(&mut state, "attack ia many"));
    assert_eq!(state.travels[0].amount, 8);
}

#[test]
fn an_amount_beyond_the_army_is_cut_down_without_a_word() {
    let mut state = fresh();
    state.civilizations[0]
        .city
        .units
        .push(UnitInstance { id_units: "Warrior".to_string(), nb_units: 8 });
    assert!(!submit(&mut state, "attack ia 4000000000"));
    assert_eq!(state.travels[0].amount, 8);
    assert!(state.popup.is_none());
}

#[test]
fn each_refusal_of_an_attack_has_its_popup() {
    let mut state = fresh();
    assert!(submit(&mut state, "attack rome"));
    assert_eq!(state.popup.as_ref().unwrap().prompt, "Unknown target: rome");
    assert_eq!(state.popup.as_ref().unwrap().kind, PopupKind::Attack);
    assert!(submit(&mut state, "attack player"));
    assert_eq!(state.popup.as_ref().unwrap().prompt, "Cannot attack yourself");
    assert!(submit(&mut state, "attack ia"));
    assert_eq!(state.popup.as_ref().unwrap().prompt, "No units available to send");
    state.civilizations[0]
        .city
        .units
        .push(UnitInstance { id_units: "Warrior".to_string(), nb_units: 8 });
    assert!(submit(&mut state, "attack ia 0"));
    assert_eq!(state.popup.as_ref().unwrap().prompt, "Invalid amount to send");
    state.civilizations[1].alive = false;
    assert!(submit(&mut state, "attack ia"));
    assert_eq!(state.popup.as_ref().unwrap().prompt, "Target is already defeated");
    state.civilizations[1].alive = true;
    state.civilizations[0].alive = false;
    assert!(submit(&mut state, "attack ia"));
    assert_eq!(state.popup.as_ref().unwrap().prompt, "Attacker is not alive");
    state.civilizations[0].alive = true;
    state.game_over = true;
    assert!(submit(&mut state, "attack ia"));
    assert_eq!(state.popup.as_ref().unwrap().prompt, "Game is over");
    state.game_over = false;
    state.civilizations[1].city.x = 400;
    assert!(submit(&mut state, "attack ia"));
    assert_eq!(state.popup.as_ref().unwrap().prompt, "No path to target");
    assert_eq!(state.civilizations[0].city.units[0].nb_units, 8);
    assert!(state.travels.is_empty());
}

#[test]
fn end_moves_on_to_the_next_civilization_and_starts_its_turn() {
    let mut state = fresh();
    state.civilizations[1]
        .city
        .buildings
        .push(BuildingInstance { id_building: "Farm".to_string(), level: 1 });
    state.civilizations[0]
        .city
        .buildings
        .push(BuildingInstance { id_building: "Farm".to_string(), level: 1 });
    assert!(!submit(&mut state, "end"));
    assert_eq!(state.player_turn, 1);
    assert_eq!(state.turn, 1);
    assert_eq!(state.civilizations[1].resources.ressources, 105);
    assert_eq!(state.civilizations[0].resources.ressources, 100);
    assert_eq!(state.action_input, "");
    assert!(!state.action_editing);
    assert!(!submit(&mut state, "End Turn"));
    assert_eq!(state.player_turn, 0);
    assert_eq!(state.turn, 2);
    assert_eq!(state.civilizations[0].resources.ressources, 105);
    assert!(!submit(&mut state, "end    turn"));
    assert_eq!(state.player_turn, 1);
}

#[test]
fn end_with_anything_else_is_no_command() {
    let mut state = fresh();
    assert!(submit(&mut state, "end game"));
    assert_eq!(state.popup.as_ref().unwrap().kind, PopupKind::Action);
    assert_eq!(state.popup.as_ref().unwrap().prompt, "Unknown action: end game");
    assert_eq!(state.player_turn, 0);
    assert!(submit(&mut state, "end turn now"));
    assert_eq!(state.player_turn, 0);
}

#[test]
fn the_turn_counter_stops_at_its_largest_value() {
    let mut state = fresh();
    state.turn = i32::MAX;
    state.player_turn = 1;
    assert!(!submit(&mut state, "end"));
    assert_eq!(state.player_turn, 0);
    assert_eq!(state.turn, i32::MAX);
}

#[test]
fn an_unknown_verb_opens_a_popup() {
    let mut state = fresh();
    assert!(submit(&mut state, "  Dance  Wildly "));
    let p = state.popup.as_ref().unwrap();
    assert_eq!(p.kind, PopupKind::Action);
    assert_eq!(p.title(), "Action");
    assert_eq!(p.prompt, "Unknown action: dance  wildly");
    assert!(p.choices.is_empty());
    assert_eq!(state.action_input, "  Dance  Wildly ");
}

#[test]
fn an_empty_line_does_nothing() {
    for line in ["", "   ", "\t\n"] {
        let mut state = fresh();
        assert!(!submit(&mut state, line));
        assert!(state.popup.is_none());
        assert_eq!(state.action_input, "");
        assert!(!state.action_editing);
        assert_eq!(state.player_turn, 0);
    }
}

#[test]
fn execute_takes_the_words_as_given() {
    let mut state = fresh();
    assert!(!state.execute("build farm", &strings(&["build", "farm"])));
    assert_eq!(state.civilizations[0].constructions.len(), 1);
    assert!(state.execute("anything", &strings(&["Build", "farm"])));
    assert_eq!(state.popup.as_ref().unwrap().prompt, "Unknown action: anything");
    assert!(!state.execute("", &strings(&[])));
    assert!(state.execute("end", &strings(&["end", "turn"])));
    assert_eq!(state.player_turn, 1);
    assert_eq!(state.popup.as_ref().unwrap().prompt, "Unknown action: anything");
    state.close_popup();
    assert!(!state.execute("end", &strings(&["end"])));
    assert_eq!(state.player_turn, 0);
}

#[test]
fn a_number_picks_the_choice_at_that_place() {
    let choices = strings(&["Farm", "Barracks"]);
    assert_eq!(resolve_choice(&choices, "1"), Some(0));
    assert_eq!(resolve_choice(&choices, "2"), Some(1));
    assert_eq!(resolve_choice(&choices, " 2 "), Some(1));
    assert_eq!(resolve_choice(&choices, "+1"), Some(0));
    assert_eq!(resolve_choice(&choices, "3"), None);
    assert_eq!(resolve_choice(&choices, "0"), None);
    assert_eq!(resolve_choice(&choices, "99999999999999999999999"), None);
}

#[test]
fn a_prefix_picks_the_first_choice_that_starts_with_it() {
    let choices = strings(&["Farm", "Barracks"]);
    assert_eq!(resolve_choice(&choices, "bar"), Some(1));
    assert_eq!(resolve_choice(&choices, "BAR"), Some(1));
    assert_eq!(resolve_choice(&choices, "farm"), Some(0));
    assert_eq!(resolve_choice(&choices, "F"), Some(0));
    assert_eq!(resolve_choice(&choices, "Barracks"), Some(1));
    assert_eq!(resolve_choice(&choices, "barracks!"), None);
    assert_eq!(resolve_choice(&choices, "arm"), None);
    assert_eq!(resolve_choice(&choices, ""), Some(0));
    let twins = strings(&["Bakery", "Barracks", "Bank"]);
    assert_eq!(resolve_choice(&twins, "ba"), Some(0));
    assert_eq!(resolve_choice(&twins, "ban"), Some(2));
    assert_eq!(resolve_choice(&strings(&[]), "1"), None);
    assert_eq!(resolve_choice(&strings(&[]), ""), None);
}

#[test]
fn a_number_that_names_no_choice_may_still_be_a_prefix() {
    let choices = strings(&["7 Wonders", "Farm"]);
    assert_eq!(resolve_choice(&choices, "7"), Some(0));
    assert_eq!(resolve_choice(&choices, "2"), Some(1));
    assert_eq!(resolve_choice(&choices, "1"), Some(0));
}

#[test]
fn pick_choice_compares_as_given() {
    let choices = strings(&["farm", "barracks"]);
    assert_eq!(pick_choice(&choices, Some(2), "farm"), Some(1));
    assert_eq!(pick_choice(&choices, Some(3), "farm"), Some(0));
    assert_eq!(pick_choice(&choices, Some(0), "b"), Some(1));
    assert_eq!(pick_choice(&choices, None, "Farm"), None);
    assert_eq!(pick_choice(&choices, None, ""), Some(0));
    assert_eq!(pick_choice(&choices, Some(u64::MAX), "x"), None);
}

#[test]
fn names_are_listed_and_lowercased() {
    let state = fresh();
    assert_eq!(names_of_others(&state.civilizations, 0), strings(&["IA"]));
    assert_eq!(names_of_others(&state.civilizations, 1), strings(&["Player"]));
    assert_eq!(names_of_others(&state.civilizations, 5), strings(&["Player", "IA"]));
    assert_eq!(to_lowercase_all(&strings(&["Farm", "IA", "x"])), strings(&["farm", "ia", "x"]));
}

#[test]
fn submitting_a_build_popup_builds() {
    let mut state = fresh();
    state.action_input = "build".to_string();
    state.popup = Some(popup(PopupKind::Build, &["Farm", "Barracks"], "bar"));
    state.submit_popup();
    assert!(state.popup.is_none());
    assert_eq!(state.action_input, "");
    assert!(!state.action_editing);
    assert_eq!(state.civilizations[0].constructions[0].id_building, "Barracks");
    assert_eq!(state.civilizations[0].resources.ressources, 80);
}

#[test]
fn submitting_a_popup_by_number() {
    let mut state = fresh();
    state.popup = Some(popup(PopupKind::Build, &["Farm", "Barracks"], "1"));
    state.submit_popup();
    assert!(state.popup.is_none());
    assert_eq!(state.civilizations[0].constructions[0].id_building, "Farm");
}

#[test]
fn an_input_that_picks_nothing_closes_the_popup_and_does_nothing() {
    let mut state = fresh();
    state.action_input = "build".to_string();
    state.popup = Some(popup(PopupKind::Build, &["Farm", "Barracks"], "zzz"));
    state.submit_popup();
    assert!(state.popup.is_none());
    assert_eq!(state.action_input, "");
    assert!(state.civilizations[0].constructions.is_empty());
    assert_eq!(state.civilizations[0].resources.ressources, 100);
}

#[test]
fn a_choice_that_names_no_template_does_nothing() {
    let mut state = fresh();
    state.popup = Some(popup(PopupKind::Build, &["Castle"], "1"));
    state.submit_popup();
    assert!(state.popup.is_none());
    assert!(state.civilizations[0].constructions.is_empty());
    state.popup = Some(popup(PopupKind::Hire, &["Archer"], "1"));
    state.submit_popup();
    assert!(state.popup.is_none());
    state.popup = Some(popup(PopupKind::Attack, &["Rome"], "1"));
    state.submit_popup();
    assert!(state.popup.is_none());
}

#[test]
fn a_popup_that_is_refused_gives_way_to_the_reason() {
    let mut state = fresh();
    state.civilizations[0].resources.ressources = 3;
    state.action_input = "build".to_string();
    state.popup = Some(popup(PopupKind::Build, &["Farm", "Barracks"], "1"));
    state.submit_popup();
    let p = state.popup.as_ref().unwrap();
    assert_eq!(p.kind, PopupKind::Build);
    assert_eq!(p.prompt, "Not enough resources for building");
    assert!(p.choices.is_empty());
    assert_eq!(state.action_input, "build");
    assert_eq!(state.civilizations[0].resources.ressources, 3);
    state.popup = Some(popup(PopupKind::Hire, &["Warrior"], "w"));
    state.submit_popup();
    assert_eq!(
        state.popup.as_ref().unwrap().prompt,
        "No building able to produce this unit is present"
    );
    state.popup = Some(popup(PopupKind::Attack, &["IA"], "ia"));
    state.submit_popup();
    assert_eq!(state.popup.as_ref().unwrap().prompt, "No units available to send");
    assert_eq!(state.popup.as_ref().unwrap().kind, PopupKind::Attack);
}

#[test]
fn submitting_a_hire_popup_recruits() {
    let mut state = fresh();
    state.civilizations[0]
        .city
        .buildings
        .push(BuildingInstance { id_building: "Barracks".to_string(), level: 1 });
    state.popup = Some(popup(PopupKind::Hire, &["Warrior"], ""));
    state.submit_popup();
    assert!(state.popup.is_none());
    assert_eq!(state.civilizations[0].recruitments.len(), 1);
}

#[test]
fn submitting_an_attack_popup_sends_everybody() {
    let mut state = fresh();
    state.civilizations[0]
        .city
        .units
        .push(UnitInstance { id_units: "Warrior".to_string(), nb_units: 6 });
    state.popup = Some(popup(PopupKind::Attack, &["IA"], "1"));
    state.submit_popup();
    assert!(state.popup.is_none());
    assert_eq!(state.travels.len(), 1);
    assert_eq!(state.travels[0].amount, 6);
    assert_eq!(state.travels[0].defender, 1);
}

#[test]
fn popups_that_only_tell_are_closed() {
    for kind in [PopupKind::Action, PopupKind::Battle, PopupKind::GameOver] {
        let mut state = fresh();
        state.action_input = "x".to_string();
        state.action_editing = true;
        state.popup = Some(popup(kind, &[], "whatever"));
        state.submit_popup();
        assert!(state.popup.is_none());
        assert_eq!(state.action_input, "");
        assert!(!state.action_editing);
        state.popup = Some(popup(kind, &["Farm"], "1"));
        state.submit_popup();
        assert!(state.popup.is_none());
        assert!(state.civilizations[0].constructions.is_empty());
    }
}

#[test]
fn submitting_without_a_popup_changes_nothing() {
    let mut state = fresh();
    state.action_input = "keep".to_string();
    state.action_editing = true;
    state.submit_popup();
    assert_eq!(state.action_input, "keep");
    assert!(state.action_editing);
}

#[test]
fn every_refusal_has_its_text() {
    let b = PopupKind::Build;
    let h = PopupKind::Hire;
    let a = PopupKind::Attack;
    assert_eq!(refusal_message(b, ActionError::UnknownBuilding, "x"), "Unknown building: x");
    assert_eq!(refusal_message(h, ActionError::UnknownUnit, "y"), "Unknown unit: y");
    assert_eq!(
        refusal_message(b, ActionError::AlreadyInProgress, ""),
        "Another construction is already in progress"
    );
    assert_eq!(
        refusal_message(h, ActionError::AlreadyInProgress, ""),
        "Another recruitment is already in progress"
    );
    assert_eq!(refusal_message(b, ActionError::NoSlot, ""), "No available building slots");
    assert_eq!(refusal_message(h, ActionError::NoSlot, ""), "No available unit slots");
    assert_eq!(
        refusal_message(b, ActionError::InsufficientResources, ""),
        "Not enough resources for building"
    );
    assert_eq!(
        refusal_message(h, ActionError::InsufficientResources, ""),
        "Not enough resources to recruit unit"
    );
    assert_eq!(
        refusal_message(h, ActionError::NoProducer, ""),
        "No building able to produce this unit is present"
    );
    assert_eq!(refusal_message(a, ActionError::InvalidIndex, ""), "Invalid civilization index");
    assert_eq!(refusal_message(a, ActionError::SelfAttack, ""), "Cannot attack yourself");
    assert_eq!(refusal_message(a, ActionError::GameOver, ""), "Game is over");
    assert_eq!(refusal_message(a, ActionError::AttackerDead, ""), "Attacker is not alive");
    assert_eq!(refusal_message(a, ActionError::DefenderDead, ""), "Target is already defeated");
    assert_eq!(refusal_message(b, ActionError::CivilizationDead, ""), "Civilization is not alive");
    assert_eq!(refusal_message(b, ActionError::GameOver, ""), "Game is over");
    assert_eq!(refusal_message(a, ActionError::NoUnitsAvailable, ""), "No units available to send");
    assert_eq!(refusal_message(a, ActionError::InvalidAmount, ""), "Invalid amount to send");
    assert_eq!(refusal_message(a, ActionError::NoPath, ""), "No path to target");
}

#[test]
fn nothing_is_carried_out_once_the_game_is_over() {
    let cases = [
        ("build farm", PopupKind::Build),
        ("build", PopupKind::Build),
        ("hire warrior", PopupKind::Hire),
        ("recruit", PopupKind::Hire),
        ("attack ia", PopupKind::Attack),
        ("attack", PopupKind::Attack),
        ("end", PopupKind::Action),
        ("end turn", PopupKind::Action),
        ("dance", PopupKind::Action),
    ];
    for (line, kind) in cases {
        let mut state = fresh();
        state.civilizations[0]
            .city
            .buildings
            .push(BuildingInstance { id_building: "Barracks".to_string(), level: 1 });
        state.civilizations[0]
            .city
            .units
            .push(UnitInstance { id_units: "Warrior".to_string(), nb_units: 8 });
        state.game_over = true;
        assert!(submit(&mut state, line), "{line}");
        let p = state.popup.as_ref().unwrap();
        assert_eq!(p.kind, kind, "{line}");
        assert_eq!(p.prompt, "Game is over", "{line}");
        assert!(p.choices.is_empty());
        assert_eq!(state.civilizations[0].resources.ressources, 100);
        assert!(state.civilizations[0].constructions.is_empty());
        assert!(state.civilizations[0].recruitments.is_empty());
        assert_eq!(state.civilizations[0].city.units[0].nb_units, 8);
        assert!(state.travels.is_empty());
        assert_eq!((state.player_turn, state.turn), (0, 1));
        assert_eq!(state.action_input, line);
        assert!(!state.action_editing);
    }
}

#[test]
fn an_empty_line_is_still_nothing_once_the_game_is_over() {
    let mut state = fresh();
    state.game_over = true;
    assert!(!submit(&mut state, "  "));
    assert!(state.popup.is_none());
}

#[test]
fn orders_are_refused_once_the_game_is_over() {
    let mut state = fresh();
    state.civilizations[0]
        .city
        .buildings
        .push(BuildingInstance { id_building: "Barracks".to_string(), level: 1 });
    state.game_over = true;
    assert_eq!(state.start_construction(0, "Farm"), Err(ActionError::GameOver));
    assert_eq!(state.start_construction(0, "Castle"), Err(ActionError::GameOver));
    assert_eq!(state.start_recruitment(0, "Warrior"), Err(ActionError::GameOver));
    assert_eq!(state.civilizations[0].resources.ressources, 100);
    state.popup = Some(popup(PopupKind::Build, &["Farm"], "1"));
    state.submit_popup();
    assert_eq!(state.popup.as_ref().unwrap().prompt, "Game is over");
    assert!(state.civilizations[0].constructions.is_empty());
}

#[test]
fn a_dead_civilization_orders_nothing() {
    let mut state = fresh();
    state.civilizations.push(engine::setup::found(state.civilizations[1].city.clone()));
    state.civilizations[0]
        .city
        .buildings
        .push(BuildingInstance { id_building: "Barracks".to_string(), level: 1 });
    state.civilizations[0].alive = false;
    assert_eq!(state.start_construction(0, "Farm"), Err(ActionError::CivilizationDead));
    assert_eq!(state.start_construction(0, "Castle"), Err(ActionError::CivilizationDead));
    assert_eq!(state.start_recruitment(0, "Warrior"), Err(ActionError::CivilizationDead));
    assert!(submit(&mut state, "build farm"));
    assert_eq!(state.popup.as_ref().unwrap().kind, PopupKind::Build);
    assert_eq!(state.popup.as_ref().unwrap().prompt, "Civilization is not alive");
    assert!(submit(&mut state, "hire warrior"));
    assert_eq!(state.popup.as_ref().unwrap().kind, PopupKind::Hire);
    assert_eq!(state.popup.as_ref().unwrap().prompt, "Civilization is not alive");
    assert_eq!(state.civilizations[0].resources.ressources, 100);
    assert!(state.civilizations[0].constructions.is_empty());
    assert!(state.civilizations[0].recruitments.is_empty());
    assert_eq!(state.start_construction(1, "Farm"), Ok(()));
    state.popup = None;
    assert!(!submit(&mut state, "end"));
    assert_eq!(state.player_turn, 1);
}

#[test]
fn end_tells_of_the_popup_that_the_next_turn_brings() {
    let mut state = fresh();
    state.civilizations[1].alive = false;
    assert!(submit(&mut state, "end"));
    assert_eq!(state.popup.as_ref().unwrap().kind, PopupKind::GameOver);
    assert!(state.game_over);
    assert_eq!(state.player_turn, 1);
}
