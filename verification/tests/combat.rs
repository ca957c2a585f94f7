use engine::ast::{City, PlayerType, UnitDef, UnitInstance};
use engine::combat::{army_power, army_size, remove_units};
use engine::map::{GameMap, Terrain};
use engine::setup::found;
use engine::state::{ActionError, GameState, PopupKind, Travel};

fn grid(rows: &[&str]) -> GameMap {
    let tiles = rows
        .iter()
        .map(|row| {
            row.chars()
                .map(|c| match c {
                    '~' => Terrain::Water,
                    '^' => Terrain::Mountain,
                    _ => Terrain::Plains,
                })
                .collect()
        })
        .collect();
    GameMap::from_tiles("test".to_string(), tiles).unwrap()
}

fn stack(name: &str, count: u32) -> UnitInstance {
    UnitInstance { id_units: name.to_string(), nb_units: count }
}

fn city(name: &str, x: u32, y: u32) -> City {
    City {
        name: name.to_string(),
        x,
        y,
        buildings: vec![],
        units: vec![],
        color: "#FFFFFF".to_string(),
        nb_slots_buildings: 5,
        nb_slots_units: 10,
        player_type: PlayerType::PLAYER,
        starting_resources: 0,
    }
}

/// Two cities on a row of plains, `gap` steps apart.
fn duel(gap: u32) -> GameState {
    let row = ".".repeat(gap as usize + 1);
    let mut state = GameState::new(grid(&[row.as_str()]));
    state.civilizations = vec![found(city("A", 0, 0)), found(city("B", gap, 0))];
    state
}

fn counts(units: &[UnitInstance]) -> Vec<(String, u32)> {
    units.iter().map(|u| (u.id_units.clone(), u.nb_units)).collect()
}

#[test]
fn losses_hit_the_smallest_stack_first() {
    let mut units = vec![stack("a", 5), stack("b", 2), stack("c", 9)];
    assert_eq!(remove_units(&mut units, 3), 3);
    assert_eq!(counts(&units), vec![("a".to_string(), 4), ("c".to_string(), 9)]);
}

#[test]
fn losses_within_one_stack_shrink_it() {
    let mut units = vec![stack("a", 5), stack("b", 7)];
    assert_eq!(remove_units(&mut units, 4), 4);
    assert_eq!(counts(&units), vec![("a".to_string(), 1), ("b".to_string(), 7)]);
    assert_eq!(remove_units(&mut units, 1), 1);
    assert_eq!(counts(&units), vec![("b".to_string(), 7)]);
}

#[test]
fn among_equal_stacks_the_first_loses() {
    let mut units = vec![stack("a", 3), stack("b", 3), stack("c", 3)];
    assert_eq!(remove_units(&mut units, 1), 1);
    assert_eq!(counts(&units), vec![("a".to_string(), 2), ("b".to_string(), 3), ("c".to_string(), 3)]);
    assert_eq!(remove_units(&mut units, 4), 4);
    assert_eq!(counts(&units), vec![("b".to_string(), 1), ("c".to_string(), 3)]);
}

#[test]
fn losses_stop_when_nobody_is_left() {
    let mut units = vec![stack("a", 2), stack("b", 1)];
    assert_eq!(remove_units(&mut units, 10), 3);
    assert!(units.is_empty());
    assert_eq!(remove_units(&mut units, 10), 0);
}

#[test]
fn no_losses_change_nothing() {
    let mut units = vec![stack("a", 2), stack("b", 0)];
    assert_eq!(remove_units(&mut units, 0), 0);
    assert_eq!(counts(&units), vec![("a".to_string(), 2), ("b".to_string(), 0)]);
    assert_eq!(remove_units(&mut units, 1), 1);
    assert_eq!(counts(&units), vec![("a".to_string(), 1)]);
}

#[test]
fn power_is_count_times_attack() {
    let defs = vec![
        UnitDef { name: "Warrior".to_string(), attack: 1 },
        UnitDef { name: "Knight".to_string(), attack: 3 },
    ];
    assert_eq!(army_power(&defs, &[].to_vec()), 0);
    assert_eq!(army_power(&defs, &vec![stack("Warrior", 4)]), 4);
    assert_eq!(army_power(&defs, &vec![stack("Warrior", 4), stack("Knight", 4)]), 16);
    assert_eq!(army_power(&defs, &vec![stack("Ghost", 100), stack("Knight", 2)]), 6);
    assert_eq!(army_size(&vec![stack("Ghost", 100), stack("Knight", 2)]), 102);
}

#[test]
fn power_stops_at_64_bits() {
    let defs = vec![UnitDef { name: "Titan".to_string(), attack: u32::MAX }];
    let one = (u32::MAX as u64) * (u32::MAX as u64);
    assert_eq!(army_power(&defs, &vec![stack("Titan", u32::MAX)]), one);
    let many = vec![stack("Titan", u32::MAX); 5];
    assert_eq!(army_power(&defs, &many), u64::MAX);
    assert_eq!(army_size(&many), 5 * (u32::MAX as u128));
}

#[test]
fn city_power_reads_the_city() {
    let mut state = duel(4);
    state.units.push(UnitDef { name: "Knight".to_string(), attack: 5 });
    state.civilizations[1].city.units = vec![stack("Warrior", 4), stack("Knight", 2)];
    assert_eq!(state.calculate_city_power(0), 0);
    assert_eq!(state.calculate_city_power(1), 14);
}

#[test]
fn remove_units_from_city_reports_what_it_took() {
    let mut state = duel(4);
    state.civilizations[0].city.units = vec![stack("Warrior", 4), stack("Scout", 1)];
    assert_eq!(state.remove_units_from_city(0, 3), 3);
    assert_eq!(counts(&state.civilizations[0].city.units), vec![("Warrior".to_string(), 2)]);
    assert_eq!(state.remove_units_from_city(0, 9), 2);
    assert!(state.civilizations[0].city.units.is_empty());
    assert!(state.civilizations[1].city.units.is_empty());
}

#[test]
fn an_attack_needs_two_civilizations_of_the_game() {
    let mut state = duel(4);
    state.civilizations[0].city.units = vec![stack("Warrior", 4)];
    assert_eq!(state.start_attack(0, 2, None), Err(ActionError::InvalidIndex));
    assert_eq!(state.start_attack(2, 0, None), Err(ActionError::InvalidIndex));
    assert_eq!(state.start_attack(7, 7, None), Err(ActionError::InvalidIndex));
    assert_eq!(state.start_attack(0, 0, None), Err(ActionError::SelfAttack));
    assert!(state.travels.is_empty());
    assert_eq!(state.civilizations[0].city.units[0].nb_units, 4);
}

#[test]
fn an_attack_is_refused_when_the_game_is_over_or_a_side_is_dead() {
    let mut state = duel(4);
    state.civilizations[0].city.units = vec![stack("Warrior", 4)];
    state.game_over = true;
    assert_eq!(state.start_attack(0, 1, None), Err(ActionError::GameOver));
    state.game_over = false;
    state.civilizations[0].alive = false;
    assert_eq!(state.start_attack(0, 1, None), Err(ActionError::AttackerDead));
    state.civilizations[0].alive = true;
    state.civilizations[1].alive = false;
    assert_eq!(state.start_attack(0, 1, None), Err(ActionError::DefenderDead));
    assert!(state.travels.is_empty());
}

#[test]
fn an_attack_needs_units() {
    let mut state = duel(4);
    assert_eq!(state.start_attack(0, 1, None), Err(ActionError::NoUnitsAvailable));
    state.civilizations[0].city.units = vec![stack("Warrior", 0)];
    assert_eq!(state.start_attack(0, 1, Some(3)), Err(ActionError::NoUnitsAvailable));
    state.civilizations[0].city.units = vec![stack("Warrior", 2)];
    assert_eq!(state.start_attack(0, 1, Some(0)), Err(ActionError::InvalidAmount));
    assert_eq!(state.civilizations[0].city.units[0].nb_units, 2);
    assert!(state.travels.is_empty());
}

#[test]
fn an_attack_needs_a_path() {
    let mut state = GameState::new(grid(&[".^.", ".^."]));
    state.civilizations = vec![found(city("A", 0, 0)), found(city("B", 2, 1))];
    state.civilizations[0].city.units = vec![stack("Warrior", 5)];
    assert_eq!(state.start_attack(0, 1, None), Err(ActionError::NoPath));
    assert_eq!(state.civilizations[0].city.units[0].nb_units, 5);
    assert!(state.travels.is_empty());
    state.civilizations[1].city.x = 9;
    assert_eq!(state.start_attack(0, 1, None), Err(ActionError::NoPath));
}

#[test]
fn the_army_leaves_at_once() {
    let mut state = duel(5);
    state.civilizations[0].city.units = vec![stack("Warrior", 7), stack("Scout", 2)];
    assert_eq!(state.start_attack(0, 1, Some(4)), Ok(()));
    assert_eq!(counts(&state.civilizations[0].city.units), vec![("Warrior".to_string(), 5)]);
    assert_eq!(state.travels.len(), 1);
    let march = &state.travels[0];
    assert_eq!((march.attacker, march.defender, march.amount), (0, 1, 4));
    assert_eq!((march.remaining, march.total), (2, 2));
    assert_eq!(march.path, vec![(0, 0), (1, 0), (2, 0), (3, 0), (4, 0), (5, 0)]);
    assert!(state.is_well_formed());
}

#[test]
fn without_a_number_everybody_goes() {
    let mut state = duel(3);
    state.civilizations[0].city.units = vec![stack("Warrior", 7), stack("Scout", 2)];
    assert_eq!(state.start_attack(0, 1, None), Ok(()));
    assert!(state.civilizations[0].city.units.is_empty());
    assert_eq!(state.travels[0].amount, 9);
    assert_eq!(state.travels[0].total, 1);
}

#[test]
fn a_number_beyond_the_army_sends_the_army() {
    let mut state = duel(3);
    state.civilizations[0].city.units = vec![stack("Warrior", 7)];
    assert_eq!(state.start_attack(0, 1, Some(50)), Ok(()));
    assert!(state.civilizations[0].city.units.is_empty());
    assert_eq!(state.travels[0].amount, 7);
}

#[test]
fn the_march_takes_the_turns_that_the_terrain_asks_for() {
    let mut state = GameState::new(grid(&[".~~."]));
    state.civilizations = vec![found(city("A", 0, 0)), found(city("B", 3, 0))];
    state.civilizations[0].city.units = vec![stack("Warrior", 1)];
    assert_eq!(state.start_attack(0, 1, None), Ok(()));
    assert_eq!(state.travels[0].total, 3);
    let mut state = GameState::new(grid(&["."]));
    state.civilizations = vec![found(city("A", 0, 0)), found(city("B", 0, 0))];
    state.civilizations[0].city.units = vec![stack("Warrior", 1)];
    assert_eq!(state.start_attack(0, 1, None), Ok(()));
    assert_eq!(state.travels[0].total, 1);
    assert_eq!(state.travels[0].path, vec![(0, 0)]);
}

#[test]
fn ten_against_four_after_two_turns() {
    let mut state = duel(5);
    state.civilizations[0].city.units = vec![stack("Warrior", 10)];
    state.civilizations[1].city.units = vec![stack("Warrior", 4)];
    assert_eq!(state.calculate_city_power(1), 4);
    assert_eq!(state.start_attack(0, 1, Some(10)), Ok(()));
    assert_eq!(state.travels[0].remaining, 2);
    state.on_turn_start(1);
    assert_eq!(state.travels.len(), 1);
    assert_eq!(state.travels[0].remaining, 1);
    assert!(state.civilizations[1].alive);
    assert_eq!(state.civilizations[1].city.units[0].nb_units, 4);
    state.on_turn_start(0);
    assert!(state.travels.is_empty());
    assert!(!state.civilizations[1].alive);
    assert!(state.civilizations[1].city.units.is_empty());
    assert!(state.civilizations[0].alive);
    assert!(state.civilizations[0].city.units.is_empty());
}

#[test]
fn a_march_counts_down_by_one_each_turn_and_is_gone_on_arrival() {
    let mut state = duel(12);
    state.civilizations[0].city.units = vec![stack("Warrior", 1)];
    state.civilizations[1].city.units = vec![stack("Warrior", 9)];
    assert_eq!(state.start_attack(0, 1, None), Ok(()));
    assert_eq!(state.travels[0].total, 4);
    for left in [3, 2, 1] {
        state.on_turn_start(left % 2);
        assert_eq!(state.travels.len(), 1);
        assert_eq!(state.travels[0].remaining, left as u32);
        assert_eq!(state.travels[0].total, 4);
        assert!(state.is_well_formed());
    }
    state.on_turn_start(0);
    assert!(state.travels.is_empty());
}

#[test]
fn an_attack_that_fails_costs_the_defender_half_the_attackers() {
    let mut state = duel(2);
    state.civilizations.push(found(city("C", 1, 0)));
    state.civilizations[0].city.units = vec![stack("Warrior", 7)];
    state.civilizations[1].city.units = vec![stack("Warrior", 6), stack("Scout", 2), stack("Warrior", 2)];
    assert_eq!(state.start_attack(0, 1, None), Ok(()));
    state.on_turn_start(2);
    assert!(state.travels.is_empty());
    assert!(state.civilizations[1].alive);
    assert_eq!(
        counts(&state.civilizations[1].city.units),
        vec![("Warrior".to_string(), 6), ("Warrior".to_string(), 1)]
    );
    assert!(state.civilizations[0].city.units.is_empty());
    assert!(!state.game_over);
    let popup = state.popup.as_ref().unwrap();
    assert_eq!(popup.kind, PopupKind::Battle);
    assert_eq!(popup.title(), "Battle");
    assert_eq!(popup.prompt, "A attacked B (7 vs 8) \u{2014} attack failed, defender lost 3 units");
    assert!(popup.choices.is_empty());
}

#[test]
fn equal_strength_does_not_win() {
    let mut state = duel(1);
    state.civilizations.push(found(city("C", 1, 0)));
    state.civilizations[0].city.units = vec![stack("Warrior", 4)];
    state.civilizations[1].city.units = vec![stack("Warrior", 4)];
    assert_eq!(state.start_attack(0, 1, None), Ok(()));
    state.on_turn_start(0);
    assert!(state.civilizations[1].alive);
    assert_eq!(state.civilizations[1].city.units[0].nb_units, 2);
}

#[test]
fn a_strong_defender_with_few_units_loses_them_all_and_lives() {
    let mut state = duel(1);
    state.civilizations.push(found(city("C", 1, 0)));
    state.units.push(UnitDef { name: "Giant".to_string(), attack: 100 });
    state.civilizations[0].city.units = vec![stack("Warrior", 50)];
    state.civilizations[1].city.units = vec![stack("Giant", 1)];
    assert_eq!(state.start_attack(0, 1, None), Ok(()));
    state.on_turn_start(0);
    assert!(state.civilizations[1].alive);
    assert!(state.civilizations[1].city.units.is_empty());
    assert_eq!(
        state.popup.as_ref().unwrap().prompt,
        "A attacked B (50 vs 100) \u{2014} attack failed, defender lost 1 units"
    );
}

#[test]
fn the_winner_of_a_battle_is_reported() {
    let mut state = duel(1);
    state.civilizations.push(found(city("C", 1, 0)));
    state.civilizations[0].city.units = vec![stack("Warrior", 10)];
    state.civilizations[1].city.units = vec![stack("Warrior", 4)];
    assert_eq!(state.start_attack(0, 1, None), Ok(()));
    state.action_editing = true;
    state.on_turn_start(0);
    assert!(!state.civilizations[1].alive);
    assert!(!state.game_over);
    assert!(!state.action_editing);
    let popup = state.popup.as_ref().unwrap();
    assert_eq!(popup.kind, PopupKind::Battle);
    assert_eq!(popup.prompt, "A attacked B (10 vs 4) \u{2014} defender eliminated");
    assert_eq!(popup.input, "");
}

#[test]
fn an_army_that_finds_a_side_dead_does_nothing() {
    let mut state = duel(1);
    state.civilizations.push(found(city("C", 1, 0)));
    state.civilizations.push(found(city("D", 0, 0)));
    state.civilizations[1].city.units = vec![stack("Warrior", 4)];
    state.travels.push(Travel { attacker: 0, defender: 1, amount: 10, remaining: 1, total: 1, path: vec![] });
    state.civilizations[0].alive = false;
    state.on_turn_start(2);
    assert!(state.travels.is_empty());
    assert!(state.civilizations[1].alive);
    assert_eq!(state.civilizations[1].city.units[0].nb_units, 4);
    assert!(state.popup.is_none());
}

#[test]
fn arrivals_are_resolved_from_the_end_of_the_list() {
    let mut state = duel(1);
    state.civilizations.push(found(city("C", 1, 0)));
    state.civilizations.push(found(city("D", 0, 0)));
    state.civilizations[1].city.units = vec![stack("Warrior", 8)];
    state.travels.push(Travel { attacker: 0, defender: 1, amount: 6, remaining: 1, total: 1, path: vec![] });
    state.travels.push(Travel { attacker: 2, defender: 1, amount: 6, remaining: 2, total: 2, path: vec![] });
    state.travels.push(Travel { attacker: 3, defender: 1, amount: 8, remaining: 1, total: 1, path: vec![] });
    state.on_turn_start(0);
    // The last march arrives first: 8 against 8 fails and costs 4; then 6 against 4 wins.
    assert!(!state.civilizations[1].alive);
    assert!(state.civilizations[1].city.units.is_empty());
    assert_eq!(state.travels.len(), 1);
    assert_eq!((state.travels[0].attacker, state.travels[0].remaining), (2, 1));
    assert_eq!(
        state.popup.as_ref().unwrap().prompt,
        "A attacked B (6 vs 4) \u{2014} defender eliminated"
    );
    state.on_turn_start(0);
    assert!(state.travels.is_empty());
    assert_eq!(
        state.popup.as_ref().unwrap().prompt,
        "A attacked B (6 vs 4) \u{2014} defender eliminated"
    );
}

#[test]
fn the_game_is_over_when_one_civilization_is_left() {
    let mut state = duel(1);
    state.civilizations[0].city.units = vec![stack("Warrior", 10)];
    assert_eq!(state.start_attack(0, 1, None), Ok(()));
    assert!(!state.game_over);
    state.on_turn_start(1);
    assert!(state.game_over);
    assert_eq!(state.winner, Some(0));
    let popup = state.popup.as_ref().unwrap();
    assert_eq!(popup.kind, PopupKind::GameOver);
    assert_eq!(popup.title(), "Game Over");
    assert_eq!(popup.prompt, "Winner: A");
    state.popup = None;
    state.on_turn_start(0);
    state.on_turn_start(1);
    assert!(state.game_over);
    assert_eq!(state.winner, Some(0));
    assert!(state.popup.is_none());
    state.civilizations[0].city.units = vec![stack("Warrior", 10)];
    assert_eq!(state.start_attack(0, 1, None), Err(ActionError::GameOver));
}

#[test]
fn a_game_without_survivors_has_no_winner() {
    let mut state = duel(1);
    state.civilizations[0].alive = false;
    state.civilizations[1].alive = false;
    state.check_victory();
    assert!(state.game_over);
    assert_eq!(state.winner, None);
    assert_eq!(state.popup.as_ref().unwrap().prompt, "No winners");
}

#[test]
fn the_win_check_leaves_a_running_game_alone() {
    let mut state = duel(1);
    state.check_victory();
    assert!(!state.game_over);
    assert_eq!(state.winner, None);
    assert!(state.popup.is_none());
}

#[test]
fn a_game_of_one_is_over_at_the_first_turn() {
    let mut state = duel(1);
    state.civilizations.pop();
    state.on_turn_start(0);
    assert!(state.game_over);
    assert_eq!(state.winner, Some(0));
}
