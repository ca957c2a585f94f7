use engine::ast::{BuildingInstance, PlayerType, UnitInstance};
use engine::game::{
    first_choice, possible_actions, Ai, AiView, Effect, Game, Key, UiState, MAX_ACTIONS,
};
use engine::map::{GameMap, Terrain};
use engine::random_ai::{count_actions, pick_action, pick_popup_input, RandomAi};
use engine::state::{Popup, PopupKind};

fn plains(width: usize, height: usize) -> GameMap {
    GameMap::from_tiles("seed7".to_string(), vec![vec![Terrain::Plains; width]; height]).unwrap()
}

fn fresh() -> Game {
    Game::new(plains(30, 30))
}

fn strings(items: &[&str]) -> Vec<String> {
    items.iter().map(|s| s.to_string()).collect()
}

fn keys(game: &mut Game, text: &str) {
    for c in text.chars() {
        game.handle_key(Key::Char(c));
    }
}

/// An agent that gives the commands of a list, one per request, and then
/// has none.
struct Scripted {
    commands: Vec<String>,
    inputs: Vec<String>,
    seen_popups: Vec<String>,
    asked: usize,
}

impl Scripted {
    fn new(commands: &[&str], inputs: &[&str]) -> Scripted {
        Scripted {
            commands: commands.iter().rev().map(|s| s.to_string()).collect(),
            inputs: inputs.iter().rev().map(|s| s.to_string()).collect(),
            seen_popups: vec![],
            asked: 0,
        }
    }
}

impl Ai for Scripted {
    fn select_action(&mut self, _view: &AiView, _civ_index: usize) -> Option<String> {
        self.asked += 1;
        self.commands.pop()
    }

    fn select_popup_input(&mut self, _view: &AiView, _civ_index: usize, popup: &Popup) -> String {
        self.seen_popups.push(popup.prompt.clone());
        self.inputs.pop().unwrap_or_default()
    }
}

/// An agent that never stops building.
struct Runaway;

impl Ai for Runaway {
    fn select_action(&mut self, _view: &AiView, _civ_index: usize) -> Option<String> {
        Some("build farm".to_string())
    }
}

/// An agent that leaves popups to the default.
struct Plain(Vec<String>);

impl Ai for Plain {
    fn select_action(&mut self, _view: &AiView, _civ_index: usize) -> Option<String> {
        self.0.pop()
    }
}

#[test]
fn a_new_game() {
    let game = fresh();
    assert!(game.is_well_formed());
    assert_eq!(game.ui_state(), UiState::Normal);
    assert_eq!(game.ui_color(), "#FFFFFF");
    assert_eq!(game.state().civilizations.len(), 2);
    assert_eq!(game.state().map.seed, "seed7");
    assert!(!game.agent_to_move());
}

#[test]
fn apply_action_types_and_submits() {
    let mut game = fresh();
    assert!(!game.apply_action("build farm"));
    assert_eq!(game.ui_state(), UiState::Normal);
    assert_eq!(game.state().civilizations[0].resources.ressources, 90);
    assert_eq!(game.state().action_input, "");
    assert!(game.apply_action("build farm"));
    assert_eq!(game.ui_state(), UiState::PopupOpen);
    assert_eq!(game.state().action_input, "build farm");
    assert_eq!(
        game.state().popup.as_ref().unwrap().prompt,
        "Another construction is already in progress"
    );
}

#[test]
fn submit_popup_input_needs_a_popup() {
    let mut game = fresh();
    assert!(!game.submit_popup_input("1"));
    assert_eq!(game.state().civilizations[0].resources.ressources, 100);
    assert!(game.apply_action("build"));
    assert!(game.submit_popup_input("2"));
    assert_eq!(game.ui_state(), UiState::Normal);
    assert!(game.state().popup.is_none());
    assert_eq!(game.state().civilizations[0].constructions[0].id_building, "Barracks");
    assert!(!game.submit_popup_input("2"));
}

#[test]
fn step_ends_the_turn_and_starts_the_next() {
    let mut game = fresh();
    for civ in 0..2 {
        game.state_mut().civilizations[civ]
            .city
            .buildings
            .push(BuildingInstance { id_building: "Farm".to_string(), level: 1 });
    }
    game.step();
    assert_eq!(game.state().player_turn, 1);
    assert_eq!(game.state().turn, 1);
    assert_eq!(game.state().civilizations[1].resources.ressources, 105);
    assert_eq!(game.state().civilizations[0].resources.ressources, 100);
    game.step();
    assert_eq!(game.state().player_turn, 0);
    assert_eq!(game.state().turn, 2);
    assert_eq!(game.state().civilizations[0].resources.ressources, 105);
    assert_eq!(game.state().civilizations[1].resources.ressources, 105);
    assert_eq!(game.ui_state(), UiState::Normal);
}

#[test]
fn step_does_what_end_does() {
    let mut stepped = fresh();
    let mut ended = fresh();
    for game in [&mut stepped, &mut ended] {
        game.apply_action("build farm");
        game.state_mut().civilizations[1]
            .city
            .buildings
            .push(BuildingInstance { id_building: "Farm".to_string(), level: 1 });
    }
    for _ in 0..4 {
        stepped.step();
        ended.apply_action("end");
    }
    let (a, b) = (stepped.snapshot_value(), ended.snapshot_value());
    assert_eq!((a.turn, a.player_turn), (b.turn, b.player_turn));
    assert_eq!(a.turn, 3);
    for (x, y) in a.players.iter().zip(b.players.iter()) {
        assert_eq!((x.resources, x.buildings, x.units), (y.resources, y.buildings, y.units));
    }
    assert_eq!(a.players[0].buildings, 1);
    assert_eq!(a.players[1].resources, 110);
}

#[test]
fn apply_action_tells_whether_a_popup_is_now_open() {
    let mut game = fresh();
    assert!(!game.apply_action("end"));
    assert_eq!(game.ui_state(), UiState::Normal);
    game.state_mut().civilizations[1].alive = false;
    assert!(game.apply_action("end"));
    assert_eq!(game.ui_state(), UiState::PopupOpen);
    let popup = game.state().popup.as_ref().unwrap();
    assert_eq!(popup.kind, PopupKind::GameOver);
    assert_eq!(popup.prompt, "Winner: Player");
    assert_eq!(game.state().player_turn, 0);
    assert_eq!(game.state().action_input, "");
}

#[test]
fn apply_action_sees_a_popup_that_a_battle_left() {
    let mut game = fresh();
    {
        let state = game.state_mut();
        let third = engine::setup::found(state.civilizations[1].city.clone());
        state.civilizations.push(third);
        state.civilizations[0].city.units.push(UnitInstance { id_units: "Warrior".to_string(), nb_units: 3 });
        state.travels.push(engine::state::Travel {
            attacker: 1,
            defender: 0,
            amount: 2,
            remaining: 1,
            total: 1,
            path: vec![],
        });
    }
    assert!(game.apply_action("end turn"));
    assert_eq!(game.ui_state(), UiState::PopupOpen);
    assert_eq!(game.state().popup.as_ref().unwrap().kind, PopupKind::Battle);
    assert_eq!(game.state().civilizations[0].city.units[0].nb_units, 2);
    assert!(game.apply_action("end"));
    assert!(game.submit_popup_input(""));
    assert!(!game.apply_action("end"));
}

#[test]
fn the_snapshot_describes_the_players() {
    let mut game = fresh();
    game.state_mut().civilizations[1]
        .city
        .units
        .push(UnitInstance { id_units: "Warrior".to_string(), nb_units: 9 });
    game.state_mut().civilizations[1].resources.ressources = -3;
    game.step();
    let shot = game.snapshot_value();
    assert_eq!(shot.turn, 1);
    assert_eq!(shot.player_turn, 1);
    assert_eq!(shot.seed, "seed7");
    assert_eq!(shot.players.len(), 2);
    assert_eq!(shot.players[0].name, "Player");
    assert_eq!(shot.players[0].resources, 100);
    assert_eq!((shot.players[0].buildings, shot.players[0].units), (0, 0));
    assert_eq!(shot.players[1].name, "IA");
    assert_eq!(shot.players[1].resources, -3);
    assert_eq!((shot.players[1].buildings, shot.players[1].units), (0, 1));
}

#[test]
fn the_view_of_an_agent_is_a_copy() {
    let mut game = fresh();
    let view = game.make_ai_view();
    assert_eq!(view.turn, 1);
    assert_eq!(view.player_turn, 0);
    assert_eq!(view.buildings, strings(&["Farm", "Barracks"]));
    assert_eq!(view.units, strings(&["Warrior"]));
    assert_eq!(view.seed, "seed7");
    assert_eq!(view.players.len(), 2);
    game.apply_action("build farm");
    assert_eq!(view.players[0].resources, 100);
    assert_eq!(game.make_ai_view().players[0].resources, 90);
}

#[test]
fn the_commands_that_make_sense() {
    let game = fresh();
    assert_eq!(
        game.ai_possible_actions(1),
        strings(&["end", "build farm", "build barracks", "hire warrior", "attack player"])
    );
    assert_eq!(
        game.ai_possible_actions(0),
        strings(&["end", "build farm", "build barracks", "hire warrior", "attack ia"])
    );
    assert_eq!(
        possible_actions(&strings(&[]), &strings(&[]), &strings(&["Rome"]), 0),
        strings(&["end"])
    );
    assert_eq!(
        possible_actions(&strings(&["A"]), &strings(&["B"]), &strings(&["C", "D"]), 7),
        strings(&["end", "build a", "hire b", "attack c", "attack d"])
    );
}

#[test]
fn an_agent_plays_until_it_has_no_command() {
    let mut game = fresh();
    game.step();
    game.register_ai(1, Box::new(Scripted::new(&["build farm", "hire warrior"], &[])));
    assert!(game.agent_to_move());
    game.run_ai_for_current_player();
    let state = game.state();
    assert_eq!(state.civilizations[1].constructions[0].id_building, "Farm");
    assert_eq!(state.civilizations[1].resources.ressources, 90);
    assert_eq!(state.player_turn, 0);
    assert_eq!(state.turn, 2);
    assert!(state.popup.is_none());
    assert!(game.is_well_formed());
}

#[test]
fn an_agent_answers_the_popup_that_its_command_opens() {
    let mut game = fresh();
    game.step();
    game.register_ai(1, Box::new(Scripted::new(&["build"], &["barr"])));
    game.run_ai_for_current_player();
    let state = game.state();
    assert_eq!(state.civilizations[1].constructions[0].id_building, "Barracks");
    assert!(state.popup.is_none());
    assert_eq!(state.player_turn, 0);
}

#[test]
fn an_agent_takes_the_first_choice_unless_it_says_otherwise() {
    let mut game = fresh();
    game.step();
    game.register_ai(1, Box::new(Plain(strings(&["build"]))));
    game.run_ai_for_current_player();
    assert_eq!(game.state().civilizations[1].constructions[0].id_building, "Farm");
    let choices = Popup {
        kind: PopupKind::Build,
        prompt: String::new(),
        choices: strings(&["Farm"]),
        input: "typed".to_string(),
    };
    assert_eq!(first_choice(&choices), "1");
    let bare = Popup { choices: vec![], ..choices };
    assert_eq!(first_choice(&bare), "typed");
}

#[test]
fn an_agent_that_says_end_passes_the_turn_on() {
    let mut game = fresh();
    game.state_mut().civilizations[0].city.player_type = PlayerType::AI;
    game.register_ai(0, Box::new(Scripted::new(&["end", "build farm"], &[])));
    game.register_ai(1, Box::new(Scripted::new(&["build barracks"], &[])));
    game.run_ai_for_current_player();
    let state = game.state();
    assert!(state.civilizations[0].constructions.is_empty());
    assert_eq!(state.civilizations[1].constructions[0].id_building, "Barracks");
    assert_eq!(state.player_turn, 0);
    assert_eq!(state.turn, 2);
}

#[test]
fn a_runaway_agent_is_stopped() {
    let mut game = fresh();
    game.step();
    game.register_ai(1, Box::new(Runaway));
    game.run_ai_for_current_player();
    assert_eq!(MAX_ACTIONS, 256);
    assert_eq!(game.state().player_turn, 1);
    assert_eq!(game.state().civilizations[1].constructions.len(), 1);
    assert_eq!(game.state().civilizations[1].resources.ressources, 90);
    assert!(game.is_well_formed());
}

#[test]
fn agents_play_only_the_cities_marked_for_them() {
    let mut game = fresh();
    game.register_ai(0, Box::new(Runaway));
    assert!(!game.agent_to_move());
    game.run_ai_for_current_player();
    assert!(game.state().civilizations[0].constructions.is_empty());
    game.step();
    assert!(!game.agent_to_move());
    game.run_ai_for_current_player();
    assert_eq!(game.state().player_turn, 1);
}

#[test]
fn registering_an_agent_makes_room() {
    let mut game = fresh();
    game.register_ai(5, Box::new(Runaway));
    game.register_ai(1, Box::new(Runaway));
    game.step();
    assert!(game.agent_to_move());
}

#[test]
fn the_random_agent_picks_among_the_commands_that_make_sense() {
    let game = fresh();
    let view = game.make_ai_view();
    let allowed = game.ai_possible_actions(1);
    assert_eq!(count_actions(&view, 1), allowed.len());
    for (i, action) in allowed.iter().enumerate() {
        assert_eq!(&pick_action(&view, 1, i), action);
    }
    let mut agent = RandomAi::new();
    for _ in 0..50 {
        let action = agent.select_action(&view, 1).unwrap();
        assert!(allowed.contains(&action), "{action}");
    }
}

#[test]
fn the_random_agent_answers_popups_by_number() {
    let game = fresh();
    let view = game.make_ai_view();
    let mut agent = RandomAi::new();
    let mut popup = Popup {
        kind: PopupKind::Build,
        prompt: String::new(),
        choices: strings(&["Farm", "Barracks", "Mill"]),
        input: "x".to_string(),
    };
    assert_eq!(pick_popup_input(&popup, 0), "1");
    assert_eq!(pick_popup_input(&popup, 2), "3");
    for _ in 0..50 {
        let input = agent.select_popup_input(&view, 1, &popup);
        assert!(["1", "2", "3"].contains(&input.as_str()), "{input}");
    }
    popup.choices.clear();
    assert_eq!(agent.select_popup_input(&view, 1, &popup), "");
    assert_eq!(pick_popup_input(&popup, 0), "");
}

#[test]
fn the_random_agent_plays_a_game() {
    let mut game = fresh();
    game.register_ai(1, Box::new(RandomAi::new()));
    for _ in 0..20 {
        game.apply_action("end");
        game.submit_popup_input("");
        game.run_ai_for_current_player();
        assert!(game.is_well_formed());
        if game.state().player_turn == 1 {
            game.apply_action("end");
        }
    }
    let civ = &game.state().civilizations[1];
    assert!(civ.city.buildings.len() + civ.constructions.len() <= 5);
    assert!(civ.resources.ressources >= 0);
}

#[test]
fn keys_on_the_idle_screen() {
    let mut game = fresh();
    assert!(matches!(game.handle_key(Key::Char('s')), Effect::Nothing));
    assert_eq!(game.ui_state(), UiState::EditingSeed);
    assert!(game.state().seed_editing);
    game.handle_key(Key::Esc);
    assert_eq!(game.ui_state(), UiState::Normal);
    assert!(!game.state().seed_editing);
    match game.handle_key(Key::Char('r')) {
        Effect::NewMap(request) => {
            assert!(request.seed.is_none());
            assert_eq!((request.width, request.height), (30, 30));
        }
        other => panic!("{other:?}"),
    }
    match game.handle_key(Key::Char('w')) {
        Effect::WriteMap { filename, content } => {
            assert_eq!(filename, "map_seed7.txt");
            assert_eq!(content, game.state().map.to_text());
            assert_eq!(content.len(), 31 * 30);
        }
        other => panic!("{other:?}"),
    }
    game.handle_key(Key::Char('z'));
    assert_eq!(game.state().zoom_level, 2);
    game.handle_key(Key::Char('Z'));
    assert_eq!(game.state().zoom_level, 3);
    game.handle_key(Key::Char('x'));
    game.handle_key(Key::Enter);
    game.handle_key(Key::Other);
    assert_eq!(game.ui_state(), UiState::Normal);
    game.handle_key(Key::Char('v'));
    assert_eq!(game.ui_state(), UiState::CameraMode);
    assert!(game.state().camera_mode);
}

#[test]
fn keys_in_the_seed_editor() {
    let mut game = fresh();
    game.handle_key(Key::Char('s'));
    keys(&mut game, "s9");
    game.handle_key(Key::Backspace);
    game.handle_key(Key::Other);
    assert_eq!(game.state().map.seed, "seed7s");
    match game.handle_key(Key::Enter) {
        Effect::NewMap(request) => {
            assert_eq!(request.seed.as_deref(), Some("seed7s"));
            assert_eq!((request.width, request.height), (30, 30));
        }
        other => panic!("{other:?}"),
    }
    assert_eq!(game.ui_state(), UiState::Normal);
    assert!(!game.state().seed_editing);
}

#[test]
fn keys_in_camera_mode() {
    let mut game = fresh();
    game.handle_key(Key::Char('V'));
    keys(&mut game, "ddDsSS");
    assert_eq!((game.state().camera_x, game.state().camera_y), (3, 3));
    keys(&mut game, "qzZ");
    assert_eq!((game.state().camera_x, game.state().camera_y), (2, 1));
    game.handle_key(Key::Char('a'));
    game.handle_key(Key::Enter);
    assert_eq!(game.ui_state(), UiState::CameraMode);
    game.handle_key(Key::Esc);
    assert_eq!(game.ui_state(), UiState::Normal);
    assert!(!game.state().camera_mode);
    game.handle_key(Key::Char('v'));
    game.handle_key(Key::Char('v'));
    assert_eq!(game.ui_state(), UiState::Normal);
}

#[test]
fn keys_while_typing_a_command() {
    let mut game = fresh();
    game.handle_key(Key::Char('a'));
    assert_eq!(game.ui_state(), UiState::ActionEditing);
    keys(&mut game, "build farmx");
    game.handle_key(Key::Backspace);
    assert_eq!(game.state().action_input, "build farm");
    game.handle_key(Key::Enter);
    assert_eq!(game.ui_state(), UiState::Normal);
    assert_eq!(game.state().civilizations[0].constructions.len(), 1);
    game.handle_key(Key::Char('a'));
    keys(&mut game, "build");
    game.handle_key(Key::Enter);
    assert_eq!(game.ui_state(), UiState::PopupOpen);
    game.handle_key(Key::Esc);
    game.handle_key(Key::Char('a'));
    keys(&mut game, "end");
    game.handle_key(Key::Esc);
    assert_eq!(game.ui_state(), UiState::Normal);
    assert!(!game.state().action_editing);
    assert_eq!(game.state().player_turn, 0);
}

#[test]
fn keys_while_a_popup_is_open() {
    let mut game = fresh();
    game.handle_key(Key::Char('a'));
    keys(&mut game, "build");
    game.handle_key(Key::Enter);
    keys(&mut game, "barx");
    game.handle_key(Key::Backspace);
    game.handle_key(Key::Other);
    assert_eq!(game.state().popup.as_ref().unwrap().input, "bar");
    game.handle_key(Key::Enter);
    assert_eq!(game.ui_state(), UiState::Normal);
    assert!(game.state().popup.is_none());
    assert_eq!(game.state().civilizations[0].constructions[0].id_building, "Barracks");
    game.apply_action("build");
    game.handle_key(Key::Esc);
    assert_eq!(game.ui_state(), UiState::Normal);
    assert!(game.state().popup.is_none());
}

#[test]
fn keys_after_the_game_is_over() {
    let mut game = fresh();
    game.state_mut().game_over = true;
    game.handle_key(Key::Char('a'));
    game.handle_key(Key::Char('s'));
    game.handle_key(Key::Enter);
    assert_eq!(game.ui_state(), UiState::Normal);
    assert!(!game.state().action_editing);
    assert!(!game.state().seed_editing);
    game.handle_key(Key::Char('z'));
    assert_eq!(game.state().zoom_level, 2);
    game.handle_key(Key::Char('v'));
    assert_eq!(game.ui_state(), UiState::CameraMode);
    assert!(game.state().camera_mode);
    game.handle_key(Key::Char('d'));
    assert_eq!(game.state().camera_x, 0);
}
