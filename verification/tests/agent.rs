use engine::agent::{
    action_or_default, action_prompt, clean_reply, popup_input_or_default, popup_prompt,
    reply_action, reply_popup_input, RESPONSE_TIMEOUT_SECS,
};
use engine::game::{Ai, AiPlayerView, AiView, Game};
use engine::map::{GameMap, Terrain};
use engine::state::{Popup, PopupKind};

fn fresh() -> Game {
    Game::new(GameMap::from_tiles("s".to_string(), vec![vec![Terrain::Plains; 30]; 30]).unwrap())
}

/// An agent behind a bridge whose service never answers.
struct Silent;

impl Ai for Silent {
    fn select_action(&mut self, _view: &AiView, _civ_index: usize) -> Option<String> {
        action_or_default(None)
    }

    fn select_popup_input(&mut self, _view: &AiView, _civ_index: usize, _popup: &Popup) -> String {
        popup_input_or_default(None)
    }
}

#[test]
fn a_missing_answer_ends_the_turn() {
    assert_eq!(action_or_default(None), Some("end".to_string()));
    assert_eq!(RESPONSE_TIMEOUT_SECS, 10);
}

#[test]
fn an_answer_is_taken_as_it_is() {
    assert_eq!(action_or_default(Some(Some("build farm".to_string()))), Some("build farm".to_string()));
    assert_eq!(action_or_default(Some(None)), None);
    assert_eq!(popup_input_or_default(Some("2".to_string())), "2");
}

#[test]
fn a_missing_popup_input_is_empty() {
    assert_eq!(popup_input_or_default(None), "");
}

#[test]
fn the_worker_answers_end_for_a_service_that_says_nothing() {
    assert_eq!(reply_action(None), Some("end".to_string()));
    assert_eq!(reply_action(Some("hire warrior".to_string())), Some("hire warrior".to_string()));
    assert_eq!(reply_popup_input(None), "");
    assert_eq!(reply_popup_input(Some("1".to_string())), "1");
}

#[test]
fn replies_are_trimmed() {
    assert_eq!(clean_reply(Some("  end \n".to_string())), Some("end".to_string()));
    assert_eq!(clean_reply(Some(String::new())), Some(String::new()));
    assert_eq!(clean_reply(None), None);
}

#[test]
fn a_service_that_never_answers_ends_the_turn_and_harms_nothing() {
    let mut game = fresh();
    game.step();
    game.register_ai(1, Box::new(Silent));
    let before = game.snapshot_value();
    game.run_ai_for_current_player();
    let after = game.snapshot_value();
    assert_eq!(after.player_turn, 0);
    assert_eq!(after.turn, before.turn + 1);
    assert_eq!(after.players.len(), before.players.len());
    for (a, b) in after.players.iter().zip(before.players.iter()) {
        assert_eq!(a.name, b.name);
        assert_eq!(a.resources, b.resources);
        assert_eq!(a.buildings, b.buildings);
        assert_eq!(a.units, b.units);
    }
    assert!(game.state().popup.is_none());
    assert!(game.state().travels.is_empty());
    assert!(!game.state().game_over);
    assert!(game.is_well_formed());
}

#[test]
fn the_prompt_for_a_command() {
    let view = AiView {
        turn: 3,
        player_turn: 1,
        players: vec![
            AiPlayerView { name: "Player".to_string(), resources: 100, buildings: 2, units: 0 },
            AiPlayerView { name: "IA".to_string(), resources: -5, buildings: 0, units: 12 },
        ],
        buildings: vec!["Farm".to_string(), "Barracks".to_string()],
        units: vec!["Warrior".to_string()],
        seed: "s".to_string(),
    };
    assert_eq!(
        action_prompt(&view, 1),
        "Turn: 3\nPlayer index: 1\nPlayers:\n\
         - Player: resources=100 buildings=2 units=0\n\
         - IA: resources=-5 buildings=0 units=12\n\
         Possible buildings:\n- Farm\n- Barracks\n\
         Possible units:\n- Warrior\n\
         \nChoose one action (exactly as the action string, e.g. 'end' or 'build Farm' or 'hire Warrior' or 'attack playername'):\n"
    );
}

#[test]
fn the_prompt_for_a_command_in_an_empty_world() {
    let view = AiView {
        turn: -1,
        player_turn: 0,
        players: vec![],
        buildings: vec![],
        units: vec![],
        seed: String::new(),
    };
    assert_eq!(
        action_prompt(&view, 10),
        "Turn: -1\nPlayer index: 10\nPlayers:\nPossible buildings:\nPossible units:\n\
         \nChoose one action (exactly as the action string, e.g. 'end' or 'build Farm' or 'hire Warrior' or 'attack playername'):\n"
    );
}

#[test]
fn the_prompt_for_a_popup() {
    let popup = Popup {
        kind: PopupKind::Build,
        prompt: "Choose building type:".to_string(),
        choices: vec!["Farm".to_string(), "Barracks".to_string()],
        input: String::new(),
    };
    assert_eq!(
        popup_prompt(1, &popup),
        "Popup for player 1: Build\nPrompt: Choose building type:\nChoices:\n1: Farm\n2: Barracks\n\
         Provide the input to select (either the 1-based index or the choice text):\n"
    );
    let bare = Popup { kind: PopupKind::GameOver, prompt: "Winner: A".to_string(), choices: vec![], input: String::new() };
    assert_eq!(
        popup_prompt(0, &bare),
        "Popup for player 0: Game Over\nPrompt: Winner: A\nChoices:\n\
         Provide the input to select (either the 1-based index or the choice text):\n"
    );
}
