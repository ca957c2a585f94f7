//! The game as its users drive it: commands and popup input as text, the
//! keys of the interactive screen, and the agents that play for a
//! civilization.

use crate::actions::{lowered, names_of_buildings, names_of_cities, names_of_units, others};
use crate::ast::{building_names, unit_names, PlayerType};
use crate::combat::city_names;
use crate::map::{rows_text, GameMap};
use crate::state::{Civilization, GameState, MapRequest, Popup};
use crate::text::{join2, normalized, texts, words_of};
use vstd::prelude::*;
use vstd::string::StringExecFns;

verus! {

/// What the interactive screen is busy with.
#[derive(Clone, Copy, Debug, PartialEq, Eq, Structural)]
pub enum UiState {
    Normal,
    EditingSeed,
    CameraMode,
    ActionEditing,
    PopupOpen,
}

/// What an agent sees of one player.
#[derive(Clone, Debug)]
pub struct AiPlayerView {
    pub name: String,
    pub resources: i32,
    pub buildings: usize,
    pub units: usize,
}

/// What an agent sees of the game: a snapshot that shares nothing with the
/// state it was taken from.
#[derive(Clone, Debug)]
pub struct AiView {
    pub turn: i32,
    pub player_turn: usize,
    pub players: Vec<AiPlayerView>,
    pub buildings: Vec<String>,
    pub units: Vec<String>,
    pub seed: String,
}

/// A player that is not a person. It is shown a snapshot of the game and
/// the index of the civilization it plays.
pub trait Ai: Send {
    /// The next command, or `None` to end the turn.
    fn select_action(&mut self, view: &AiView, civ_index: usize) -> Option<String>;

    /// The input for a popup that a command has opened. Unless an agent
    /// says otherwise, it takes the first choice, or leaves a popup without
    /// choices as it is.
    fn select_popup_input(&mut self, view: &AiView, civ_index: usize, popup: &Popup) -> String {
        first_choice(popup)
    }
}

/// What `first_choice` answers: `1` when there are choices, else what the
/// popup's input line holds.
pub open spec fn first_choice_text(popup: &Popup) -> Seq<char> {
    if popup.choices@.len() == 0 {
        popup.input@
    } else {
        "1"@
    }
}

/// The input that takes the first choice of a popup.
pub fn first_choice(popup: &Popup) -> (r: String)
    ensures
        r@ == first_choice_text(popup),
{
    if popup.choices.len() == 0 {
        popup.input.clone()
    } else {
        String::from_str("1")
    }
}

/// The texts of `names`, each after `prefix`.
pub open spec fn prefixed(prefix: Seq<char>, names: Seq<Seq<char>>) -> Seq<Seq<char>> {
    Seq::new(names.len(), |i: int| prefix + names[i])
}

/// The commands that make sense for the civilization `me`: `end`, then
/// `build` for every building, `hire` for every unit and `attack` for every
/// other city, all names in lowercase.
pub open spec fn action_list(
    buildings: Seq<Seq<char>>,
    units: Seq<Seq<char>>,
    cities: Seq<Seq<char>>,
    me: int,
) -> Seq<Seq<char>> {
    seq!["end"@] + prefixed("build "@, lowered(buildings)) + prefixed("hire "@, lowered(units))
        + prefixed("attack "@, lowered(others(cities, me)))
}

/// Appends to `out` every name of `names` but the one at `skip`, in
/// lowercase and after `prefix`.
fn push_prefixed(out: &mut Vec<String>, prefix: &str, names: &Vec<String>, skip: Option<usize>)
    ensures
        texts(final(out)@) == texts(old(out)@) + prefixed(
            prefix@,
            lowered(
                match skip {
                    Some(s) => others(texts(names@), s as int),
                    None => texts(names@),
                },
            ),
        ),
{
    let ghost start = texts(out@);
    let ghost all = texts(names@);
    let ghost skip_at: int = match skip {
        Some(s) => s as int,
        None => -1,
    };
    let mut k: usize = 0;
    assert(texts(out@) =~= start + prefixed(prefix@, lowered(others(all.subrange(0, 0), skip_at))));
    while k < names.len()
        invariant
            k <= names@.len(),
            all == texts(names@),
            skip_at == match skip {
                Some(s) => s as int,
                None => -1,
            },
            texts(out@) == start + prefixed(
                prefix@,
                lowered(others(all.subrange(0, k as int), skip_at)),
            ),
        decreases names@.len() - k,
    {
        let ghost before = texts(out@);
        let taken = match skip {
            Some(s) => s != k,
            None => true,
        };
        if taken {
            let folded = crate::text::lowercase(names[k].as_str());
            out.push(join2(prefix, folded.as_str()));
            assert(texts(out@) =~= before.push(prefix@ + crate::text::lowercase_of(all[k as int])));
        }
        assert(texts(out@) =~= start + prefixed(
            prefix@,
            lowered(others(all.subrange(0, k as int + 1), skip_at)),
        ));
        k = k + 1;
    }
    assert(all.subrange(0, k as int) =~= all);
    assert(others(all, -1) == all);
}

/// Lists the commands that make sense for the civilization `me`.
pub fn possible_actions(buildings: &Vec<String>, units: &Vec<String>, cities: &Vec<String>, me: usize) -> (r: Vec<String>)
    ensures
        texts(r@) == action_list(texts(buildings@), texts(units@), texts(cities@), me as int),
        r@.len() >= 1,
{
    let mut r: Vec<String> = Vec::new();
    r.push(String::from_str("end"));
    assert(texts(r@) =~= seq!["end"@]);
    push_prefixed(&mut r, "build ", buildings, None);
    push_prefixed(&mut r, "hire ", units, None);
    push_prefixed(&mut r, "attack ", cities, Some(me));
    assert(texts(r@).len() == r@.len());
    r
}

/// The most commands that an agent may give in one go before control
/// returns to the caller, however it behaves.
pub const MAX_ACTIONS: usize = 256;

/// A short description of the game for display and inspection.
#[derive(Clone, Debug)]
pub struct Snapshot {
    pub turn: i32,
    pub player_turn: usize,
    pub players: Vec<AiPlayerView>,
    pub seed: String,
}

/// What a snapshot shows of the civilizations: for each its name, its
/// balance, and how many buildings and unit stacks its city holds.
pub open spec fn shows_players(players: Seq<AiPlayerView>, civs: Seq<Civilization>) -> bool {
    &&& players.len() == civs.len()
    &&& forall|i: int|
        0 <= i < civs.len() ==> {
            let p = #[trigger] players[i];
            &&& p.name@ == civs[i].city.name@
            &&& p.resources == civs[i].resources.ressources
            &&& p.buildings == civs[i].city.buildings@.len()
            &&& p.units == civs[i].city.units@.len()
        }
}

fn player_views(civs: &Vec<Civilization>) -> (r: Vec<AiPlayerView>)
    ensures
        shows_players(r@, civs@),
{
    let mut r: Vec<AiPlayerView> = Vec::new();
    let mut k: usize = 0;
    while k < civs.len()
        invariant
            k <= civs@.len(),
            shows_players(r@, civs@.subrange(0, k as int)),
        decreases civs@.len() - k,
    {
        r.push(
            AiPlayerView {
                name: civs[k].city.name.clone(),
                resources: civs[k].resources.ressources,
                buildings: civs[k].city.buildings.len(),
                units: civs[k].city.units.len(),
            },
        );
        k = k + 1;
    }
    assert(civs@.subrange(0, k as int) =~= civs@);
    r
}

impl GameState {
    /// The state with `typed` on the input line of its popup.
    pub open spec fn with_popup_input(&self, typed: String) -> GameState {
        match self.popup {
            Some(p) => GameState { popup: Some(Popup { input: typed, ..p }), ..*self },
            None => *self,
        }
    }

    /// What typing the command `action` and submitting it makes of the
    /// state `before`, and whether it leaves a popup open.
    pub open spec fn action_applied(&self, before: &GameState, action: Seq<char>, opened: bool) -> bool {
        exists|line: String| #![trigger before.with_line(line, true)]
            line@ == action && self.command_applied(
                &before.with_line(line, true),
                normalized(action),
                words_of(normalized(action)),
                opened,
            )
    }

    /// True when this state is what typing the command `action` and
    /// submitting it makes of the state `before`.
    pub open spec fn acted(&self, before: &GameState, action: Seq<char>) -> bool {
        self.action_applied(before, action, true) || self.action_applied(before, action, false)
    }

    /// True when this state is what the command `action` makes of the state
    /// `before`, and no popup is open.
    pub open spec fn commanded(&self, before: &GameState, action: Seq<char>) -> bool {
        self.acted(before, action) && self.popup is None
    }

    /// True when the command `action` makes `mid` of the state `before` and
    /// leaves a popup open, and the input `input` to that popup makes this
    /// state of `mid`.
    pub open spec fn commanded_and_answered(
        &self,
        before: &GameState,
        mid: &GameState,
        action: Seq<char>,
        input: Seq<char>,
    ) -> bool {
        mid.acted(before, action) && mid.popup is Some && self.input_submitted(mid, input)
    }

    /// True when this state is what one command of an agent makes of the
    /// state `before`: the command alone if no popup is open after it, else
    /// the command and then the agent's input to the popup.
    pub open spec fn agent_moved(&self, before: &GameState) -> bool {
        ||| exists|action: Seq<char>| #[trigger] self.commanded(before, action)
        ||| exists|mid: GameState, action: Seq<char>, input: Seq<char>| #[trigger]
            self.commanded_and_answered(before, &mid, action, input)
    }

    /// What typing `input` into the open popup and submitting it makes of
    /// the state `before`.
    pub open spec fn input_submitted(&self, before: &GameState, input: Seq<char>) -> bool {
        match before.popup {
            None => *self == *before,
            Some(_) => exists|typed: String| #![trigger before.with_popup_input(typed)]
                typed@ == input && self.popup_submitted(&before.with_popup_input(typed)),
        }
    }
}

/// A key of the interactive screen.
#[derive(Clone, Copy, Debug, PartialEq, Eq, Structural)]
pub enum Key {
    Char(char),
    Enter,
    Esc,
    Backspace,
    Other,
}

/// What the caller is asked to do after a key: nothing, to generate a map
/// and install it, or to write the map to a file.
#[derive(Clone, Debug)]
pub enum Effect {
    Nothing,
    NewMap(MapRequest),
    WriteMap { filename: String, content: String },
}

/// A game with its screen and its agents.
pub struct Game {
    state: GameState,
    ui_state: UiState,
    ui_color: String,
    ais: Vec<Option<Box<dyn Ai>>>,
}

impl Game {
    /// The state of the game.
    pub closed spec fn spec_state(&self) -> GameState {
        self.state
    }

    /// What the screen is busy with.
    pub closed spec fn spec_ui_state(&self) -> UiState {
        self.ui_state
    }

    /// The accent colour of the screen.
    pub closed spec fn spec_ui_color(&self) -> Seq<char> {
        self.ui_color@
    }

    /// The number of places for agents.
    pub closed spec fn ai_slots(&self) -> nat {
        self.ais@.len()
    }

    /// True when an agent is registered for the civilization `civ`.
    pub closed spec fn has_ai(&self, civ: int) -> bool {
        0 <= civ < self.ais@.len() && self.ais@[civ] is Some
    }

    /// True when this game has the screen colour of `other` and the same
    /// places for agents, filled or empty alike.
    pub open spec fn same_seats(&self, other: &Game) -> bool {
        &&& self.spec_ui_color() == other.spec_ui_color()
        &&& self.ai_slots() == other.ai_slots()
        &&& forall|i: int| self.has_ai(i) == other.has_ai(i)
    }

    /// The state is well formed.
    pub open spec fn wf(&self) -> bool {
        self.spec_state().wf()
    }

    /// A game at the built-in start on the given map, with a white screen
    /// colour and a free place for an agent for each civilization.
    pub fn new(map: GameMap) -> (game: Game)
        requires
            map.wf(),
        ensures
            game.wf(),
            game.spec_state().is_fresh(&map),
            game.spec_ui_state() == UiState::Normal,
            game.spec_ui_color() == "#FFFFFF"@,
            game.ai_slots() == 2,
            forall|i: int| !game.has_ai(i),
    {
        let state = GameState::new(map);
        let mut ais: Vec<Option<Box<dyn Ai>>> = Vec::new();
        ais.push(None);
        ais.push(None);
        Game { state, ui_state: UiState::Normal, ui_color: String::from_str("#FFFFFF"), ais }
    }

    /// A game in the given state, with a free place for an agent for each
    /// civilization.
    pub fn from_state(state: GameState, ui_color: String) -> (game: Game)
        ensures
            game.spec_state() == state,
            game.spec_ui_state() == UiState::Normal,
            game.spec_ui_color() == ui_color@,
            game.ai_slots() == state.civilizations@.len(),
            forall|i: int| !game.has_ai(i),
    {
        let mut ais: Vec<Option<Box<dyn Ai>>> = Vec::new();
        let mut k: usize = 0;
        while k < state.civilizations.len()
            invariant
                k <= state.civilizations@.len(),
                ais@.len() == k,
                forall|i: int| 0 <= i < k ==> ais@[i] is None,
            decreases state.civilizations@.len() - k,
        {
            ais.push(None);
            k = k + 1;
        }
        Game { state, ui_state: UiState::Normal, ui_color, ais }
    }

    /// The state of the game.
    pub fn state(&self) -> (s: &GameState)
        ensures
            *s == self.spec_state(),
    {
        &self.state
    }

    /// The state of the game, to change at will. What is changed must be
    /// well formed again before the game is driven further.
    pub fn state_mut(&mut self) -> (s: &mut GameState)
        ensures
            *s == old(self).spec_state(),
            final(self).spec_state() == *final(s),
            final(self).spec_ui_state() == old(self).spec_ui_state(),
            final(self).same_seats(old(self)),
    {
        &mut self.state
    }

    /// What the screen is busy with.
    pub fn ui_state(&self) -> (u: UiState)
        ensures
            u == self.spec_ui_state(),
    {
        self.ui_state
    }

    /// The accent colour of the screen, as the configuration gave it.
    pub fn ui_color(&self) -> (c: &str)
        ensures
            c@ == self.spec_ui_color(),
    {
        self.ui_color.as_str()
    }

    /// Checks that the state is well formed.
    pub fn is_well_formed(&self) -> (ok: bool)
        ensures
            ok == self.wf(),
    {
        self.state.is_well_formed()
    }

    /// Types a command and submits it. Returns whether a popup is now open,
    /// which the screen then shows.
    pub fn apply_action(&mut self, action: &str) -> (opened: bool)
        requires
            old(self).wf(),
        ensures
            final(self).wf(),
            final(self).spec_state().acted(&old(self).spec_state(), action@),
            opened == (final(self).spec_state().popup is Some),
            final(self).spec_ui_state() == if opened {
                UiState::PopupOpen
            } else {
                UiState::Normal
            },
            final(self).same_seats(old(self)),
    {
        self.state.action_input = String::from_str(action);
        self.state.action_editing = true;
        assert(self.state == old(self).state.with_line(self.state.action_input, true));
        let answer = self.state.submit_action();
        assert(self.state.action_applied(&old(self).state, action@, answer));
        let opened = self.state.popup.is_some();
        self.ui_state = if opened {
            UiState::PopupOpen
        } else {
            UiState::Normal
        };
        opened
    }

    /// Types `input` into the open popup and submits it. Returns whether
    /// there was a popup; without one nothing changes.
    pub fn submit_popup_input(&mut self, input: &str) -> (present: bool)
        requires
            old(self).wf(),
        ensures
            final(self).wf(),
            present == old(self).spec_state().popup is Some,
            final(self).spec_state().input_submitted(&old(self).spec_state(), input@),
            final(self).spec_ui_state() == if present {
                UiState::Normal
            } else {
                old(self).spec_ui_state()
            },
            final(self).same_seats(old(self)),
    {
        let mut taken: Option<Popup> = None;
        std::mem::swap(&mut self.state.popup, &mut taken);
        match taken {
            None => {
                assert(self.state == old(self).state);
                false
            },
            Some(p) => {
                let typed = String::from_str(input);
                self.state.popup = Some(
                    Popup { kind: p.kind, prompt: p.prompt, choices: p.choices, input: typed },
                );
                assert(self.state == old(self).state.with_popup_input(typed));
                self.state.submit_popup();
                self.ui_state = UiState::Normal;
                true
            },
        }
    }

    /// Ends the turn of the active civilization as the `end` command does,
    /// without a command: the next civilization becomes active and its turn
    /// starts.
    pub fn step(&mut self)
        requires
            old(self).wf(),
        ensures
            final(self).wf(),
            final(self).spec_state().turn_ended(&old(self).spec_state()),
            final(self).spec_ui_state() == old(self).spec_ui_state(),
            final(self).same_seats(old(self)),
    {
        self.state.end_turn();
    }

    /// A short description of the game.
    pub fn snapshot_value(&self) -> (shot: Snapshot)
        ensures
            shot.turn == self.spec_state().turn,
            shot.player_turn == self.spec_state().player_turn,
            shows_players(shot.players@, self.spec_state().civilizations@),
            shot.seed@ == self.spec_state().map.seed@,
    {
        Snapshot {
            turn: self.state.turn,
            player_turn: self.state.player_turn,
            players: player_views(&self.state.civilizations),
            seed: self.state.map.seed.clone(),
        }
    }

    /// Registers an agent for a civilization, and makes places for agents up
    /// to that civilization if they are missing.
    pub fn register_ai(&mut self, civ_index: usize, ai: Box<dyn Ai>)
        requires
            civ_index < usize::MAX,
        ensures
            final(self).has_ai(civ_index as int),
            final(self).ai_slots() == if civ_index < old(self).ai_slots() {
                old(self).ai_slots()
            } else {
                (civ_index + 1) as nat
            },
            forall|i: int| i != civ_index ==> final(self).has_ai(i) == old(self).has_ai(i),
            final(self).spec_state() == old(self).spec_state(),
            final(self).spec_ui_state() == old(self).spec_ui_state(),
            final(self).spec_ui_color() == old(self).spec_ui_color(),
    {
        while self.ais.len() <= civ_index
            invariant
                self.state == old(self).state,
                self.ui_state == old(self).ui_state,
                self.ui_color == old(self).ui_color,
                self.ais@.len() >= old(self).ais@.len(),
                self.ais@.len() <= civ_index + 1 || self.ais@.len() == old(self).ais@.len(),
                forall|i: int| 0 <= i < old(self).ais@.len() ==> self.ais@[i] == old(self).ais@[i],
                forall|i: int| old(self).ais@.len() <= i < self.ais@.len() ==> self.ais@[i] is None,
            decreases civ_index + 1 - self.ais@.len(),
        {
            self.ais.push(None);
        }
        self.ais[civ_index] = Some(ai);
    }

    /// A snapshot of the game for an agent.
    pub fn make_ai_view(&self) -> (view: AiView)
        ensures
            view.turn == self.spec_state().turn,
            view.player_turn == self.spec_state().player_turn,
            shows_players(view.players@, self.spec_state().civilizations@),
            texts(view.buildings@) == building_names(self.spec_state().buildings@),
            texts(view.units@) == unit_names(self.spec_state().units@),
            view.seed@ == self.spec_state().map.seed@,
    {
        AiView {
            turn: self.state.turn,
            player_turn: self.state.player_turn,
            players: player_views(&self.state.civilizations),
            buildings: names_of_buildings(&self.state.buildings),
            units: names_of_units(&self.state.units),
            seed: self.state.map.seed.clone(),
        }
    }

    /// Lists the commands that make sense for a civilization.
    pub fn ai_possible_actions(&self, civ_index: usize) -> (r: Vec<String>)
        ensures
            texts(r@) == action_list(
                building_names(self.spec_state().buildings@),
                unit_names(self.spec_state().units@),
                city_names(self.spec_state().civilizations@),
                civ_index as int,
            ),
    {
        let buildings = names_of_buildings(&self.state.buildings);
        let units = names_of_units(&self.state.units);
        let cities = names_of_cities(&self.state.civilizations);
        possible_actions(&buildings, &units, &cities, civ_index)
    }

    /// What a key does while the game is over: `z` still zooms and `v`
    /// still enters camera mode; every other key is ignored.
    pub open spec fn key_after_game_over(&self, before: &Game, key: Key) -> bool {
        let was = before.spec_state();
        match key {
            Key::Char(c) => if c == 'z' || c == 'Z' {
                self.spec_state() == was.zoom_cycled() && self.spec_ui_state() == before.spec_ui_state()
            } else if c == 'v' || c == 'V' {
                self.spec_state() == was.camera_mode_toggled() && self.spec_ui_state()
                    == UiState::CameraMode
            } else {
                self.spec_state() == was && self.spec_ui_state() == before.spec_ui_state()
            },
            _ => self.spec_state() == was && self.spec_ui_state() == before.spec_ui_state(),
        }
    }

    /// What a key does on the idle screen: `s` edits the seed, `r` asks for
    /// a map from a random seed, `v` enters camera mode, `a` starts a
    /// command, `z` zooms, `w` asks to write the map to a file named after
    /// its seed.
    pub open spec fn key_when_normal(&self, before: &Game, key: Key, effect: &Effect) -> bool {
        let was = before.spec_state();
        let now = self.spec_state();
        let stay = self.spec_ui_state() == UiState::Normal;
        match key {
            Key::Char(c) => if c == 's' {
                now == was.seed_edit_toggled() && self.spec_ui_state() == UiState::EditingSeed
                    && effect is Nothing
            } else if c == 'r' {
                &&& now == was
                &&& stay
                &&& effect matches Effect::NewMap(request)
                &&& request.seed is None
                &&& request.width == was.map.width
                &&& request.height == was.map.height
            } else if c == 'v' || c == 'V' {
                now == was.camera_mode_toggled() && self.spec_ui_state() == UiState::CameraMode
                    && effect is Nothing
            } else if c == 'a' {
                now.retyped(&(GameState { action_editing: true, ..was }), Seq::<char>::empty())
                    && self.spec_ui_state() == UiState::ActionEditing && effect is Nothing
            } else if c == 'z' || c == 'Z' {
                now == was.zoom_cycled() && stay && effect is Nothing
            } else if c == 'w' {
                &&& now == was
                &&& stay
                &&& effect matches Effect::WriteMap { filename, content }
                &&& filename@ == "map_"@ + was.map.seed@ + ".txt"@
                &&& content@ == rows_text(was.map.tiles@)
            } else {
                now == was && stay && effect is Nothing
            },
            _ => now == was && stay && effect is Nothing,
        }
    }

    /// What a key does in the seed editor: Enter asks for the map of the
    /// seed and leaves, Esc leaves, Backspace and characters edit the seed.
    pub open spec fn key_when_editing_seed(&self, before: &Game, key: Key, effect: &Effect) -> bool {
        let was = before.spec_state();
        let now = self.spec_state();
        match key {
            Key::Enter => {
                &&& now == (GameState { seed_editing: false, ..was })
                &&& self.spec_ui_state() == UiState::Normal
                &&& effect matches Effect::NewMap(request)
                &&& was.asks_for_seed(&request)
            },
            Key::Esc => now == (GameState { seed_editing: false, ..was }) && self.spec_ui_state()
                == UiState::Normal && effect is Nothing,
            Key::Backspace => now.reseeded(
                &was,
                if was.seed_editing {
                    GameState::shortened(was.map.seed@)
                } else {
                    was.map.seed@
                },
            ) && self.spec_ui_state() == UiState::EditingSeed && effect is Nothing,
            Key::Char(c) => now.reseeded(
                &was,
                if was.seed_editing {
                    was.map.seed@.push(c)
                } else {
                    was.map.seed@
                },
            ) && self.spec_ui_state() == UiState::EditingSeed && effect is Nothing,
            Key::Other => now == was && self.spec_ui_state() == UiState::EditingSeed && effect is Nothing,
        }
    }

    /// What a key does in camera mode: `v` or Esc leaves; `z`, `s`, `q`
    /// and `d` move the camera up, down, left and right.
    pub open spec fn key_when_camera(&self, before: &Game, key: Key) -> bool {
        let was = before.spec_state();
        let now = self.spec_state();
        let stay = self.spec_ui_state() == UiState::CameraMode;
        match key {
            Key::Esc => now == was.camera_mode_toggled() && self.spec_ui_state() == UiState::Normal,
            Key::Char(c) => if c == 'v' || c == 'V' {
                now == was.camera_mode_toggled() && self.spec_ui_state() == UiState::Normal
            } else if c == 'z' || c == 'Z' {
                now == was.camera_moved(0, -1i32) && stay
            } else if c == 's' || c == 'S' {
                now == was.camera_moved(0, 1) && stay
            } else if c == 'q' || c == 'Q' {
                now == was.camera_moved(-1i32, 0) && stay
            } else if c == 'd' || c == 'D' {
                now == was.camera_moved(1, 0) && stay
            } else {
                now == was && stay
            },
            _ => now == was && stay,
        }
    }

    /// What a key does while a command is typed: Enter submits it, Esc
    /// gives up, Backspace and characters edit the line.
    pub open spec fn key_when_typing(&self, before: &Game, key: Key) -> bool {
        let was = before.spec_state();
        let now = self.spec_state();
        let line = normalized(was.action_input@);
        match key {
            Key::Enter => {
                ||| now.command_applied(&was, line, words_of(line), true) && self.spec_ui_state()
                    == UiState::PopupOpen
                ||| now.command_applied(&was, line, words_of(line), false) && self.spec_ui_state()
                    == UiState::Normal
            },
            Key::Esc => now == (GameState { action_editing: false, ..was }) && self.spec_ui_state()
                == UiState::Normal,
            Key::Backspace => now.retyped(
                &was,
                if was.action_editing {
                    GameState::shortened(was.action_input@)
                } else {
                    was.action_input@
                },
            ) && self.spec_ui_state() == UiState::ActionEditing,
            Key::Char(c) => now.retyped(
                &was,
                if was.action_editing {
                    was.action_input@.push(c)
                } else {
                    was.action_input@
                },
            ) && self.spec_ui_state() == UiState::ActionEditing,
            Key::Other => now == was && self.spec_ui_state() == UiState::ActionEditing,
        }
    }

    /// What a key does while a popup is open: Enter submits it, Esc closes
    /// it, Backspace and characters edit its input line.
    pub open spec fn key_when_popup(&self, before: &Game, key: Key) -> bool {
        let was = before.spec_state();
        let now = self.spec_state();
        match key {
            Key::Enter => now.popup_submitted(&was) && self.spec_ui_state() == UiState::Normal,
            Key::Esc => now == (GameState { popup: None, ..was }) && self.spec_ui_state()
                == UiState::Normal,
            Key::Backspace => now.popup_retyped(&was, |text: Seq<char>| GameState::shortened(text))
                && self.spec_ui_state() == UiState::PopupOpen,
            Key::Char(c) => now.popup_retyped(&was, |text: Seq<char>| text.push(c))
                && self.spec_ui_state() == UiState::PopupOpen,
            Key::Other => now == was && self.spec_ui_state() == UiState::PopupOpen,
        }
    }

    /// What a key does to the game `before`, and what it asks of the
    /// caller.
    pub open spec fn key_handled(&self, before: &Game, key: Key, effect: &Effect) -> bool {
        &&& self.same_seats(before)
        &&& if before.spec_state().game_over {
            self.key_after_game_over(before, key) && effect is Nothing
        } else {
            match before.spec_ui_state() {
                UiState::Normal => self.key_when_normal(before, key, effect),
                UiState::EditingSeed => self.key_when_editing_seed(before, key, effect),
                UiState::CameraMode => self.key_when_camera(before, key) && effect is Nothing,
                UiState::ActionEditing => self.key_when_typing(before, key) && effect is Nothing,
                UiState::PopupOpen => self.key_when_popup(before, key) && effect is Nothing,
            }
        }
    }

    fn normal_key(&mut self, key: Key) -> (effect: Effect)
        requires
            old(self).wf(),
            old(self).spec_ui_state() == UiState::Normal,
        ensures
            final(self).wf(),
            final(self).same_seats(old(self)),
            final(self).key_when_normal(old(self), key, &effect),
    {
        match key {
            Key::Char(c) => {
                if c == 's' {
                    self.state.toggle_seed_edit();
                    self.ui_state = UiState::EditingSeed;
                } else if c == 'r' {
                    return Effect::NewMap(
                        MapRequest {
                            seed: None,
                            width: self.state.map.width,
                            height: self.state.map.height,
                        },
                    );
                } else if c == 'v' || c == 'V' {
                    self.state.toggle_camera_mode();
                    self.ui_state = UiState::CameraMode;
                } else if c == 'a' {
                    self.state.start_action_input();
                    self.ui_state = UiState::ActionEditing;
                } else if c == 'z' || c == 'Z' {
                    self.state.cycle_zoom();
                } else if c == 'w' {
                    let mut filename = String::from_str("map_");
                    filename.append(self.state.map.seed.as_str());
                    filename.append(".txt");
                    let content = self.state.map.to_text();
                    return Effect::WriteMap { filename, content };
                }
                Effect::Nothing
            },
            _ => Effect::Nothing,
        }
    }

    fn seed_key(&mut self, key: Key) -> (effect: Effect)
        requires
            old(self).wf(),
            old(self).spec_ui_state() == UiState::EditingSeed,
        ensures
            final(self).wf(),
            final(self).same_seats(old(self)),
            final(self).key_when_editing_seed(old(self), key, &effect),
    {
        match key {
            Key::Enter => {
                let request = self.state.submit_seed();
                self.ui_state = UiState::Normal;
                Effect::NewMap(request)
            },
            Key::Esc => {
                if self.state.seed_editing {
                    self.state.toggle_seed_edit();
                }
                self.ui_state = UiState::Normal;
                Effect::Nothing
            },
            Key::Backspace => {
                self.state.backspace_seed();
                Effect::Nothing
            },
            Key::Char(c) => {
                self.state.add_seed_char(c);
                Effect::Nothing
            },
            Key::Other => Effect::Nothing,
        }
    }

    fn camera_key(&mut self, key: Key)
        requires
            old(self).wf(),
            old(self).spec_ui_state() == UiState::CameraMode,
        ensures
            final(self).wf(),
            final(self).same_seats(old(self)),
            final(self).key_when_camera(old(self), key),
    {
        match key {
            Key::Esc => {
                self.state.toggle_camera_mode();
                self.ui_state = UiState::Normal;
            },
            Key::Char(c) => {
                if c == 'v' || c == 'V' {
                    self.state.toggle_camera_mode();
                    self.ui_state = UiState::Normal;
                } else if c == 'z' || c == 'Z' {
                    self.state.move_camera(0, -1);
                } else if c == 's' || c == 'S' {
                    self.state.move_camera(0, 1);
                } else if c == 'q' || c == 'Q' {
                    self.state.move_camera(-1, 0);
                } else if c == 'd' || c == 'D' {
                    self.state.move_camera(1, 0);
                }
            },
            _ => {},
        }
    }

    fn typing_key(&mut self, key: Key)
        requires
            old(self).wf(),
            old(self).spec_ui_state() == UiState::ActionEditing,
        ensures
            final(self).wf(),
            final(self).same_seats(old(self)),
            final(self).key_when_typing(old(self), key),
    {
        match key {
            Key::Enter => {
                let opened = self.state.submit_action();
                self.ui_state = if opened {
                    UiState::PopupOpen
                } else {
                    UiState::Normal
                };
            },
            Key::Esc => {
                self.state.action_editing = false;
                self.ui_state = UiState::Normal;
            },
            Key::Backspace => {
                self.state.backspace_action();
            },
            Key::Char(c) => {
                self.state.add_action_char(c);
            },
            Key::Other => {},
        }
    }

    fn popup_key(&mut self, key: Key)
        requires
            old(self).wf(),
            old(self).spec_ui_state() == UiState::PopupOpen,
        ensures
            final(self).wf(),
            final(self).same_seats(old(self)),
            final(self).key_when_popup(old(self), key),
    {
        match key {
            Key::Enter => {
                self.state.submit_popup();
                self.ui_state = UiState::Normal;
            },
            Key::Esc => {
                self.state.close_popup();
                self.ui_state = UiState::Normal;
            },
            Key::Backspace => {
                self.state.backspace_popup();
            },
            Key::Char(c) => {
                self.state.add_popup_char(c);
            },
            Key::Other => {},
        }
    }

    /// Handles a key of the interactive screen. What the key asks of the
    /// outside world comes back as an effect for the caller to carry out.
    pub fn handle_key(&mut self, key: Key) -> (effect: Effect)
        requires
            old(self).wf(),
        ensures
            final(self).wf(),
            final(self).key_handled(old(self), key, &effect),
    {
        if self.state.game_over {
            match key {
                Key::Char(c) => {
                    if c == 'z' || c == 'Z' {
                        self.state.cycle_zoom();
                    } else if c == 'v' || c == 'V' {
                        self.state.toggle_camera_mode();
                        self.ui_state = UiState::CameraMode;
                    }
                },
                _ => {},
            }
            return Effect::Nothing;
        }
        match self.ui_state {
            UiState::Normal => self.normal_key(key),
            UiState::EditingSeed => self.seed_key(key),
            UiState::CameraMode => {
                self.camera_key(key);
                Effect::Nothing
            },
            UiState::ActionEditing => {
                self.typing_key(key);
                Effect::Nothing
            },
            UiState::PopupOpen => {
                self.popup_key(key);
                Effect::Nothing
            },
        }
    }

    /// True when the civilization `civ` is played by an agent: one is
    /// registered for it, and its city is marked as an agent's.
    pub open spec fn agent_plays(&self, civ: int) -> bool {
        &&& self.has_ai(civ)
        &&& 0 <= civ < self.spec_state().civilizations@.len()
        &&& self.spec_state().civilizations@[civ].city.player_type == PlayerType::AI
    }

    /// True when one of this game's agents plays the civilization that is
    /// active in the state `s`.
    pub open spec fn plays_in(&self, s: &GameState) -> bool {
        &&& self.has_ai(s.player_turn as int)
        &&& s.player_turn < s.civilizations@.len()
        &&& s.civilizations@[s.player_turn as int].city.player_type == PlayerType::AI
    }

    /// A round in which the agent gave a command: the state is what the
    /// command, and the answer to its popup if it opened one, made of the
    /// state before, and the screen is idle.
    pub open spec fn moved(before: (GameState, UiState), after: (GameState, UiState)) -> bool {
        after.1 == UiState::Normal && after.0.agent_moved(&before.0)
    }

    /// A round in which the agent had no command: its turn has ended, and
    /// the screen is busy with what it was.
    pub open spec fn passed(before: (GameState, UiState), after: (GameState, UiState)) -> bool {
        after.1 == before.1 && after.0.turn_ended(&before.0)
    }

    /// True when `trace` tells how the agents brought the game from
    /// `before` to this game, state and screen after each round.
    ///
    /// Every round starts with an agent to play the active civilization.
    /// In every round but the last the agent gave a command; in the last it
    /// gave a command or had none. The rounds stopped because the most
    /// rounds were played, because the agent had no command, or because no
    /// agent plays the civilization that is active now.
    pub open spec fn agents_played(&self, before: &Game, trace: Seq<(GameState, UiState)>) -> bool {
        let rounds = trace.len() - 1;
        &&& 0 <= rounds <= MAX_ACTIONS
        &&& trace[0] == (before.spec_state(), before.spec_ui_state())
        &&& trace[rounds] == (self.spec_state(), self.spec_ui_state())
        &&& forall|i: int| 0 <= i < rounds ==> before.plays_in(&(#[trigger] trace[i]).0)
        &&& forall|i: int| 0 <= i < rounds - 1 ==> Self::moved(#[trigger] trace[i], trace[i + 1])
        &&& rounds >= 1 ==> Self::moved(trace[rounds - 1], trace[rounds]) || Self::passed(
            trace[rounds - 1],
            trace[rounds],
        )
        &&& {
            ||| rounds == MAX_ACTIONS
            ||| !before.plays_in(&trace[rounds].0)
            ||| rounds >= 1 && Self::passed(trace[rounds - 1], trace[rounds])
        }
    }

    /// Tells whether an agent plays the active civilization.
    pub fn agent_to_move(&self) -> (r: bool)
        ensures
            r == self.agent_plays(self.spec_state().player_turn as int),
    {
        let civ = self.state.player_turn;
        if civ >= self.ais.len() || civ >= self.state.civilizations.len() {
            return false;
        }
        if self.ais[civ].is_none() {
            return false;
        }
        match self.state.civilizations[civ].city.player_type {
            PlayerType::AI => true,
            PlayerType::PLAYER => false,
        }
    }

    /// Carries out what the agent of the active civilization has decided:
    /// its command, or the end of its turn if it has none. Returns whether
    /// a command has left a popup open, which the agent is then asked about.
    pub fn agent_acts(&mut self, decision: Option<String>) -> (opened: bool)
        requires
            old(self).wf(),
        ensures
            final(self).wf(),
            final(self).same_seats(old(self)),
            match decision {
                Some(action) => final(self).spec_state().acted(&old(self).spec_state(), action@)
                    && opened == (final(self).spec_state().popup is Some),
                None => !opened && final(self).spec_state().turn_ended(&old(self).spec_state()),
            },
            final(self).spec_ui_state() == match decision {
                Some(_) => if opened {
                    UiState::PopupOpen
                } else {
                    UiState::Normal
                },
                None => old(self).spec_ui_state(),
            },
            final(self).spec_state().continues(&old(self).spec_state()),
    {
        match decision {
            Some(action) => {
                let opened = self.apply_action(action.as_str());
                proof {
                    let was = old(self).spec_state();
                    let now = self.spec_state();
                    let answer = now.action_applied(&was, action@, true);
                    let line = choose|line: String| #![trigger was.with_line(line, true)]
                        line@ == action@ && now.command_applied(
                            &was.with_line(line, true),
                            normalized(action@),
                            words_of(normalized(action@)),
                            answer,
                        );
                    now.lemma_command_continues(
                        &was.with_line(line, true),
                        normalized(action@),
                        words_of(normalized(action@)),
                        answer,
                    );
                    now.lemma_continues_chain(&was.with_line(line, true), &was);
                }
                opened
            },
            None => {
                self.state.end_turn();
                proof {
                    self.spec_state().lemma_turn_end_continues(&old(self).spec_state());
                }
                false
            },
        }
    }

    /// Submits what the agent has answered to the open popup.
    pub fn agent_answers(&mut self, input: String)
        requires
            old(self).wf(),
        ensures
            final(self).wf(),
            final(self).same_seats(old(self)),
            final(self).spec_state().input_submitted(&old(self).spec_state(), input@),
            final(self).spec_ui_state() == if old(self).spec_state().popup is Some {
                UiState::Normal
            } else {
                old(self).spec_ui_state()
            },
            final(self).spec_state().continues(&old(self).spec_state()),
    {
        self.submit_popup_input(input.as_str());
        proof {
            let was = old(self).spec_state();
            let now = self.spec_state();
            if was.popup is Some {
                let typed = choose|typed: String| #![trigger was.with_popup_input(typed)]
                    typed@ == input@ && now.popup_submitted(&was.with_popup_input(typed));
                now.lemma_popup_continues(&was.with_popup_input(typed));
                now.lemma_continues_chain(&was.with_popup_input(typed), &was);
            }
        }
    }

    /// Lets the agents play. While an agent plays the active civilization
    /// it is shown a fresh snapshot and asked for a command, which is
    /// carried out; if the command opens a popup, the agent is asked for
    /// the input and the popup is submitted. An agent that has no command
    /// ends its turn, and control returns. Control also returns after
    /// `MAX_ACTIONS` commands, whatever the agents do.
    ///
    /// The game ends up where these rounds bring it: without an agent to
    /// play the active civilization, where it was. Whatever the agents
    /// answer, the game stays well formed, and the state continues the one
    /// before.
    pub fn run_ai_for_current_player(&mut self)
        requires
            old(self).wf(),
        ensures
            final(self).wf(),
            final(self).same_seats(old(self)),
            final(self).spec_ui_color() == old(self).spec_ui_color(),
            final(self).spec_state().continues(&old(self).spec_state()),
            exists|trace: Seq<(GameState, UiState)>| #[trigger]
                final(self).agents_played(old(self), trace),
    {
        let mut actions_done: usize = 0;
        let ghost mut trace: Seq<(GameState, UiState)> = seq![
            (self.spec_state(), self.spec_ui_state()),
        ];
        proof {
            self.spec_state().lemma_continues_chain(&self.spec_state(), &self.spec_state());
        }
        while actions_done < MAX_ACTIONS
            invariant_except_break
                forall|i: int|
                    0 <= i < actions_done ==> Self::moved(#[trigger] trace[i], trace[i + 1]),
            invariant
                self.wf(),
                self.same_seats(old(self)),
                self.spec_ui_color() == old(self).spec_ui_color(),
                self.spec_state().continues(&old(self).spec_state()),
                actions_done <= MAX_ACTIONS,
                trace.len() == actions_done + 1,
                trace[0] == (old(self).spec_state(), old(self).spec_ui_state()),
                trace[actions_done as int] == (self.spec_state(), self.spec_ui_state()),
                forall|i: int|
                    0 <= i < actions_done ==> old(self).plays_in(&(#[trigger] trace[i]).0),
            ensures
                self.agents_played(old(self), trace),
            decreases MAX_ACTIONS - actions_done,
        {
            if !self.agent_to_move() {
                break;
            }
            let civ = self.state.player_turn;
            let ghost start = *self;
            let ghost rounds = trace;
            let view = self.make_ai_view();
            let decision = match &mut self.ais[civ] {
                Some(agent) => agent.select_action(&view, civ),
                None => None,
            };
            let ghost asked = *self;
            let ghost said = decision;
            assert(asked.same_seats(&start));
            assert(asked.spec_state() == start.spec_state());
            assert(asked.spec_ui_state() == start.spec_ui_state());
            let ends = decision.is_none();
            let opened = self.agent_acts(decision);
            let ghost acted = *self;
            proof {
                self.spec_state().lemma_continues_chain(&asked.spec_state(), &old(self).spec_state());
            }
            if opened && civ < self.ais.len() {
                let view = self.make_ai_view();
                let ghost shown = *self;
                let answer = match (&mut self.ais[civ], &self.state.popup) {
                    (Some(agent), Some(popup)) => Some(agent.select_popup_input(&view, civ, popup)),
                    _ => None,
                };
                let ghost told = *self;
                assert(told.same_seats(&shown));
                assert(told.spec_state() == shown.spec_state());
                assert(told.spec_ui_state() == shown.spec_ui_state());
                assert(answer is Some);
                match answer {
                    Some(input) => {
                        let ghost typed = input@;
                        self.agent_answers(input);
                        proof {
                            self.spec_state().lemma_continues_chain(
                                &told.spec_state(),
                                &old(self).spec_state(),
                            );
                            assert(self.spec_state().commanded_and_answered(
                                &start.spec_state(),
                                &acted.spec_state(),
                                said->Some_0@,
                                typed,
                            ));
                        }
                    },
                    None => {},
                }
            } else {
                proof {
                    match said {
                        Some(action) => {
                            assert(!opened);
                            assert(self.spec_state().commanded(&start.spec_state(), action@));
                        },
                        None => {},
                    }
                }
            }
            actions_done = actions_done + 1;
            proof {
                let before = (start.spec_state(), start.spec_ui_state());
                let after = (self.spec_state(), self.spec_ui_state());
                trace = rounds.push(after);
                assert(rounds[actions_done - 1] == before);
                assert(old(self).plays_in(&before.0));
                assert forall|i: int| 0 <= i < actions_done implies old(self).plays_in(
                    &(#[trigger] trace[i]).0,
                ) by {
                    if i < actions_done - 1 {
                        assert(trace[i] == rounds[i]);
                    }
                }
                assert forall|i: int| 0 <= i < actions_done - 1 implies Self::moved(
                    #[trigger] trace[i],
                    trace[i + 1],
                ) by {
                    assert(trace[i] == rounds[i]);
                    assert(trace[i + 1] == rounds[i + 1]);
                }
                if said is Some {
                    assert(Self::moved(before, after));
                } else {
                    assert(Self::passed(before, after));
                }
            }
            if ends {
                break;
            }
        }
    }

    /// The game that a configuration describes, on the given map, with a
    /// free place for an agent for each civilization. Without general
    /// settings the screen colour is white.
    pub fn from_model(model: crate::ast::Model, map: GameMap) -> (r: Result<Game, crate::setup::ConfigError>)
        requires
            map.wf(),
        ensures
            match r {
                Ok(game) => {
                    &&& crate::setup::config_error(model.sections@) is None
                    &&& game.wf()
                    &&& exists|fresh: GameState| #[trigger]
                        fresh.is_fresh(&map) && game.spec_state().configured_from(
                            &fresh,
                            model.sections@,
                        )
                    &&& game.spec_ui_color() == match crate::setup::last_game(model.sections@) {
                        Some(g) => g.ui_color@,
                        None => "#FFFFFF"@,
                    }
                    &&& game.spec_ui_state() == UiState::Normal
                    &&& game.ai_slots() == game.spec_state().civilizations@.len()
                    &&& forall|i: int| !game.has_ai(i)
                },
                Err(e) => crate::setup::config_error(model.sections@) == Some(e),
            },
    {
        match GameState::from_model(model, map) {
            Ok((state, color)) => {
                let ui_color = match color {
                    Some(c) => c,
                    None => String::from_str("#FFFFFF"),
                };
                Ok(Game::from_state(state, ui_color))
            },
            Err(e) => Err(e),
        }
    }
}

} // verus!
