//! The state of a game: the civilizations, what they have queued, the
//! armies on the march, and what the screen shows.

use crate::ast::{BuildingDef, BuildingInstance, City, UnitDef, UnitInstance};
use crate::map::{GameMap, Point};
use crate::text::{clear_text, pop_char, push_char, texts};
use vstd::prelude::*;

verus! {

/// The single resource that a civilization holds.
#[derive(Clone, Copy, Debug, PartialEq, Eq, Structural)]
pub struct Resources {
    pub ressources: i32,
}

/// A building under construction.
#[derive(Clone, Debug)]
pub struct Construction {
    pub id_building: String,
    pub remaining: u32,
    pub total: u32,
}

/// Units being recruited.
#[derive(Clone, Debug)]
pub struct Recruitment {
    pub id_unit: String,
    pub remaining: u32,
    pub amount: u32,
}

/// An army on its way from one city to another.
#[derive(Clone, Debug)]
pub struct Travel {
    pub attacker: usize,
    pub defender: usize,
    pub amount: u32,
    pub remaining: u32,
    pub total: u32,
    pub path: Vec<Point>,
}

/// A player: one city, a balance, and what is in progress.
#[derive(Clone, Debug)]
pub struct Civilization {
    pub resources: Resources,
    pub city: City,
    pub alive: bool,
    pub constructions: Vec<Construction>,
    pub recruitments: Vec<Recruitment>,
}

/// What a popup is for. Submitting a popup acts by its kind.
#[derive(Clone, Copy, Debug, PartialEq, Eq, Structural)]
pub enum PopupKind {
    Build,
    Hire,
    Attack,
    Action,
    Battle,
    GameOver,
}

/// A dialog that asks for a choice or reports what happened.
#[derive(Clone, Debug)]
pub struct Popup {
    pub kind: PopupKind,
    pub prompt: String,
    pub choices: Vec<String>,
    pub input: String,
}

/// Why a command was refused.
#[derive(Clone, Copy, Debug, PartialEq, Eq, Structural)]
pub enum ActionError {
    UnknownBuilding,
    UnknownUnit,
    AlreadyInProgress,
    NoSlot,
    InsufficientResources,
    NoProducer,
    InvalidIndex,
    SelfAttack,
    GameOver,
    AttackerDead,
    DefenderDead,
    CivilizationDead,
    NoUnitsAvailable,
    InvalidAmount,
    NoPath,
}

/// A map that the caller is asked to generate. Without a seed, the caller
/// picks one at random.
#[derive(Clone, Debug)]
pub struct MapRequest {
    pub seed: Option<String>,
    pub width: usize,
    pub height: usize,
}

/// The whole state of a game.
#[derive(Debug)]
pub struct GameState {
    pub map: GameMap,
    pub turn: i32,
    pub player_turn: usize,
    pub civilizations: Vec<Civilization>,
    pub seed_editing: bool,
    pub camera_x: i32,
    pub camera_y: i32,
    pub camera_mode: bool,
    pub buildings: Vec<BuildingDef>,
    pub units: Vec<UnitDef>,
    pub nb_turns: u32,
    pub resources_spent: u32,
    pub zoom_level: u8,
    pub action_editing: bool,
    pub action_input: String,
    pub popup: Option<Popup>,
    pub travels: Vec<Travel>,
    pub game_over: bool,
    pub winner: Option<usize>,
}

/// What changes about a civilization while a game runs, as plain values.
pub struct CivState {
    pub balance: int,
    pub building_slots: nat,
    pub unit_slots: nat,
    pub buildings: Seq<BuildingInstance>,
    pub units: Seq<UnitInstance>,
    pub alive: bool,
    pub constructions: Seq<Construction>,
    pub recruitments: Seq<Recruitment>,
}

impl CivState {
    /// Built and queued together never exceed the slots, for buildings and
    /// for units.
    pub open spec fn within_capacity(self) -> bool {
        &&& self.buildings.len() + self.constructions.len() <= self.building_slots
        &&& self.units.len() + self.recruitments.len() <= self.unit_slots
    }

    /// At most one construction and one recruitment are in progress.
    pub open spec fn one_at_a_time(self) -> bool {
        self.constructions.len() <= 1 && self.recruitments.len() <= 1
    }

    /// Within capacity, with at most one order of each kind in progress.
    pub open spec fn wf(self) -> bool {
        self.within_capacity() && self.one_at_a_time()
    }
}

impl Civilization {
    /// The changing part of the civilization.
    pub open spec fn state(&self) -> CivState {
        CivState {
            balance: self.resources.ressources as int,
            building_slots: self.city.nb_slots_buildings as nat,
            unit_slots: self.city.nb_slots_units as nat,
            buildings: self.city.buildings@,
            units: self.city.units@,
            alive: self.alive,
            constructions: self.constructions@,
            recruitments: self.recruitments@,
        }
    }

    /// True when `other` is the same player with the same city: name,
    /// place, colour, capacity and kind of player.
    pub open spec fn same_identity(&self, other: &Civilization) -> bool {
        &&& self.city.name == other.city.name
        &&& self.city.x == other.city.x
        &&& self.city.y == other.city.y
        &&& self.city.color == other.city.color
        &&& self.city.nb_slots_buildings == other.city.nb_slots_buildings
        &&& self.city.nb_slots_units == other.city.nb_slots_units
        &&& self.city.player_type == other.city.player_type
        &&& self.city.starting_resources == other.city.starting_resources
    }

    /// Where the city lies on the map.
    pub open spec fn position(&self) -> Point {
        (self.city.x as usize, self.city.y as usize)
    }
}

impl Travel {
    /// Both ends are civilizations of the game, and the army still has at
    /// least one turn to march.
    pub open spec fn wf(&self, civs: nat) -> bool {
        self.attacker < civs && self.defender < civs && self.remaining >= 1
    }
}

impl PopupKind {
    /// The title under which a popup of this kind is shown.
    pub open spec fn spec_title(self) -> Seq<char> {
        match self {
            PopupKind::Build => "Build"@,
            PopupKind::Hire => "Hire"@,
            PopupKind::Attack => "Attack"@,
            PopupKind::Action => "Action"@,
            PopupKind::Battle => "Battle"@,
            PopupKind::GameOver => "Game Over"@,
        }
    }

    /// The title under which a popup of this kind is shown.
    pub fn title(&self) -> (s: &'static str)
        ensures
            s@ == self.spec_title(),
    {
        match self {
            PopupKind::Build => "Build",
            PopupKind::Hire => "Hire",
            PopupKind::Attack => "Attack",
            PopupKind::Action => "Action",
            PopupKind::Battle => "Battle",
            PopupKind::GameOver => "Game Over",
        }
    }
}

impl Popup {
    /// The popup's title.
    pub fn title(&self) -> (s: &'static str)
        ensures
            s@ == self.kind.spec_title(),
    {
        self.kind.title()
    }

    /// True when the popup is of the given kind, shows the given prompt and
    /// choices, and nothing has been typed into it.
    pub open spec fn shows(&self, kind: PopupKind, prompt: Seq<char>, choices: Seq<Seq<char>>) -> bool {
        &&& self.kind == kind
        &&& self.prompt@ == prompt
        &&& texts(self.choices@) == choices
        &&& self.input@ == Seq::<char>::empty()
    }
}

/// The changing parts of some civilizations, in order.
pub open spec fn states(civs: Seq<Civilization>) -> Seq<CivState> {
    Seq::new(civs.len(), |i: int| civs[i].state())
}

impl GameState {
    /// What every operation relies on: the map is rectangular, there is a
    /// civilization and the active one exists, every civilization respects
    /// its capacity with at most one construction and one recruitment in
    /// progress, every march runs between civilizations of the game, and the
    /// zoom is 1, 2 or 3.
    pub open spec fn wf(&self) -> bool {
        &&& self.map.wf()
        &&& self.civilizations@.len() > 0
        &&& self.player_turn < self.civilizations@.len()
        &&& forall|i: int|
            0 <= i < self.civilizations@.len() ==> (#[trigger] self.civilizations@[i]).state().wf()
        &&& forall|i: int|
            0 <= i < self.travels@.len() ==> (#[trigger] self.travels@[i]).wf(
                self.civilizations@.len(),
            )
        &&& 1 <= self.zoom_level <= 3
    }

    /// The map, the templates and the victory thresholds are those of `other`.
    pub open spec fn same_setting(&self, other: &GameState) -> bool {
        &&& self.map == other.map
        &&& self.buildings == other.buildings
        &&& self.units == other.units
        &&& self.nb_turns == other.nb_turns
        &&& self.resources_spent == other.resources_spent
    }

    /// The seed editor, the camera and the zoom are those of `other`.
    pub open spec fn same_screen(&self, other: &GameState) -> bool {
        &&& self.seed_editing == other.seed_editing
        &&& self.camera_x == other.camera_x
        &&& self.camera_y == other.camera_y
        &&& self.camera_mode == other.camera_mode
        &&& self.zoom_level == other.zoom_level
    }

    /// The command line and the popup are those of `other`.
    pub open spec fn same_dialog(&self, other: &GameState) -> bool {
        &&& self.action_editing == other.action_editing
        &&& self.action_input == other.action_input
        &&& self.popup == other.popup
    }

    /// The turn counter and the active player are those of `other`.
    pub open spec fn same_clock(&self, other: &GameState) -> bool {
        self.turn == other.turn && self.player_turn == other.player_turn
    }

    /// The game-over latch and the winner are those of `other`.
    pub open spec fn same_outcome(&self, other: &GameState) -> bool {
        self.game_over == other.game_over && self.winner == other.winner
    }

    /// The civilizations are those of `other`, except at most the one at
    /// `civ`, which is still the same player with the same city.
    pub open spec fn same_civs_but(&self, other: &GameState, civ: int) -> bool {
        &&& self.civilizations@.len() == other.civilizations@.len()
        &&& forall|i: int|
            0 <= i < self.civilizations@.len() && i != civ ==> self.civilizations@[i]
                == other.civilizations@[i]
        &&& 0 <= civ < self.civilizations@.len() ==> self.civilizations@[civ].same_identity(
            &other.civilizations@[civ],
        )
    }

    /// The civilizations are the same players with the same cities as in
    /// `other`.
    pub open spec fn same_players(&self, other: &GameState) -> bool {
        &&& self.civilizations@.len() == other.civilizations@.len()
        &&& forall|i: int|
            0 <= i < self.civilizations@.len() ==> (#[trigger] self.civilizations@[i]).same_identity(
                &other.civilizations@[i],
            )
    }

    /// The largest camera coordinate along an axis of the given length.
    pub open spec fn camera_limit(length: usize) -> int {
        if length == 0 {
            0
        } else if length - 1 > i32::MAX {
            i32::MAX as int
        } else {
            length - 1
        }
    }

    /// `v` brought into `0..=camera_limit(length)`.
    pub open spec fn clamped(v: int, length: usize) -> int {
        if v < 0 {
            0
        } else if v > Self::camera_limit(length) {
            Self::camera_limit(length)
        } else {
            v
        }
    }

    /// A camera coordinate after the zoom has moved on from `zoom`: doubled
    /// from 1 to 2, times three halves from 2 to 3, a third from 3 to 1,
    /// always rounded toward zero.
    pub open spec fn rescaled(v: int, zoom: u8) -> int {
        if zoom == 1 {
            v * 2
        } else if zoom == 2 {
            Self::toward_zero(v * 3, 2)
        } else {
            Self::toward_zero(v, 3)
        }
    }

    /// `a / b` rounded toward zero, for positive `b`.
    pub open spec fn toward_zero(a: int, b: int) -> int {
        if a >= 0 {
            a / b
        } else {
            -((-a) / b)
        }
    }

    /// The zoom level that follows `zoom`.
    pub open spec fn next_zoom(zoom: u8) -> u8 {
        if zoom == 1 {
            2
        } else if zoom == 2 {
            3
        } else {
            1
        }
    }

    fn clamp_camera(v: i64, length: usize) -> (r: i32)
        ensures
            r == Self::clamped(v as int, length),
    {
        let limit: i64 = if length == 0 {
            0
        } else if length - 1 > 0x7fff_ffff {
            0x7fff_ffff
        } else {
            (length - 1) as i64
        };
        if v < 0 {
            0
        } else if v > limit {
            limit as i32
        } else {
            v as i32
        }
    }

    /// True when this state is `before` with another seed text.
    pub open spec fn reseeded(&self, before: &GameState, seed: Seq<char>) -> bool {
        &&& self.map.seed@ == seed
        &&& self.map.tiles == before.map.tiles
        &&& self.map.width == before.map.width
        &&& self.map.height == before.map.height
        &&& *self == (GameState { map: self.map, ..*before })
    }

    /// True when this state is `before` with another command line text.
    pub open spec fn retyped(&self, before: &GameState, line: Seq<char>) -> bool {
        &&& self.action_input@ == line
        &&& *self == (GameState { action_input: self.action_input, ..*before })
    }

    /// True when this state is `before` with another text on the input line
    /// of its popup, or just `before` if no popup is open.
    pub open spec fn popup_retyped(&self, before: &GameState, edit: spec_fn(Seq<char>) -> Seq<char>) -> bool {
        match before.popup {
            None => *self == *before,
            Some(p) => {
                &&& self.popup matches Some(q)
                &&& q.input@ == edit(p.input@)
                &&& q.kind == p.kind
                &&& q.prompt == p.prompt
                &&& q.choices == p.choices
                &&& *self == (GameState { popup: self.popup, ..*before })
            },
        }
    }

    /// A text without its last character, if it has one.
    pub open spec fn shortened(text: Seq<char>) -> Seq<char> {
        if text.len() > 0 {
            text.drop_last()
        } else {
            text
        }
    }

    /// The state with the seed editor switched.
    pub open spec fn seed_edit_toggled(&self) -> GameState {
        GameState { seed_editing: !self.seed_editing, ..*self }
    }

    /// The state with camera mode switched.
    pub open spec fn camera_mode_toggled(&self) -> GameState {
        GameState { camera_mode: !self.camera_mode, ..*self }
    }

    /// The state after the camera has been asked to move: moved and kept
    /// on the map while camera mode is on, else unchanged.
    pub open spec fn camera_moved(&self, dx: i32, dy: i32) -> GameState {
        if self.camera_mode {
            GameState {
                camera_x: Self::clamped(self.camera_x + dx, self.map.width) as i32,
                camera_y: Self::clamped(self.camera_y + dy, self.map.height) as i32,
                ..*self
            }
        } else {
            *self
        }
    }

    /// The state at the next zoom level, with the camera looking at the
    /// same place, still on the map.
    pub open spec fn zoom_cycled(&self) -> GameState {
        GameState {
            zoom_level: Self::next_zoom(self.zoom_level),
            camera_x: Self::clamped(Self::rescaled(self.camera_x as int, self.zoom_level), self.map.width) as i32,
            camera_y: Self::clamped(
                Self::rescaled(self.camera_y as int, self.zoom_level),
                self.map.height,
            ) as i32,
            ..*self
        }
    }

    /// The map that the seed editor asks for: the present seed in the
    /// present size.
    pub open spec fn asks_for_seed(&self, request: &MapRequest) -> bool {
        &&& request.seed matches Some(s) && s@ == self.map.seed@
        &&& request.width == self.map.width
        &&& request.height == self.map.height
    }

    /// Switches the seed editor on or off.
    pub fn toggle_seed_edit(&mut self)
        ensures
            *final(self) == old(self).seed_edit_toggled(),
    {
        self.seed_editing = !self.seed_editing;
    }

    /// Appends a character to the seed while the seed editor is on.
    pub fn add_seed_char(&mut self, ch: char)
        ensures
            final(self).reseeded(
                old(self),
                if old(self).seed_editing {
                    old(self).map.seed@.push(ch)
                } else {
                    old(self).map.seed@
                },
            ),
    {
        if self.seed_editing {
            push_char(&mut self.map.seed, ch);
        }
    }

    /// Removes the last character of the seed while the seed editor is on.
    pub fn backspace_seed(&mut self)
        ensures
            final(self).reseeded(
                old(self),
                if old(self).seed_editing {
                    Self::shortened(old(self).map.seed@)
                } else {
                    old(self).map.seed@
                },
            ),
    {
        if self.seed_editing {
            pop_char(&mut self.map.seed);
        }
    }

    /// Leaves the seed editor and asks for the map that the seed describes,
    /// in the size of the present one.
    pub fn submit_seed(&mut self) -> (request: MapRequest)
        ensures
            *final(self) == (GameState { seed_editing: false, ..*old(self) }),
            old(self).asks_for_seed(&request),
    {
        self.seed_editing = false;
        MapRequest { seed: Some(self.map.seed.clone()), width: self.map.width, height: self.map.height }
    }

    /// Replaces the map, if the new one is rectangular. Returns whether it
    /// was taken.
    pub fn install_map(&mut self, map: GameMap) -> (taken: bool)
        ensures
            taken == map.wf(),
            taken ==> *final(self) == (GameState { map: map, ..*old(self) }),
            !taken ==> *final(self) == *old(self),
            old(self).wf() ==> final(self).wf(),
    {
        if map.is_well_formed() {
            self.map = map;
            true
        } else {
            false
        }
    }

    /// Switches camera mode on or off.
    pub fn toggle_camera_mode(&mut self)
        ensures
            *final(self) == old(self).camera_mode_toggled(),
    {
        self.camera_mode = !self.camera_mode;
    }

    /// Starts typing a command on an empty line.
    pub fn start_action_input(&mut self)
        ensures
            final(self).retyped(
                &(GameState { action_editing: true, ..*old(self) }),
                Seq::<char>::empty(),
            ),
    {
        clear_text(&mut self.action_input);
        self.action_editing = true;
    }

    /// Appends a character to the command line while it is being edited.
    pub fn add_action_char(&mut self, ch: char)
        ensures
            final(self).retyped(
                old(self),
                if old(self).action_editing {
                    old(self).action_input@.push(ch)
                } else {
                    old(self).action_input@
                },
            ),
    {
        if self.action_editing {
            push_char(&mut self.action_input, ch);
        }
    }

    /// Removes the last character of the command line while it is being
    /// edited.
    pub fn backspace_action(&mut self)
        ensures
            final(self).retyped(
                old(self),
                if old(self).action_editing {
                    Self::shortened(old(self).action_input@)
                } else {
                    old(self).action_input@
                },
            ),
    {
        if self.action_editing {
            pop_char(&mut self.action_input);
        }
    }

    /// Appends a character to the input line of the open popup, if any.
    pub fn add_popup_char(&mut self, ch: char)
        ensures
            final(self).popup_retyped(old(self), |text: Seq<char>| text.push(ch)),
    {
        match &mut self.popup {
            Some(p) => {
                push_char(&mut p.input, ch);
            },
            None => {},
        }
    }

    /// Removes the last character of the input line of the open popup, if
    /// any.
    pub fn backspace_popup(&mut self)
        ensures
            final(self).popup_retyped(old(self), |text: Seq<char>| Self::shortened(text)),
    {
        match &mut self.popup {
            Some(p) => {
                pop_char(&mut p.input);
            },
            None => {},
        }
    }

    /// Opens a popup with an empty input line, and stops command editing.
    pub fn open_popup(&mut self, kind: PopupKind, prompt: &str, choices: Vec<String>)
        ensures
            final(self).popup matches Some(p) && p.kind == kind && p.prompt@ == prompt@ && p.choices
                == choices && p.input@ == Seq::<char>::empty(),
            *final(self) == (GameState {
                popup: final(self).popup,
                action_editing: false,
                ..*old(self)
            }),
    {
        self.popup = Some(Popup { kind, prompt: prompt.to_owned(), choices, input: String::new() });
        self.action_editing = false;
    }

    /// Closes the popup, if one is open.
    pub fn close_popup(&mut self)
        ensures
            *final(self) == (GameState { popup: None, ..*old(self) }),
    {
        self.popup = None;
    }

    /// Moves the camera by the given steps while camera mode is on, and
    /// keeps it on the map.
    pub fn move_camera(&mut self, dx: i32, dy: i32)
        ensures
            *final(self) == old(self).camera_moved(dx, dy),
    {
        if self.camera_mode {
            self.camera_x = Self::clamp_camera(self.camera_x as i64 + dx as i64, self.map.width);
            self.camera_y = Self::clamp_camera(self.camera_y as i64 + dy as i64, self.map.height);
        }
    }

    /// Steps the zoom from 1 to 2 to 3 and back to 1, and moves the camera
    /// so that it keeps looking at the same place, still on the map.
    pub fn cycle_zoom(&mut self)
        requires
            1 <= old(self).zoom_level <= 3,
        ensures
            *final(self) == old(self).zoom_cycled(),
    {
        let zoom = self.zoom_level;
        let x = self.camera_x as i64;
        let y = self.camera_y as i64;
        let (nx, ny): (i64, i64) = if zoom == 1 {
            (x * 2, y * 2)
        } else if zoom == 2 {
            ((x * 3) / 2, (y * 3) / 2)
        } else {
            (x / 3, y / 3)
        };
        self.zoom_level = if zoom == 1 {
            2
        } else if zoom == 2 {
            3
        } else {
            1
        };
        self.camera_x = Self::clamp_camera(nx, self.map.width);
        self.camera_y = Self::clamp_camera(ny, self.map.height);
    }
}

} // verus!
