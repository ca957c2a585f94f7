//! Commands and popups: what a line of text does to the game.
//!
//! A command line is trimmed, lowercased and cut into words. The first word
//! is the verb: `end` (or `end turn`), `build`, `hire` or `recruit`, and
//! `attack`. A verb without its argument opens a popup that lists the
//! choices; a command that is refused opens one that says why.

use crate::ast::{
    building_names, lemma_position_extends, position, unit_names, BuildingDef, UnitDef,
};
use crate::combat::city_names;
use crate::state::{ActionError, Civilization, GameState, PopupKind};
use crate::text::{
    clear_text, has_prefix, join2, lowercase, lowercase_of, normalize, normalized, parse_decimal,
    parse_u32, same_text, texts, trimmed, trimmed_of, unsigned_value, words, words_of,
};
use vstd::prelude::*;
use vstd::string::StringExecFns;

verus! {

/// Some names in lowercase, in order.
pub open spec fn lowered(names: Seq<Seq<char>>) -> Seq<Seq<char>> {
    Seq::new(names.len(), |i: int| lowercase_of(names[i]))
}

/// The names without the one at `skip`, if there is one.
pub open spec fn others(names: Seq<Seq<char>>, skip: int) -> Seq<Seq<char>> {
    if 0 <= skip < names.len() {
        names.remove(skip)
    } else {
        names
    }
}

/// The place of the first entry that starts with `needle`.
pub open spec fn first_prefixed(names: Seq<Seq<char>>, needle: Seq<char>) -> Option<int>
    decreases names.len(),
{
    if names.len() == 0 {
        None
    } else {
        match first_prefixed(names.drop_last(), needle) {
            Some(i) => Some(i),
            None => if needle.is_prefix_of(names.last()) {
                Some(names.len() - 1)
            } else {
                None
            },
        }
    }
}

/// The choice that a number or a prefix picks: the number, counted from
/// one, if it names a choice, else the first choice that starts with
/// `needle`.
pub open spec fn picked(choices: Seq<Seq<char>>, number: Option<nat>, needle: Seq<char>) -> Option<int> {
    match number {
        Some(n) => if 1 <= n <= choices.len() {
            Some(n - 1)
        } else {
            first_prefixed(choices, needle)
        },
        None => first_prefixed(choices, needle),
    }
}

/// The choice that the input of a popup picks: the input is trimmed; read
/// as a number it counts the choices from one; failing that it picks, case
/// aside, the first choice that starts with it.
pub open spec fn chosen(choices: Seq<Seq<char>>, input: Seq<char>) -> Option<int> {
    let sel = trimmed_of(input);
    picked(lowered(choices), unsigned_value(sel), lowercase_of(sel))
}

/// The amount that the third word of an attack command asks for, if it is
/// a number that fits in 32 bits.
pub open spec fn parsed_amount(words: Seq<Seq<char>>) -> Option<u32> {
    if words.len() >= 3 {
        match unsigned_value(words[2]) {
            Some(v) => if v <= u32::MAX {
                Some(v as u32)
            } else {
                None
            },
            None => None,
        }
    } else {
        None
    }
}

/// True when the words are `end`, or `end turn`.
pub open spec fn is_end(words: Seq<Seq<char>>) -> bool {
    ||| words.len() == 1 && words[0] == "end"@
    ||| words.len() == 2 && words[0] == "end"@ && words[1] == "turn"@
}

/// The kind of popup that answers a command with the given verb.
pub open spec fn verb_kind(verb: Seq<char>) -> PopupKind {
    if verb == "build"@ {
        PopupKind::Build
    } else if verb == "hire"@ || verb == "recruit"@ {
        PopupKind::Hire
    } else if verb == "attack"@ {
        PopupKind::Attack
    } else {
        PopupKind::Action
    }
}

/// What a popup says when a command is refused. `name` is what the command
/// was about.
pub open spec fn refusal_text(kind: PopupKind, e: ActionError, name: Seq<char>) -> Seq<char> {
    match e {
        ActionError::UnknownBuilding => "Unknown building: "@ + name,
        ActionError::UnknownUnit => "Unknown unit: "@ + name,
        ActionError::AlreadyInProgress => if kind == PopupKind::Hire {
            "Another recruitment is already in progress"@
        } else {
            "Another construction is already in progress"@
        },
        ActionError::NoSlot => if kind == PopupKind::Hire {
            "No available unit slots"@
        } else {
            "No available building slots"@
        },
        ActionError::InsufficientResources => if kind == PopupKind::Hire {
            "Not enough resources to recruit unit"@
        } else {
            "Not enough resources for building"@
        },
        ActionError::NoProducer => "No building able to produce this unit is present"@,
        ActionError::InvalidIndex => "Invalid civilization index"@,
        ActionError::SelfAttack => "Cannot attack yourself"@,
        ActionError::GameOver => "Game is over"@,
        ActionError::AttackerDead => "Attacker is not alive"@,
        ActionError::DefenderDead => "Target is already defeated"@,
        ActionError::CivilizationDead => "Civilization is not alive"@,
        ActionError::NoUnitsAvailable => "No units available to send"@,
        ActionError::InvalidAmount => "Invalid amount to send"@,
        ActionError::NoPath => "No path to target"@,
    }
}

/// Writes what a popup says when a command is refused.
pub fn refusal_message(kind: PopupKind, e: ActionError, name: &str) -> (r: String)
    ensures
        r@ == refusal_text(kind, e, name@),
{
    let hire = match kind {
        PopupKind::Hire => true,
        _ => false,
    };
    match e {
        ActionError::UnknownBuilding => join2("Unknown building: ", name),
        ActionError::UnknownUnit => join2("Unknown unit: ", name),
        ActionError::AlreadyInProgress => if hire {
            String::from_str("Another recruitment is already in progress")
        } else {
            String::from_str("Another construction is already in progress")
        },
        ActionError::NoSlot => if hire {
            String::from_str("No available unit slots")
        } else {
            String::from_str("No available building slots")
        },
        ActionError::InsufficientResources => if hire {
            String::from_str("Not enough resources to recruit unit")
        } else {
            String::from_str("Not enough resources for building")
        },
        ActionError::NoProducer => String::from_str("No building able to produce this unit is present"),
        ActionError::InvalidIndex => String::from_str("Invalid civilization index"),
        ActionError::SelfAttack => String::from_str("Cannot attack yourself"),
        ActionError::GameOver => String::from_str("Game is over"),
        ActionError::AttackerDead => String::from_str("Attacker is not alive"),
        ActionError::DefenderDead => String::from_str("Target is already defeated"),
        ActionError::CivilizationDead => String::from_str("Civilization is not alive"),
        ActionError::NoUnitsAvailable => String::from_str("No units available to send"),
        ActionError::InvalidAmount => String::from_str("Invalid amount to send"),
        ActionError::NoPath => String::from_str("No path to target"),
    }
}

/// The names of the building templates.
pub fn names_of_buildings(defs: &Vec<BuildingDef>) -> (r: Vec<String>)
    ensures
        texts(r@) == building_names(defs@),
{
    let mut r: Vec<String> = Vec::new();
    let mut k: usize = 0;
    while k < defs.len()
        invariant
            k <= defs@.len(),
            r@.len() == k,
            forall|i: int| 0 <= i < k ==> (#[trigger] r@[i])@ == defs@[i].name@,
        decreases defs@.len() - k,
    {
        r.push(defs[k].name.clone());
        k = k + 1;
    }
    assert(texts(r@) =~= building_names(defs@));
    r
}

/// The names of the unit templates.
pub fn names_of_units(defs: &Vec<UnitDef>) -> (r: Vec<String>)
    ensures
        texts(r@) == unit_names(defs@),
{
    let mut r: Vec<String> = Vec::new();
    let mut k: usize = 0;
    while k < defs.len()
        invariant
            k <= defs@.len(),
            r@.len() == k,
            forall|i: int| 0 <= i < k ==> (#[trigger] r@[i])@ == defs@[i].name@,
        decreases defs@.len() - k,
    {
        r.push(defs[k].name.clone());
        k = k + 1;
    }
    assert(texts(r@) =~= unit_names(defs@));
    r
}

/// The names of the cities.
pub fn names_of_cities(civs: &Vec<Civilization>) -> (r: Vec<String>)
    ensures
        texts(r@) == city_names(civs@),
{
    let mut r: Vec<String> = Vec::new();
    let mut k: usize = 0;
    while k < civs.len()
        invariant
            k <= civs@.len(),
            r@.len() == k,
            forall|i: int| 0 <= i < k ==> (#[trigger] r@[i])@ == civs@[i].city.name@,
        decreases civs@.len() - k,
    {
        r.push(civs[k].city.name.clone());
        k = k + 1;
    }
    assert(texts(r@) =~= city_names(civs@));
    r
}

/// The names of the cities of all civilizations but `player`.
pub fn names_of_others(civs: &Vec<Civilization>, player: usize) -> (r: Vec<String>)
    ensures
        texts(r@) == others(city_names(civs@), player as int),
{
    let ghost names = city_names(civs@);
    let mut r: Vec<String> = Vec::new();
    let mut k: usize = 0;
    while k < civs.len()
        invariant
            k <= civs@.len(),
            names == city_names(civs@),
            texts(r@) == others(names.subrange(0, k as int), player as int),
        decreases civs@.len() - k,
    {
        let ghost before = texts(r@);
        if k != player {
            r.push(civs[k].city.name.clone());
            assert(texts(r@) =~= before.push(names[k as int]));
        }
        assert(texts(r@) =~= others(names.subrange(0, k as int + 1), player as int));
        k = k + 1;
    }
    assert(names.subrange(0, k as int) =~= names);
    r
}

/// Some names in lowercase.
pub fn to_lowercase_all(names: &Vec<String>) -> (r: Vec<String>)
    ensures
        texts(r@) == lowered(texts(names@)),
{
    let mut r: Vec<String> = Vec::new();
    let mut k: usize = 0;
    while k < names.len()
        invariant
            k <= names@.len(),
            r@.len() == k,
            forall|i: int| 0 <= i < k ==> (#[trigger] r@[i])@ == lowercase_of(names@[i]@),
        decreases names@.len() - k,
    {
        r.push(lowercase(names[k].as_str()));
        k = k + 1;
    }
    assert(texts(r@) =~= lowered(texts(names@)));
    r
}

/// Finds the first of `names` that equals `name`.
pub fn find_name(names: &Vec<String>, name: &str) -> (r: Option<usize>)
    ensures
        match r {
            Some(i) => position(texts(names@), name@) == Some(i as int) && i < names@.len(),
            None => position(texts(names@), name@) is None,
        },
{
    let ghost all = texts(names@);
    let mut k: usize = 0;
    while k < names.len()
        invariant
            k <= names@.len(),
            all == texts(names@),
            position(all.subrange(0, k as int), name@) is None,
        decreases names@.len() - k,
    {
        proof {
            assert(all.subrange(0, k as int + 1).drop_last() =~= all.subrange(0, k as int));
        }
        if same_text(names[k].as_str(), name) {
            proof {
                lemma_position_extends(all, name@, k as int + 1);
            }
            return Some(k);
        }
        k = k + 1;
    }
    assert(all.subrange(0, k as int) =~= all);
    None
}

/// A prefixed entry found among the first names is the first of all.
proof fn lemma_first_prefixed_extends(names: Seq<Seq<char>>, needle: Seq<char>, k: int)
    requires
        0 <= k <= names.len(),
        first_prefixed(names.subrange(0, k), needle) is Some,
    ensures
        first_prefixed(names, needle) == first_prefixed(names.subrange(0, k), needle),
    decreases names.len() - k,
{
    if k == names.len() {
        assert(names.subrange(0, k) =~= names);
    } else {
        assert(names.subrange(0, k + 1).drop_last() =~= names.subrange(0, k));
        lemma_first_prefixed_extends(names, needle, k + 1);
    }
}

/// Picks a choice by number or by prefix. The choices and the prefix are
/// compared as they stand.
pub fn pick_choice(choices: &Vec<String>, number: Option<u64>, needle: &str) -> (r: Option<usize>)
    ensures
        match r {
            Some(i) => i < choices@.len() && picked(
                texts(choices@),
                match number {
                    Some(n) => Some(n as nat),
                    None => None,
                },
                needle@,
            ) == Some(i as int),
            None => picked(
                texts(choices@),
                match number {
                    Some(n) => Some(n as nat),
                    None => None,
                },
                needle@,
            ) is None,
        },
{
    let count = choices.len();
    match number {
        Some(n) => {
            if 1 <= n && n <= count as u64 {
                return Some((n - 1) as usize);
            }
        },
        None => {},
    }
    let ghost all = texts(choices@);
    let mut k: usize = 0;
    while k < count
        invariant
            count == choices@.len(),
            k <= count,
            all == texts(choices@),
            number matches Some(n) ==> !(1 <= n <= count),
            first_prefixed(all.subrange(0, k as int), needle@) is None,
        decreases count - k,
    {
        proof {
            assert(all.subrange(0, k as int + 1).drop_last() =~= all.subrange(0, k as int));
        }
        if has_prefix(choices[k].as_str(), needle) {
            proof {
                assert(all.subrange(0, k as int + 1).last() == choices@[k as int]@);
                assert(first_prefixed(all.subrange(0, k as int + 1), needle@) == Some(k as int));
                lemma_first_prefixed_extends(all, needle@, k as int + 1);
            }
            return Some(k);
        }
        assert(all.subrange(0, k as int + 1).last() == choices@[k as int]@);
        k = k + 1;
    }
    assert(all.subrange(0, k as int) =~= all);
    None
}

/// Resolves the input of a popup to one of its choices.
pub fn resolve_choice(choices: &Vec<String>, input: &str) -> (r: Option<usize>)
    ensures
        match r {
            Some(i) => i < choices@.len() && chosen(texts(choices@), input@) == Some(i as int),
            None => chosen(texts(choices@), input@) is None,
        },
{
    let sel = trimmed(input);
    let number = parse_decimal(sel);
    let needle = lowercase(sel);
    let folded = to_lowercase_all(choices);
    let r = pick_choice(&folded, number, needle.as_str());
    proof {
        let count = choices.len();
        assert(texts(folded@).len() == choices@.len());
    }
    r
}

impl GameState {
    /// The state with the given command line.
    pub open spec fn with_line(&self, line: String, editing: bool) -> GameState {
        GameState { action_input: line, action_editing: editing, ..*self }
    }

    /// True when this state is `before` with a fresh popup of the given
    /// kind, prompt and choices, and with command editing stopped.
    pub open spec fn popup_opened(
        &self,
        before: &GameState,
        kind: PopupKind,
        prompt: Seq<char>,
        choices: Seq<Seq<char>>,
    ) -> bool {
        &&& self.popup matches Some(p) && p.shows(kind, prompt, choices)
        &&& *self == (GameState { popup: self.popup, action_editing: false, ..*before })
    }

    /// What a `build` command makes of the state `before`.
    pub open spec fn build_applied(&self, before: &GameState, words: Seq<Seq<char>>, opened: bool) -> bool {
        let defs = before.buildings@;
        let player = before.player_turn;
        if words.len() < 2 {
            opened && self.popup_opened(
                before,
                PopupKind::Build,
                "Choose building type:"@,
                building_names(defs),
            )
        } else {
            match position(lowered(building_names(defs)), words[1]) {
                None => opened && self.popup_opened(
                    before,
                    PopupKind::Build,
                    "Unknown building: "@ + words[1],
                    Seq::empty(),
                ),
                Some(i) => match before.construction_outcome(player, defs[i].name@) {
                    Ok(_) => {
                        &&& !opened
                        &&& self.action_input@ == Seq::<char>::empty()
                        &&& self.construction_started(
                            &before.with_line(self.action_input, false),
                            player,
                            defs[i].name@,
                            Ok(()),
                        )
                    },
                    Err(e) => opened && self.popup_opened(
                        before,
                        PopupKind::Build,
                        refusal_text(PopupKind::Build, e, defs[i].name@),
                        Seq::empty(),
                    ),
                },
            }
        }
    }

    /// What a `hire` or `recruit` command makes of the state `before`.
    pub open spec fn hire_applied(&self, before: &GameState, words: Seq<Seq<char>>, opened: bool) -> bool {
        let defs = before.units@;
        let player = before.player_turn;
        if words.len() < 2 {
            opened && self.popup_opened(before, PopupKind::Hire, "Choose unit to hire:"@, unit_names(defs))
        } else {
            match position(lowered(unit_names(defs)), words[1]) {
                None => opened && self.popup_opened(
                    before,
                    PopupKind::Hire,
                    "Unknown unit: "@ + words[1],
                    Seq::empty(),
                ),
                Some(i) => match before.recruitment_outcome(player, defs[i].name@) {
                    Ok(_) => {
                        &&& !opened
                        &&& self.action_input@ == Seq::<char>::empty()
                        &&& self.recruitment_started(
                            &before.with_line(self.action_input, false),
                            player,
                            defs[i].name@,
                            Ok(()),
                        )
                    },
                    Err(e) => opened && self.popup_opened(
                        before,
                        PopupKind::Hire,
                        refusal_text(PopupKind::Hire, e, defs[i].name@),
                        Seq::empty(),
                    ),
                },
            }
        }
    }

    /// What an `attack` command makes of the state `before`.
    pub open spec fn attack_applied(&self, before: &GameState, words: Seq<Seq<char>>, opened: bool) -> bool {
        let names = city_names(before.civilizations@);
        let player = before.player_turn;
        if words.len() < 2 {
            opened && self.popup_opened(
                before,
                PopupKind::Attack,
                "Choose player to attack:"@,
                others(names, player as int),
            )
        } else {
            match position(lowered(names), words[1]) {
                None => opened && self.popup_opened(
                    before,
                    PopupKind::Attack,
                    "Unknown target: "@ + words[1],
                    Seq::empty(),
                ),
                Some(i) => match before.attack_failure(player, i as usize, parsed_amount(words)) {
                    None => {
                        &&& !opened
                        &&& self.action_input@ == Seq::<char>::empty()
                        &&& self.attack_started(
                            &before.with_line(self.action_input, false),
                            player,
                            i as usize,
                            parsed_amount(words),
                            Ok(()),
                        )
                    },
                    Some(e) => opened && self.popup_opened(
                        before,
                        PopupKind::Attack,
                        refusal_text(PopupKind::Attack, e, names[i]),
                        Seq::empty(),
                    ),
                },
            }
        }
    }

    /// What a command makes of the state `before`, given the command line
    /// in its normal form and its words, and whether it leaves a popup open.
    ///
    /// An empty line only clears the command line. Once the game is over
    /// every other command is refused with a popup of its verb's kind and
    /// nothing else changes. `end` ends the turn, and leaves open the popup
    /// that the start of the next turn may bring. `build`, `hire` or
    /// `recruit`, and `attack` carry out the order and clear the command
    /// line, or open a popup: with the choices when the argument is missing,
    /// with the reason when the order is refused. Any other verb opens a
    /// popup that names the unknown action.
    pub open spec fn command_applied(
        &self,
        before: &GameState,
        line: Seq<char>,
        words: Seq<Seq<char>>,
        opened: bool,
    ) -> bool {
        if words.len() == 0 {
            &&& !opened
            &&& self.action_input@ == Seq::<char>::empty()
            &&& *self == before.with_line(self.action_input, false)
        } else if before.game_over {
            opened && self.popup_opened(
                before,
                verb_kind(words[0]),
                refusal_text(verb_kind(words[0]), ActionError::GameOver, Seq::empty()),
                Seq::empty(),
            )
        } else if is_end(words) {
            &&& opened == (self.popup is Some)
            &&& self.action_input@ == Seq::<char>::empty()
            &&& self.turn_ended(&before.with_line(self.action_input, false))
        } else if words[0] == "build"@ {
            self.build_applied(before, words, opened)
        } else if words[0] == "hire"@ || words[0] == "recruit"@ {
            self.hire_applied(before, words, opened)
        } else if words[0] == "attack"@ {
            self.attack_applied(before, words, opened)
        } else {
            opened && self.popup_opened(
                before,
                PopupKind::Action,
                "Unknown action: "@ + line,
                Seq::empty(),
            )
        }
    }

    /// Opens a popup without choices that shows `text`.
    fn tell(&mut self, kind: PopupKind, text: String)
        ensures
            final(self).popup_opened(old(self), kind, text@, Seq::empty()),
    {
        self.open_popup(kind, text.as_str(), Vec::new());
        proof {
            let p = self.popup->Some_0;
            assert(texts(p.choices@) =~= Seq::<Seq<char>>::empty());
        }
    }

    /// Clears the command line and stops editing it.
    fn clear_line(&mut self)
        ensures
            final(self).action_input@ == Seq::<char>::empty(),
            *final(self) == old(self).with_line(final(self).action_input, false),
    {
        clear_text(&mut self.action_input);
        self.action_editing = false;
    }

    fn command_build(&mut self, words: &Vec<String>) -> (opened: bool)
        requires
            old(self).wf(),
            words@.len() >= 1,
        ensures
            final(self).wf(),
            final(self).build_applied(old(self), texts(words@), opened),
    {
        if words.len() < 2 {
            let choices = names_of_buildings(&self.buildings);
            self.open_popup(PopupKind::Build, "Choose building type:", choices);
            return true;
        }
        let names = names_of_buildings(&self.buildings);
        let folded = to_lowercase_all(&names);
        let word = words[1].as_str();
        assert(texts(words@)[1] == word@);
        match find_name(&folded, word) {
            None => {
                self.tell(PopupKind::Build, join2("Unknown building: ", word));
                true
            },
            Some(i) => {
                assert(texts(names@)[i as int] == names@[i as int]@);
                let player = self.player_turn;
                match self.start_construction(player, names[i].as_str()) {
                    Ok(()) => {
                        self.clear_line();
                        false
                    },
                    Err(e) => {
                        self.tell(PopupKind::Build, refusal_message(PopupKind::Build, e, names[i].as_str()));
                        true
                    },
                }
            },
        }
    }

    fn command_hire(&mut self, words: &Vec<String>) -> (opened: bool)
        requires
            old(self).wf(),
            words@.len() >= 1,
        ensures
            final(self).wf(),
            final(self).hire_applied(old(self), texts(words@), opened),
    {
        if words.len() < 2 {
            let choices = names_of_units(&self.units);
            self.open_popup(PopupKind::Hire, "Choose unit to hire:", choices);
            return true;
        }
        let names = names_of_units(&self.units);
        let folded = to_lowercase_all(&names);
        let word = words[1].as_str();
        assert(texts(words@)[1] == word@);
        match find_name(&folded, word) {
            None => {
                self.tell(PopupKind::Hire, join2("Unknown unit: ", word));
                true
            },
            Some(i) => {
                assert(texts(names@)[i as int] == names@[i as int]@);
                let player = self.player_turn;
                match self.start_recruitment(player, names[i].as_str()) {
                    Ok(()) => {
                        self.clear_line();
                        false
                    },
                    Err(e) => {
                        self.tell(PopupKind::Hire, refusal_message(PopupKind::Hire, e, names[i].as_str()));
                        true
                    },
                }
            },
        }
    }

    fn command_attack(&mut self, words: &Vec<String>) -> (opened: bool)
        requires
            old(self).wf(),
            words@.len() >= 1,
        ensures
            final(self).wf(),
            final(self).attack_applied(old(self), texts(words@), opened),
    {
        if words.len() < 2 {
            let choices = names_of_others(&self.civilizations, self.player_turn);
            self.open_popup(PopupKind::Attack, "Choose player to attack:", choices);
            return true;
        }
        let names = names_of_cities(&self.civilizations);
        let folded = to_lowercase_all(&names);
        let word = words[1].as_str();
        assert(texts(words@)[1] == word@);
        match find_name(&folded, word) {
            None => {
                self.tell(PopupKind::Attack, join2("Unknown target: ", word));
                true
            },
            Some(i) => {
                assert(texts(names@)[i as int] == names@[i as int]@);
                let amount = if words.len() >= 3 {
                    assert(texts(words@)[2] == words@[2]@);
                    parse_u32(words[2].as_str())
                } else {
                    None
                };
                assert(amount == parsed_amount(texts(words@)));
                let player = self.player_turn;
                match self.start_attack(player, i, amount) {
                    Ok(()) => {
                        self.clear_line();
                        false
                    },
                    Err(e) => {
                        self.tell(PopupKind::Attack, refusal_message(PopupKind::Attack, e, names[i].as_str()));
                        true
                    },
                }
            },
        }
    }

    /// Carries out a command, given the command line in its normal form and
    /// cut into words. Returns whether a popup was opened; for `end`, whether
    /// a popup is open when the next turn has started.
    pub fn execute(&mut self, line: &str, words: &Vec<String>) -> (opened: bool)
        requires
            old(self).wf(),
        ensures
            final(self).wf(),
            final(self).command_applied(old(self), line@, texts(words@), opened),
    {
        if words.len() == 0 {
            self.clear_line();
            return false;
        }
        let verb = words[0].as_str();
        assert(texts(words@)[0] == verb@);
        if self.game_over {
            let kind = if same_text(verb, "build") {
                PopupKind::Build
            } else if same_text(verb, "hire") || same_text(verb, "recruit") {
                PopupKind::Hire
            } else if same_text(verb, "attack") {
                PopupKind::Attack
            } else {
                PopupKind::Action
            };
            self.tell(kind, refusal_message(kind, ActionError::GameOver, ""));
            return true;
        }
        let end = same_text(verb, "end");
        if end && words.len() == 1 {
            self.clear_line();
            self.end_turn();
            return self.popup.is_some();
        }
        if end && words.len() == 2 {
            assert(texts(words@)[1] == words@[1]@);
            if same_text(words[1].as_str(), "turn") {
                self.clear_line();
                self.end_turn();
                return self.popup.is_some();
            }
        }
        if same_text(verb, "build") {
            self.command_build(words)
        } else if same_text(verb, "hire") || same_text(verb, "recruit") {
            self.command_hire(words)
        } else if same_text(verb, "attack") {
            self.command_attack(words)
        } else {
            self.tell(PopupKind::Action, join2("Unknown action: ", line));
            true
        }
    }

    /// Carries out the command on the command line. Returns whether a popup
    /// was opened, which then asks for further input.
    pub fn submit_action(&mut self) -> (opened: bool)
        requires
            old(self).wf(),
        ensures
            final(self).wf(),
            final(self).command_applied(
                old(self),
                normalized(old(self).action_input@),
                words_of(normalized(old(self).action_input@)),
                opened,
            ),
    {
        let line = normalize(self.action_input.as_str());
        let cut = words(line.as_str());
        self.execute(line.as_str(), &cut)
    }

    /// What submitting the open popup makes of the state `before`.
    ///
    /// Without a popup nothing changes. Otherwise the input picks one of the
    /// choices, and the popup acts by its kind: it orders the building, or
    /// the unit, or sends every unit of the active civilization against the
    /// city that was picked. If that succeeds, or if there was nothing to
    /// do, the popup is closed and the command line cleared. If the order is
    /// refused, a popup with the reason takes the place of the old one.
    pub open spec fn popup_submitted(&self, before: &GameState) -> bool {
        match before.popup {
            None => *self == *before,
            Some(p) => {
                let choices = texts(p.choices@);
                let player = before.player_turn;
                let closed = GameState {
                    popup: None,
                    action_input: self.action_input,
                    action_editing: false,
                    ..*before
                };
                let nothing = self.action_input@ == Seq::<char>::empty() && *self == closed;
                match chosen(choices, p.input@) {
                    None => nothing,
                    Some(c) => match p.kind {
                        PopupKind::Build => match before.construction_outcome(player, choices[c]) {
                            Ok(_) => self.action_input@ == Seq::<char>::empty()
                                && self.construction_started(&closed, player, choices[c], Ok(())),
                            Err(ActionError::UnknownBuilding) => nothing,
                            Err(e) => self.popup_opened(
                                before,
                                PopupKind::Build,
                                refusal_text(PopupKind::Build, e, choices[c]),
                                Seq::empty(),
                            ),
                        },
                        PopupKind::Hire => match before.recruitment_outcome(player, choices[c]) {
                            Ok(_) => self.action_input@ == Seq::<char>::empty()
                                && self.recruitment_started(&closed, player, choices[c], Ok(())),
                            Err(ActionError::UnknownUnit) => nothing,
                            Err(e) => self.popup_opened(
                                before,
                                PopupKind::Hire,
                                refusal_text(PopupKind::Hire, e, choices[c]),
                                Seq::empty(),
                            ),
                        },
                        PopupKind::Attack => match position(
                            city_names(before.civilizations@),
                            choices[c],
                        ) {
                            None => nothing,
                            Some(i) => match before.attack_failure(player, i as usize, None) {
                                None => self.action_input@ == Seq::<char>::empty()
                                    && self.attack_started(&closed, player, i as usize, None, Ok(())),
                                Some(e) => self.popup_opened(
                                    before,
                                    PopupKind::Attack,
                                    refusal_text(PopupKind::Attack, e, choices[c]),
                                    Seq::empty(),
                                ),
                            },
                        },
                        _ => nothing,
                    },
                }
            },
        }
    }

    /// Submits the open popup, if there is one.
    pub fn submit_popup(&mut self)
        requires
            old(self).wf(),
        ensures
            final(self).wf(),
            final(self).popup_submitted(old(self)),
    {
        if self.popup.is_none() {
            return ;
        }
        let mut taken: Option<crate::state::Popup> = None;
        std::mem::swap(&mut self.popup, &mut taken);
        let popup = taken.unwrap();
        let ghost choices = texts(popup.choices@);
        let ghost bare = *self;
        let player = self.player_turn;
        let pick = resolve_choice(&popup.choices, popup.input.as_str());
        let c = match pick {
            Some(c) => c,
            None => {
                self.clear_line();
                return ;
            },
        };
        let name = popup.choices[c].as_str();
        assert(choices[c as int] == name@);
        match popup.kind {
            PopupKind::Build => {
                match self.start_construction(player, name) {
                    Ok(()) => {
                        self.clear_line();
                    },
                    Err(ActionError::UnknownBuilding) => {
                        self.clear_line();
                    },
                    Err(e) => {
                        self.tell(PopupKind::Build, refusal_message(PopupKind::Build, e, name));
                    },
                }
            },
            PopupKind::Hire => {
                match self.start_recruitment(player, name) {
                    Ok(()) => {
                        self.clear_line();
                    },
                    Err(ActionError::UnknownUnit) => {
                        self.clear_line();
                    },
                    Err(e) => {
                        self.tell(PopupKind::Hire, refusal_message(PopupKind::Hire, e, name));
                    },
                }
            },
            PopupKind::Attack => {
                let names = names_of_cities(&self.civilizations);
                match find_name(&names, name) {
                    None => {
                        self.clear_line();
                    },
                    Some(i) => {
                        match self.start_attack(player, i, None) {
                            Ok(()) => {
                                self.clear_line();
                            },
                            Err(e) => {
                                self.tell(
                                    PopupKind::Attack,
                                    refusal_message(PopupKind::Attack, e, name),
                                );
                            },
                        }
                    },
                }
            },
            _ => {
                self.clear_line();
            },
        }
    }
}

} // verus!
