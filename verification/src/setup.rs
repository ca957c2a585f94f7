//! How a game begins: the built-in start, and the start that a
//! configuration describes.

use crate::ast::{
    BuildingDef, City, GameSettings, Model, PlayerType, Production, ProductionType, Section, UnitDef,
    VictoryConditions,
};
use crate::map::GameMap;
use crate::state::{Civilization, GameState, MapRequest, Resources};
use vstd::prelude::*;
use vstd::string::StringExecFns;

verus! {

/// The balance that every civilization starts with.
pub const STARTING_BALANCE: i32 = 100;

/// The width of the map of a game that no configuration describes.
pub const DEFAULT_MAP_WIDTH: usize = 160;

/// The height of the map of a game that no configuration describes.
pub const DEFAULT_MAP_HEIGHT: usize = 40;

/// Why a configuration cannot start a game.
#[derive(Clone, Copy, Debug, PartialEq, Eq, Structural)]
pub enum ConfigError {
    /// The list of cities is empty.
    NoCities,
    /// The city at this place in the list holds more buildings or more unit
    /// stacks than it has slots for.
    OverCapacity(usize),
    /// The current turn is too large for the turn counter.
    TurnOutOfRange,
}

/// A civilization at the start of a game: alive, with the starting balance
/// and nothing in progress.
pub open spec fn is_founded(civ: &Civilization, city: &City) -> bool {
    &&& civ.city == *city
    &&& civ.resources.ressources == STARTING_BALANCE
    &&& civ.alive
    &&& civ.constructions@.len() == 0
    &&& civ.recruitments@.len() == 0
}

/// True when the city holds no more than it has slots for.
pub open spec fn fits(city: &City) -> bool {
    city.buildings@.len() <= city.nb_slots_buildings && city.units@.len() <= city.nb_slots_units
}

/// Founds a civilization on a city.
pub fn found(city: City) -> (civ: Civilization)
    ensures
        is_founded(&civ, &city),
{
    Civilization {
        resources: Resources { ressources: STARTING_BALANCE },
        city,
        alive: true,
        constructions: Vec::new(),
        recruitments: Vec::new(),
    }
}

/// An empty city of the built-in start.
fn starting_city(name: &str, x: u32, y: u32, color: &str, player_type: PlayerType) -> (city: City)
    ensures
        city.name@ == name@,
        city.x == x,
        city.y == y,
        city.color@ == color@,
        city.player_type == player_type,
        city.buildings@.len() == 0,
        city.units@.len() == 0,
        city.nb_slots_buildings == 5,
        city.nb_slots_units == 10,
        city.starting_resources == 40,
{
    City {
        name: String::from_str(name),
        x,
        y,
        buildings: Vec::new(),
        units: Vec::new(),
        color: String::from_str(color),
        nb_slots_buildings: 5,
        nb_slots_units: 10,
        player_type,
        starting_resources: 40,
    }
}

impl GameState {
    /// The built-in start on the given map: a person at (10, 10) and an
    /// agent at (20, 20), each with the starting balance and an empty city
    /// of five building slots and ten unit slots; farms that cost 10, take 2
    /// turns and yield 5 a turn; barracks that cost 20, take 4 turns and turn
    /// out a warrior for 5 in 3 turns; warriors of attack 1.
    pub open spec fn is_fresh(&self, map: &GameMap) -> bool {
        &&& self.map == *map
        &&& self.turn == 1
        &&& self.player_turn == 0
        &&& !self.seed_editing
        &&& self.camera_x == 0
        &&& self.camera_y == 0
        &&& !self.camera_mode
        &&& self.zoom_level == 1
        &&& !self.action_editing
        &&& self.action_input@.len() == 0
        &&& self.popup is None
        &&& self.travels@.len() == 0
        &&& !self.game_over
        &&& self.winner is None
        &&& self.nb_turns == 500
        &&& self.resources_spent == 300
        &&& self.civilizations@.len() == 2
        &&& ({
            let c = self.civilizations@[0];
            &&& is_founded(&c, &c.city)
            &&& c.city.name@ == "Player"@
            &&& c.city.x == 10
            &&& c.city.y == 10
            &&& c.city.color@ == "#0000FF"@
            &&& c.city.player_type == PlayerType::PLAYER
            &&& c.city.buildings@.len() == 0
            &&& c.city.units@.len() == 0
            &&& c.city.nb_slots_buildings == 5
            &&& c.city.nb_slots_units == 10
            &&& c.city.starting_resources == 40
        })
        &&& ({
            let c = self.civilizations@[1];
            &&& is_founded(&c, &c.city)
            &&& c.city.name@ == "IA"@
            &&& c.city.x == 20
            &&& c.city.y == 20
            &&& c.city.color@ == "#FF0000"@
            &&& c.city.player_type == PlayerType::AI
            &&& c.city.buildings@.len() == 0
            &&& c.city.units@.len() == 0
            &&& c.city.nb_slots_buildings == 5
            &&& c.city.nb_slots_units == 10
            &&& c.city.starting_resources == 40
        })
        &&& self.buildings@.len() == 2
        &&& ({
            let b = self.buildings@[0];
            &&& b.name@ == "Farm"@
            &&& b.cost == 10
            &&& b.build_time == 2
            &&& b.prerequisites@.len() == 0
            &&& b.slots == 1
            &&& b.production.amount == 5
            &&& b.production.cost == 0
            &&& b.production.prod_type == ProductionType::RESSOURCE
            &&& b.production.prod_unit_id is None
            &&& b.production.time == 1
        })
        &&& ({
            let b = self.buildings@[1];
            &&& b.name@ == "Barracks"@
            &&& b.cost == 20
            &&& b.build_time == 4
            &&& b.prerequisites@.len() == 0
            &&& b.slots == 1
            &&& b.production.amount == 0
            &&& b.production.cost == 5
            &&& b.production.prod_type == ProductionType::UNIT
            &&& b.production.prod_unit_id matches Some(id) && id@ == "Warrior"@
            &&& b.production.time == 3
        })
        &&& self.units@.len() == 1
        &&& self.units@[0].name@ == "Warrior"@
        &&& self.units@[0].attack == 1
    }

    /// The built-in start on the given map.
    pub fn new(map: GameMap) -> (s: GameState)
        requires
            map.wf(),
        ensures
            s.wf(),
            s.is_fresh(&map),
    {
        let mut civilizations: Vec<Civilization> = Vec::new();
        civilizations.push(found(starting_city("Player", 10, 10, "#0000FF", PlayerType::PLAYER)));
        civilizations.push(found(starting_city("IA", 20, 20, "#FF0000", PlayerType::AI)));
        let mut buildings: Vec<BuildingDef> = Vec::new();
        buildings.push(
            BuildingDef {
                name: String::from_str("Farm"),
                cost: 10,
                build_time: 2,
                prerequisites: Vec::new(),
                production: Production {
                    amount: 5,
                    cost: 0,
                    prod_type: ProductionType::RESSOURCE,
                    prod_unit_id: None,
                    time: 1,
                },
                slots: 1,
            },
        );
        buildings.push(
            BuildingDef {
                name: String::from_str("Barracks"),
                cost: 20,
                build_time: 4,
                prerequisites: Vec::new(),
                production: Production {
                    amount: 0,
                    cost: 5,
                    prod_type: ProductionType::UNIT,
                    prod_unit_id: Some(String::from_str("Warrior")),
                    time: 3,
                },
                slots: 1,
            },
        );
        let mut units: Vec<UnitDef> = Vec::new();
        units.push(UnitDef { name: String::from_str("Warrior"), attack: 1 });
        GameState {
            map,
            turn: 1,
            player_turn: 0,
            civilizations,
            seed_editing: false,
            camera_x: 0,
            camera_y: 0,
            camera_mode: false,
            buildings,
            units,
            nb_turns: 500,
            resources_spent: 300,
            zoom_level: 1,
            action_editing: false,
            action_input: String::new(),
            popup: None,
            travels: Vec::new(),
            game_over: false,
            winner: None,
        }
    }

    /// Checks what every operation relies on.
    pub fn is_well_formed(&self) -> (ok: bool)
        ensures
            ok == self.wf(),
    {
        if !self.map.is_well_formed() {
            return false;
        }
        let count = self.civilizations.len();
        if count == 0 || self.player_turn >= count {
            return false;
        }
        if self.zoom_level < 1 || self.zoom_level > 3 {
            return false;
        }
        let mut i: usize = 0;
        while i < count
            invariant
                i <= count,
                count == self.civilizations@.len(),
                forall|j: int| 0 <= j < i ==> (#[trigger] self.civilizations@[j]).state().wf(),
            decreases count - i,
        {
            let civ = &self.civilizations[i];
            let built = civ.city.buildings.len();
            let queued = civ.constructions.len();
            let stacks = civ.city.units.len();
            let hiring = civ.recruitments.len();
            if queued > 1 || hiring > 1 || built as u128 + queued as u128 > civ.city.nb_slots_buildings as u128
                || stacks as u128 + hiring as u128 > civ.city.nb_slots_units as u128 {
                assert(!self.civilizations@[i as int].state().wf());
                return false;
            }
            i = i + 1;
        }
        let mut t: usize = 0;
        while t < self.travels.len()
            invariant
                t <= self.travels@.len(),
                count == self.civilizations@.len(),
                forall|j: int| 0 <= j < t ==> (#[trigger] self.travels@[j]).wf(count as nat),
            decreases self.travels@.len() - t,
        {
            let march = &self.travels[t];
            if march.attacker >= count || march.defender >= count || march.remaining < 1 {
                assert(!self.travels@[t as int].wf(count as nat));
                return false;
            }
            t = t + 1;
        }
        true
    }
}

/// The seed of the map when the configuration names none.
pub open spec fn default_seed() -> Seq<char> {
    "pokemon"@
}

/// The last section of general settings.
pub open spec fn last_game(sections: Seq<Section>) -> Option<GameSettings>
    decreases sections.len(),
{
    if sections.len() == 0 {
        None
    } else {
        match sections.last() {
            Section::Game(g) => Some(g),
            _ => last_game(sections.drop_last()),
        }
    }
}

/// The last list of building templates.
pub open spec fn last_buildings(sections: Seq<Section>) -> Option<Vec<BuildingDef>>
    decreases sections.len(),
{
    if sections.len() == 0 {
        None
    } else {
        match sections.last() {
            Section::BuildingDefArray(b) => Some(b),
            _ => last_buildings(sections.drop_last()),
        }
    }
}

/// The last list of unit templates.
pub open spec fn last_units(sections: Seq<Section>) -> Option<Vec<UnitDef>>
    decreases sections.len(),
{
    if sections.len() == 0 {
        None
    } else {
        match sections.last() {
            Section::UnitDefArray(u) => Some(u),
            _ => last_units(sections.drop_last()),
        }
    }
}

/// The last list of cities.
pub open spec fn last_cities(sections: Seq<Section>) -> Option<Vec<City>>
    decreases sections.len(),
{
    if sections.len() == 0 {
        None
    } else {
        match sections.last() {
            Section::Cities(c) => Some(c),
            _ => last_cities(sections.drop_last()),
        }
    }
}

/// The last victory thresholds.
pub open spec fn last_victory(sections: Seq<Section>) -> Option<VictoryConditions>
    decreases sections.len(),
{
    if sections.len() == 0 {
        None
    } else {
        match sections.last() {
            Section::VictoryConditions(v) => Some(v),
            _ => last_victory(sections.drop_last()),
        }
    }
}

/// The place of the first city that holds more than it has slots for.
pub open spec fn first_misfit(cities: Seq<City>) -> Option<int>
    decreases cities.len(),
{
    if cities.len() == 0 {
        None
    } else {
        match first_misfit(cities.drop_last()) {
            Some(i) => Some(i),
            None => if fits(&cities.last()) {
                None
            } else {
                Some(cities.len() - 1)
            },
        }
    }
}

/// Why a configuration cannot start a game, if it cannot: the first of a
/// turn that is out of range, an empty list of cities, and a city over its
/// capacity.
pub open spec fn config_error(sections: Seq<Section>) -> Option<ConfigError> {
    if last_game(sections) matches Some(g) && g.current_turn > i32::MAX {
        Some(ConfigError::TurnOutOfRange)
    } else {
        match last_cities(sections) {
            Some(cities) => if cities@.len() == 0 {
                Some(ConfigError::NoCities)
            } else {
                match first_misfit(cities@) {
                    Some(i) => Some(ConfigError::OverCapacity(i as usize)),
                    None => None,
                }
            },
            None => None,
        }
    }
}

/// The sections of a configuration, sorted by kind: of each kind the last.
struct Sorted {
    game: Option<GameSettings>,
    buildings: Option<Vec<BuildingDef>>,
    units: Option<Vec<UnitDef>>,
    cities: Option<Vec<City>>,
    victory: Option<VictoryConditions>,
}

fn sort_sections(sections: Vec<Section>) -> (r: Sorted)
    ensures
        r.game == last_game(sections@),
        r.buildings == last_buildings(sections@),
        r.units == last_units(sections@),
        r.cities == last_cities(sections@),
        r.victory == last_victory(sections@),
{
    let ghost all = sections@;
    let mut rest = sections;
    let mut r = Sorted { game: None, buildings: None, units: None, cities: None, victory: None };
    while rest.len() > 0
        invariant
            last_game(all) == match r.game {
                Some(g) => Some(g),
                None => last_game(rest@),
            },
            last_buildings(all) == match r.buildings {
                Some(g) => Some(g),
                None => last_buildings(rest@),
            },
            last_units(all) == match r.units {
                Some(g) => Some(g),
                None => last_units(rest@),
            },
            last_cities(all) == match r.cities {
                Some(g) => Some(g),
                None => last_cities(rest@),
            },
            last_victory(all) == match r.victory {
                Some(g) => Some(g),
                None => last_victory(rest@),
            },
        decreases rest@.len(),
    {
        let ghost before = rest@;
        let section = rest.pop().unwrap();
        assert(before.drop_last() =~= rest@);
        match section {
            Section::Game(g) => {
                if r.game.is_none() {
                    r.game = Some(g);
                }
            },
            Section::BuildingDefArray(b) => {
                if r.buildings.is_none() {
                    r.buildings = Some(b);
                }
            },
            Section::UnitDefArray(u) => {
                if r.units.is_none() {
                    r.units = Some(u);
                }
            },
            Section::Cities(c) => {
                if r.cities.is_none() {
                    r.cities = Some(c);
                }
            },
            Section::VictoryConditions(v) => {
                if r.victory.is_none() {
                    r.victory = Some(v);
                }
            },
        }
    }
    r
}

/// Finds the first city that holds more than it has slots for.
fn find_misfit(cities: &Vec<City>) -> (r: Option<usize>)
    ensures
        match r {
            Some(i) => first_misfit(cities@) == Some(i as int) && i < cities@.len(),
            None => first_misfit(cities@) is None && forall|i: int|
                0 <= i < cities@.len() ==> fits(&#[trigger] cities@[i]),
        },
{
    let mut k: usize = 0;
    while k < cities.len()
        invariant
            k <= cities@.len(),
            first_misfit(cities@.subrange(0, k as int)) is None,
            forall|i: int| 0 <= i < k ==> fits(&#[trigger] cities@[i]),
        decreases cities@.len() - k,
    {
        proof {
            assert(cities@.subrange(0, k as int + 1).drop_last() =~= cities@.subrange(0, k as int));
        }
        let city = &cities[k];
        if city.buildings.len() > city.nb_slots_buildings as usize || city.units.len()
            > city.nb_slots_units as usize {
            proof {
                lemma_misfit_extends(cities@, k as int + 1);
            }
            return Some(k);
        }
        k = k + 1;
    }
    assert(cities@.subrange(0, k as int) =~= cities@);
    None
}

/// A misfit found among the first cities is the first of all.
proof fn lemma_misfit_extends(cities: Seq<City>, k: int)
    requires
        0 <= k <= cities.len(),
        first_misfit(cities.subrange(0, k)) is Some,
    ensures
        first_misfit(cities) == first_misfit(cities.subrange(0, k)),
    decreases cities.len() - k,
{
    if k == cities.len() {
        assert(cities.subrange(0, k) =~= cities);
    } else {
        assert(cities.subrange(0, k + 1).drop_last() =~= cities.subrange(0, k));
        lemma_misfit_extends(cities, k + 1);
    }
}

/// Founds a civilization on each city, in order.
fn found_all(cities: Vec<City>) -> (civs: Vec<Civilization>)
    ensures
        civs@.len() == cities@.len(),
        forall|i: int| 0 <= i < civs@.len() ==> is_founded(&#[trigger] civs@[i], &cities@[i]),
{
    let ghost all = cities@;
    let mut rest = cities;
    let mut civs: Vec<Civilization> = Vec::new();
    while rest.len() > 0
        invariant
            rest@.len() <= all.len(),
            rest@ == all.subrange(0, rest@.len() as int),
            civs@.len() == all.len() - rest@.len(),
            forall|i: int|
                0 <= i < civs@.len() ==> is_founded(&#[trigger] civs@[i], &all[rest@.len() + i]),
        decreases rest@.len(),
    {
        let ghost before = civs@;
        let ghost k = rest@.len() as int;
        let city = rest.pop().unwrap();
        assert(city == all[k - 1]);
        civs.insert(0, found(city));
        assert forall|i: int| 0 <= i < civs@.len() implies is_founded(
            &#[trigger] civs@[i],
            &all[rest@.len() + i],
        ) by {
            if i > 0 {
                assert(civs@[i] == before[i - 1]);
            }
        }
    }
    civs
}

impl GameState {
    /// True when this state is what the configuration makes of the built-in
    /// start `fresh`: of each kind of section the last one counts, and what
    /// no section speaks of is as in `fresh`. Every city founds a
    /// civilization.
    pub open spec fn configured_from(&self, fresh: &GameState, sections: Seq<Section>) -> bool {
        &&& self.turn == match last_game(sections) {
            Some(g) => g.current_turn as i32,
            None => fresh.turn,
        }
        &&& self.buildings == match last_buildings(sections) {
            Some(b) => b,
            None => fresh.buildings,
        }
        &&& self.units == match last_units(sections) {
            Some(u) => u,
            None => fresh.units,
        }
        &&& match last_cities(sections) {
            Some(cities) => {
                &&& self.civilizations@.len() == cities@.len()
                &&& forall|i: int|
                    0 <= i < cities@.len() ==> is_founded(
                        &#[trigger] self.civilizations@[i],
                        &cities@[i],
                    )
            },
            None => self.civilizations == fresh.civilizations,
        }
        &&& self.nb_turns == match last_victory(sections) {
            Some(v) => v.nb_turns,
            None => fresh.nb_turns,
        }
        &&& self.resources_spent == match last_victory(sections) {
            Some(v) => v.resources_spent,
            None => fresh.resources_spent,
        }
        &&& *self == (GameState {
            turn: self.turn,
            buildings: self.buildings,
            units: self.units,
            civilizations: self.civilizations,
            nb_turns: self.nb_turns,
            resources_spent: self.resources_spent,
            ..*fresh
        })
    }

    /// The state that a configuration describes, on the given map.
    pub fn from_model(model: Model, map: GameMap) -> (r: Result<(GameState, Option<String>), ConfigError>)
        requires
            map.wf(),
        ensures
            match r {
                Ok((state, color)) => {
                    &&& config_error(model.sections@) is None
                    &&& state.wf()
                    &&& exists|fresh: GameState| #[trigger]
                        fresh.is_fresh(&map) && state.configured_from(&fresh, model.sections@)
                    &&& match last_game(model.sections@) {
                        Some(g) => color == Some(g.ui_color),
                        None => color is None,
                    }
                },
                Err(e) => config_error(model.sections@) == Some(e),
            },
    {
        let ghost sections = model.sections@;
        let sorted = sort_sections(model.sections);
        let mut state = GameState::new(map);
        let ghost fresh = state;
        let mut color: Option<String> = None;
        match sorted.game {
            Some(g) => {
                if g.current_turn > 0x7fff_ffff {
                    return Err(ConfigError::TurnOutOfRange);
                }
                state.turn = g.current_turn as i32;
                color = Some(g.ui_color);
            },
            None => {},
        }
        match sorted.cities {
            Some(cities) => {
                if cities.len() == 0 {
                    return Err(ConfigError::NoCities);
                }
                match find_misfit(&cities) {
                    Some(i) => {
                        return Err(ConfigError::OverCapacity(i));
                    },
                    None => {},
                }
                state.civilizations = found_all(cities);
                proof {
                    assert forall|i: int| 0 <= i < state.civilizations@.len() implies (
                    #[trigger] state.civilizations@[i]).state().wf() by {
                        assert(is_founded(&state.civilizations@[i], &cities@[i]));
                        assert(fits(&cities@[i]));
                    }
                }
            },
            None => {},
        }
        match sorted.buildings {
            Some(b) => {
                state.buildings = b;
            },
            None => {},
        }
        match sorted.units {
            Some(u) => {
                state.units = u;
            },
            None => {},
        }
        match sorted.victory {
            Some(v) => {
                state.nb_turns = v.nb_turns;
                state.resources_spent = v.resources_spent;
            },
            None => {},
        }
        proof {
            assert(fresh.is_fresh(&map) && state.configured_from(&fresh, sections));
        }
        Ok((state, color))
    }
}

/// The map that a configuration asks for: the seed and the size of its
/// last general settings, with `pokemon` for a seed that is missing; or,
/// without general settings, a random seed in the default size.
pub fn map_request(model: &Model) -> (request: MapRequest)
    ensures
        match last_game(model.sections@) {
            Some(g) => {
                &&& request.seed matches Some(s) && s@ == match g.seed {
                    Some(seed) => seed@,
                    None => default_seed(),
                }
                &&& request.width == g.map_x
                &&& request.height == g.map_y
            },
            None => {
                &&& request.seed is None
                &&& request.width == DEFAULT_MAP_WIDTH
                &&& request.height == DEFAULT_MAP_HEIGHT
            },
        },
{
    let mut k: usize = model.sections.len();
    assert(model.sections@.subrange(0, k as int) =~= model.sections@);
    while k > 0
        invariant
            k <= model.sections@.len(),
            last_game(model.sections@) == last_game(model.sections@.subrange(0, k as int)),
        decreases k,
    {
        proof {
            assert(model.sections@.subrange(0, k as int).drop_last() =~= model.sections@.subrange(
                0,
                k as int - 1,
            ));
        }
        k = k - 1;
        match &model.sections[k] {
            Section::Game(g) => {
                let seed = match &g.seed {
                    Some(s) => s.clone(),
                    None => String::from_str("pokemon"),
                };
                return MapRequest { seed: Some(seed), width: g.map_x as usize, height: g.map_y as usize };
            },
            _ => {},
        }
    }
    proof {
        assert(model.sections@.subrange(0, 0) =~= Seq::<Section>::empty());
    }
    MapRequest { seed: None, width: DEFAULT_MAP_WIDTH, height: DEFAULT_MAP_HEIGHT }
}

} // verus!
