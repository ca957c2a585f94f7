//! The configuration model: the templates that every civilization shares,
//! and the cities that a game starts with.

use vstd::prelude::*;

verus! {

/// Who plays a city.
#[derive(Clone, Copy, Debug, PartialEq, Eq, Structural)]
pub enum PlayerType {
    PLAYER,
    AI,
}

/// What a building yields.
#[derive(Clone, Copy, Debug, PartialEq, Eq, Structural)]
pub enum ProductionType {
    RESSOURCE,
    UNIT,
}

/// What a building produces once it stands: resources every turn, or
/// units on demand at the given cost and time.
#[derive(Clone, Debug)]
pub struct Production {
    pub amount: u32,
    pub cost: u32,
    pub prod_type: ProductionType,
    pub prod_unit_id: Option<String>,
    pub time: u32,
}

/// The template of a building.
#[derive(Clone, Debug)]
pub struct BuildingDef {
    pub name: String,
    pub cost: u32,
    pub build_time: u32,
    pub prerequisites: Vec<String>,
    pub production: Production,
    pub slots: u32,
}

/// The template of a unit.
#[derive(Clone, Debug)]
pub struct UnitDef {
    pub name: String,
    pub attack: u32,
}

/// A building that stands in a city.
#[derive(Clone, Debug)]
pub struct BuildingInstance {
    pub id_building: String,
    pub level: u32,
}

/// A stack of units of one kind in a city.
#[derive(Clone, Debug)]
pub struct UnitInstance {
    pub id_units: String,
    pub nb_units: u32,
}

/// A settlement: where it lies, what stands and who is stationed in it, and
/// how much it can hold.
#[derive(Clone, Debug)]
pub struct City {
    pub name: String,
    pub x: u32,
    pub y: u32,
    pub buildings: Vec<BuildingInstance>,
    pub units: Vec<UnitInstance>,
    pub color: String,
    pub nb_slots_buildings: u32,
    pub nb_slots_units: u32,
    pub player_type: PlayerType,
    pub starting_resources: u32,
}

/// General settings of a game.
#[derive(Clone, Debug)]
pub struct GameSettings {
    pub ui_color: String,
    pub seed: Option<String>,
    pub map_x: u32,
    pub map_y: u32,
    pub current_turn: u32,
}

/// Thresholds that end a game.
#[derive(Clone, Copy, Debug, PartialEq, Eq, Structural)]
pub struct VictoryConditions {
    pub nb_turns: u32,
    pub resources_spent: u32,
}

/// One section of a configuration.
#[derive(Clone, Debug)]
pub enum Section {
    Game(GameSettings),
    BuildingDefArray(Vec<BuildingDef>),
    UnitDefArray(Vec<UnitDef>),
    Cities(Vec<City>),
    VictoryConditions(VictoryConditions),
}

/// A whole configuration, section by section.
#[derive(Clone, Debug)]
pub struct Model {
    pub sections: Vec<Section>,
}

/// The names of some building templates, in order.
pub open spec fn building_names(defs: Seq<BuildingDef>) -> Seq<Seq<char>> {
    Seq::new(defs.len(), |i: int| defs[i].name@)
}

/// The names of some unit templates, in order.
pub open spec fn unit_names(defs: Seq<UnitDef>) -> Seq<Seq<char>> {
    Seq::new(defs.len(), |i: int| defs[i].name@)
}

/// The place of the first entry of `names` that equals `name`.
pub open spec fn position(names: Seq<Seq<char>>, name: Seq<char>) -> Option<int>
    decreases names.len(),
{
    if names.len() == 0 {
        None
    } else {
        match position(names.drop_last(), name) {
            Some(i) => Some(i),
            None => if names.last() == name {
                Some(names.len() - 1)
            } else {
                None
            },
        }
    }
}

/// `position` finds an entry that matches, and none matches before it.
pub proof fn lemma_position(names: Seq<Seq<char>>, name: Seq<char>)
    ensures
        match position(names, name) {
            Some(i) => 0 <= i < names.len() && names[i] == name && forall|j: int|
                0 <= j < i ==> names[j] != name,
            None => forall|j: int| 0 <= j < names.len() ==> names[j] != name,
        },
    decreases names.len(),
{
    if names.len() > 0 {
        lemma_position(names.drop_last(), name);
        match position(names.drop_last(), name) {
            Some(i) => {
                assert(names.drop_last()[i] == names[i]);
                assert forall|j: int| 0 <= j < i implies names[j] != name by {
                    assert(names.drop_last()[j] == names[j]);
                }
            },
            None => {
                assert forall|j: int| 0 <= j < names.len() - 1 implies names[j] != name by {
                    assert(names.drop_last()[j] == names[j]);
                }
            },
        }
    }
}

/// Finds the first building template called `name`.
pub fn find_building(defs: &Vec<BuildingDef>, name: &str) -> (r: Option<usize>)
    ensures
        match r {
            Some(i) => position(building_names(defs@), name@) == Some(i as int) && i < defs@.len(),
            None => position(building_names(defs@), name@) is None,
        },
{
    let ghost names = building_names(defs@);
    let mut i: usize = 0;
    while i < defs.len()
        invariant
            i <= defs@.len(),
            names == building_names(defs@),
            position(names.subrange(0, i as int), name@) is None,
        decreases defs@.len() - i,
    {
        proof {
            assert(names.subrange(0, i as int + 1).drop_last() =~= names.subrange(0, i as int));
        }
        if crate::text::same_text(defs[i].name.as_str(), name) {
            proof {
                lemma_position_extends(names, name@, i as int + 1);
            }
            return Some(i);
        }
        i = i + 1;
    }
    assert(names.subrange(0, i as int) =~= names);
    None
}

/// Finds the first unit template called `name`.
pub fn find_unit(defs: &Vec<UnitDef>, name: &str) -> (r: Option<usize>)
    ensures
        match r {
            Some(i) => position(unit_names(defs@), name@) == Some(i as int) && i < defs@.len(),
            None => position(unit_names(defs@), name@) is None,
        },
{
    let ghost names = unit_names(defs@);
    let mut i: usize = 0;
    while i < defs.len()
        invariant
            i <= defs@.len(),
            names == unit_names(defs@),
            position(names.subrange(0, i as int), name@) is None,
        decreases defs@.len() - i,
    {
        proof {
            assert(names.subrange(0, i as int + 1).drop_last() =~= names.subrange(0, i as int));
        }
        if crate::text::same_text(defs[i].name.as_str(), name) {
            proof {
                lemma_position_extends(names, name@, i as int + 1);
            }
            return Some(i);
        }
        i = i + 1;
    }
    assert(names.subrange(0, i as int) =~= names);
    None
}

/// A match found in a prefix is the match of the whole list.
pub proof fn lemma_position_extends(names: Seq<Seq<char>>, name: Seq<char>, k: int)
    requires
        0 <= k <= names.len(),
        position(names.subrange(0, k), name) is Some,
    ensures
        position(names, name) == position(names.subrange(0, k), name),
    decreases names.len() - k,
{
    if k == names.len() {
        assert(names.subrange(0, k) =~= names);
    } else {
        assert(names.subrange(0, k + 1).drop_last() =~= names.subrange(0, k));
        lemma_position_extends(names, name, k + 1);
    }
}

} // verus!
