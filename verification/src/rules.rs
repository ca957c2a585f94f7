//! The rules of the game as mathematics: what an order, a turn and a battle
//! do to the changing part of a civilization. The operations on the game
//! state are specified by these functions.

use crate::ast::{
    building_names, position, unit_names, BuildingDef, BuildingInstance, ProductionType, UnitDef,
    UnitInstance,
};
use crate::state::{ActionError, CivState, Construction, Recruitment, Travel};
use vstd::prelude::*;

verus! {

/// A timer after one more turn: one less, and never below zero.
pub open spec fn ticked(remaining: u32) -> u32 {
    if remaining > 0 {
        (remaining - 1) as u32
    } else {
        0
    }
}

/// What one standing building called `id` yields per turn: the amount of
/// its template if that produces resources, else nothing.
pub open spec fn yield_of(defs: Seq<BuildingDef>, id: Seq<char>) -> nat {
    match position(building_names(defs), id) {
        Some(i) => if defs[i].production.prod_type == ProductionType::RESSOURCE {
            defs[i].production.amount as nat
        } else {
            0
        },
        None => 0,
    }
}

/// What all the standing buildings of a city yield per turn.
pub open spec fn income(defs: Seq<BuildingDef>, built: Seq<BuildingInstance>) -> nat
    decreases built.len(),
{
    if built.len() == 0 {
        0
    } else {
        income(defs, built.drop_last()) + yield_of(defs, built.last().id_building@)
    }
}

/// A balance after a credit. The balance stops at the largest value it can
/// hold.
pub open spec fn credited(balance: int, amount: nat) -> int {
    if balance + amount > i32::MAX {
        i32::MAX as int
    } else {
        balance + amount
    }
}

/// True when buildings of this template turn out the unit called `unit`.
pub open spec fn produces(def: BuildingDef, unit: Seq<char>) -> bool {
    &&& def.production.prod_type == ProductionType::UNIT
    &&& def.production.prod_unit_id matches Some(id)
    &&& id@ == unit
}

/// The template of the first standing building that turns out `unit`, as
/// a place in `defs`.
pub open spec fn producer(defs: Seq<BuildingDef>, built: Seq<BuildingInstance>, unit: Seq<char>) -> Option<int>
    decreases built.len(),
{
    if built.len() == 0 {
        None
    } else {
        match producer(defs, built.drop_last(), unit) {
            Some(i) => Some(i),
            None => match position(building_names(defs), built.last().id_building@) {
                Some(i) => if produces(defs[i], unit) {
                    Some(i)
                } else {
                    None
                },
                None => None,
            },
        }
    }
}

/// The outcome of an order to build `name`: the civilization with the cost
/// paid and the construction queued, or why the order is refused. A
/// civilization that is dead orders nothing.
pub open spec fn construction_ordered(civ: CivState, defs: Seq<BuildingDef>, name: Seq<char>) -> Result<CivState, ActionError> {
    match position(building_names(defs), name) {
        _ if !civ.alive => Err(ActionError::CivilizationDead),
        None => Err(ActionError::UnknownBuilding),
        Some(i) => if civ.constructions.len() > 0 {
            Err(ActionError::AlreadyInProgress)
        } else if civ.buildings.len() + civ.constructions.len() >= civ.building_slots {
            Err(ActionError::NoSlot)
        } else if civ.balance < defs[i].cost {
            Err(ActionError::InsufficientResources)
        } else {
            Ok(
                CivState {
                    balance: civ.balance - defs[i].cost,
                    constructions: civ.constructions.push(
                        Construction {
                            id_building: defs[i].name,
                            remaining: defs[i].build_time,
                            total: defs[i].build_time,
                        },
                    ),
                    ..civ
                },
            )
        },
    }
}

/// The outcome of an order to recruit `name`: the civilization with the
/// producing building's price paid and one unit queued for that building's
/// production time, or why the order is refused. A civilization that is
/// dead orders nothing.
pub open spec fn recruitment_ordered(
    civ: CivState,
    defs: Seq<BuildingDef>,
    units: Seq<UnitDef>,
    name: Seq<char>,
) -> Result<CivState, ActionError> {
    match position(unit_names(units), name) {
        _ if !civ.alive => Err(ActionError::CivilizationDead),
        None => Err(ActionError::UnknownUnit),
        Some(u) => match producer(defs, civ.buildings, name) {
            None => Err(ActionError::NoProducer),
            Some(b) => if civ.recruitments.len() > 0 {
                Err(ActionError::AlreadyInProgress)
            } else if civ.units.len() + civ.recruitments.len() >= civ.unit_slots {
                Err(ActionError::NoSlot)
            } else if civ.balance < defs[b].production.cost {
                Err(ActionError::InsufficientResources)
            } else {
                Ok(
                    CivState {
                        balance: civ.balance - defs[b].production.cost,
                        recruitments: civ.recruitments.push(
                            Recruitment {
                                id_unit: units[u].name,
                                remaining: defs[b].production.time,
                                amount: 1,
                            },
                        ),
                        ..civ
                    },
                )
            },
        },
    }
}

/// The kinds of some unit stacks, in order.
pub open spec fn stack_names(units: Seq<UnitInstance>) -> Seq<Seq<char>> {
    Seq::new(units.len(), |i: int| units[i].id_units@)
}

/// A unit count after reinforcement. The count stops at the largest value
/// it can hold.
pub open spec fn reinforced(count: u32, amount: u32) -> u32 {
    if count + amount > u32::MAX {
        u32::MAX
    } else {
        (count + amount) as u32
    }
}

/// The stacks of a city after `amount` units of kind `id` have joined: they
/// go to the first stack of their kind, or form a new last stack.
pub open spec fn joined(units: Seq<UnitInstance>, id: String, amount: u32) -> Seq<UnitInstance> {
    match position(stack_names(units), id@) {
        Some(i) => units.update(
            i,
            UnitInstance { id_units: units[i].id_units, nb_units: reinforced(units[i].nb_units, amount) },
        ),
        None => units.push(UnitInstance { id_units: id, nb_units: amount }),
    }
}

/// A civilization after the production phase of its turn: the standing
/// buildings have paid out, the timers have run one turn, and what was due
/// has been finished. A finished building stands at level 1.
pub open spec fn after_production(civ: CivState, defs: Seq<BuildingDef>) -> CivState {
    let balance = credited(civ.balance, income(defs, civ.buildings));
    let build_done = civ.constructions.len() == 1 && ticked(civ.constructions[0].remaining) == 0;
    let hire_done = civ.recruitments.len() == 1 && ticked(civ.recruitments[0].remaining) == 0;
    CivState {
        balance,
        buildings: if build_done {
            civ.buildings.push(
                BuildingInstance { id_building: civ.constructions[0].id_building, level: 1 },
            )
        } else {
            civ.buildings
        },
        constructions: if civ.constructions.len() != 1 {
            civ.constructions
        } else if build_done {
            Seq::empty()
        } else {
            seq![
                Construction {
                    remaining: ticked(civ.constructions[0].remaining),
                    ..civ.constructions[0]
                },
            ]
        },
        units: if hire_done {
            joined(civ.units, civ.recruitments[0].id_unit, civ.recruitments[0].amount)
        } else {
            civ.units
        },
        recruitments: if civ.recruitments.len() != 1 {
            civ.recruitments
        } else if hire_done {
            Seq::empty()
        } else {
            seq![
                Recruitment {
                    remaining: ticked(civ.recruitments[0].remaining),
                    ..civ.recruitments[0]
                },
            ]
        },
        ..civ
    }
}

/// The strength of one stack: its count times the attack of its kind, and
/// nothing if the kind is unknown.
pub open spec fn stack_power(defs: Seq<UnitDef>, stack: UnitInstance) -> nat {
    match position(unit_names(defs), stack.id_units@) {
        Some(i) => (stack.nb_units * defs[i].attack) as nat,
        None => 0,
    }
}

/// The strength of an army: the sum of the strengths of its stacks.
pub open spec fn power(defs: Seq<UnitDef>, units: Seq<UnitInstance>) -> nat
    decreases units.len(),
{
    if units.len() == 0 {
        0
    } else {
        power(defs, units.drop_last()) + stack_power(defs, units.last())
    }
}

/// The number of units in an army.
pub open spec fn headcount(units: Seq<UnitInstance>) -> nat
    decreases units.len(),
{
    if units.len() == 0 {
        0
    } else {
        headcount(units.drop_last()) + units.last().nb_units as nat
    }
}

/// The place of the smallest stack, the first one among equals.
pub open spec fn smallest(units: Seq<UnitInstance>) -> int
    decreases units.len(),
{
    if units.len() <= 1 {
        0
    } else {
        let i = smallest(units.drop_last());
        if units.last().nb_units < units[i].nb_units {
            units.len() - 1
        } else {
            i
        }
    }
}

/// An army after it has lost `n` units, or all it had if that is less. The
/// smallest stack loses first; a stack that loses everything is dropped.
pub open spec fn thinned(units: Seq<UnitInstance>, n: nat) -> Seq<UnitInstance>
    decreases units.len(),
{
    if n == 0 || units.len() == 0 {
        units
    } else {
        let i = smallest(units);
        if 0 <= i < units.len() && units[i].nb_units <= n {
            thinned(units.remove(i), (n - units[i].nb_units) as nat)
        } else {
            units.update(
                i,
                UnitInstance { id_units: units[i].id_units, nb_units: (units[i].nb_units - n) as u32 },
            )
        }
    }
}

/// How many units leave on an attack: the number asked for, or all, but
/// never more than there are nor than a march can hold.
pub open spec fn sent_amount(units: Seq<UnitInstance>, amount: Option<u32>) -> nat {
    let total = headcount(units);
    let wanted = match amount {
        Some(a) => a as nat,
        None => total,
    };
    let capped = if wanted > total {
        total
    } else {
        wanted
    };
    if capped > u32::MAX {
        u32::MAX as nat
    } else {
        capped
    }
}

/// Why an attack is refused before a route is looked for, if it is.
pub open spec fn attack_refused(
    civs: Seq<CivState>,
    game_over: bool,
    attacker: int,
    defender: int,
    amount: Option<u32>,
) -> Option<ActionError> {
    if !(0 <= attacker < civs.len() && 0 <= defender < civs.len()) {
        Some(ActionError::InvalidIndex)
    } else if attacker == defender {
        Some(ActionError::SelfAttack)
    } else if game_over {
        Some(ActionError::GameOver)
    } else if !civs[attacker].alive {
        Some(ActionError::AttackerDead)
    } else if !civs[defender].alive {
        Some(ActionError::DefenderDead)
    } else if headcount(civs[attacker].units) == 0 {
        Some(ActionError::NoUnitsAvailable)
    } else if amount == Some(0u32) {
        Some(ActionError::InvalidAmount)
    } else {
        None
    }
}

/// True when the army of `t` finds both sides alive on arrival, so that a
/// battle is fought.
pub open spec fn fought(civs: Seq<CivState>, t: Travel) -> bool {
    civs[t.attacker as int].alive && civs[t.defender as int].alive
}

/// True when the army of `t` is stronger than what defends the city it
/// arrives at.
pub open spec fn overwhelms(civs: Seq<CivState>, defs: Seq<UnitDef>, t: Travel) -> bool {
    t.amount > power(defs, civs[t.defender as int].units)
}

/// The civilizations after the army of `t` has arrived. If either side is
/// already dead nothing happens. A stronger army eliminates the defender,
/// who loses every unit. Otherwise the defender holds and loses half as
/// many units as arrived, rounded down.
pub open spec fn after_battle(civs: Seq<CivState>, defs: Seq<UnitDef>, t: Travel) -> Seq<CivState> {
    let d = civs[t.defender as int];
    if !fought(civs, t) {
        civs
    } else if overwhelms(civs, defs, t) {
        civs.update(t.defender as int, CivState { alive: false, units: Seq::empty(), ..d })
    } else {
        civs.update(t.defender as int, CivState { units: thinned(d.units, (t.amount / 2) as nat), ..d })
    }
}

/// The civilizations after every march has run one more turn and those
/// that arrived have been resolved, the last one in the list first.
pub open spec fn after_arrivals(civs: Seq<CivState>, defs: Seq<UnitDef>, travels: Seq<Travel>) -> Seq<CivState>
    decreases travels.len(),
{
    if travels.len() == 0 {
        civs
    } else {
        let t = travels.last();
        let next = if ticked(t.remaining) == 0 {
            after_battle(civs, defs, t)
        } else {
            civs
        };
        after_arrivals(next, defs, travels.drop_last())
    }
}

/// The battle that was fought last while the arrivals were resolved, with
/// the civilizations as they stood just before it.
pub open spec fn last_battle(civs: Seq<CivState>, defs: Seq<UnitDef>, travels: Seq<Travel>) -> Option<(Seq<CivState>, Travel)>
    decreases travels.len(),
{
    if travels.len() == 0 {
        None
    } else {
        let t = travels.last();
        let arrived = ticked(t.remaining) == 0;
        let next = if arrived {
            after_battle(civs, defs, t)
        } else {
            civs
        };
        match last_battle(next, defs, travels.drop_last()) {
            Some(b) => Some(b),
            None => if arrived && fought(civs, t) {
                Some((civs, t))
            } else {
                None
            },
        }
    }
}

/// The marches that go on after one more turn, each with one turn less to
/// go. Those that arrived are gone.
pub open spec fn marching_on(travels: Seq<Travel>) -> Seq<Travel>
    decreases travels.len(),
{
    if travels.len() == 0 {
        Seq::empty()
    } else {
        let t = travels[0];
        let rest = marching_on(travels.drop_first());
        if ticked(t.remaining) == 0 {
            rest
        } else {
            seq![Travel { remaining: ticked(t.remaining), ..t }] + rest
        }
    }
}

/// The number of civilizations that are alive.
pub open spec fn alive_count(civs: Seq<CivState>) -> nat
    decreases civs.len(),
{
    if civs.len() == 0 {
        0
    } else {
        alive_count(civs.drop_last()) + if civs.last().alive {
            1nat
        } else {
            0nat
        }
    }
}

/// The place of the first civilization that is alive.
pub open spec fn first_alive(civs: Seq<CivState>) -> Option<int>
    decreases civs.len(),
{
    if civs.len() == 0 {
        None
    } else {
        match first_alive(civs.drop_last()) {
            Some(i) => Some(i),
            None => if civs.last().alive {
                Some(civs.len() - 1)
            } else {
                None
            },
        }
    }
}

/// The game-over latch after a win check: it stays set once set, and is
/// set when at most one civilization is alive.
pub open spec fn latched(game_over: bool, civs: Seq<CivState>) -> bool {
    game_over || alive_count(civs) <= 1
}

/// The strength of an army as far as a 64-bit number can tell it.
pub open spec fn capped_power(defs: Seq<UnitDef>, units: Seq<UnitInstance>) -> nat {
    if power(defs, units) > u64::MAX {
        u64::MAX as nat
    } else {
        power(defs, units)
    }
}

/// The smallest stack is one of the stacks, and no stack is smaller.
pub proof fn lemma_smallest(units: Seq<UnitInstance>)
    requires
        units.len() > 0,
    ensures
        0 <= smallest(units) < units.len(),
        forall|j: int|
            0 <= j < units.len() ==> units[smallest(units)].nb_units <= (#[trigger] units[j]).nb_units,
    decreases units.len(),
{
    if units.len() > 1 {
        lemma_smallest(units.drop_last());
        let i = smallest(units.drop_last());
        assert(units.drop_last()[i] == units[i]);
        assert forall|j: int| 0 <= j < units.len() implies units[smallest(units)].nb_units <= (
        #[trigger] units[j]).nb_units by {
            if j < units.len() - 1 {
                assert(units.drop_last()[j] == units[j]);
            }
        }
    }
}

/// Taking one stack away lowers the headcount by what the stack held.
pub proof fn lemma_headcount_remove(units: Seq<UnitInstance>, i: int)
    requires
        0 <= i < units.len(),
    ensures
        headcount(units.remove(i)) == headcount(units) - units[i].nb_units,
    decreases units.len(),
{
    if i == units.len() - 1 {
        assert(units.remove(i) =~= units.drop_last());
    } else {
        lemma_headcount_remove(units.drop_last(), i);
        assert(units.remove(i).drop_last() =~= units.drop_last().remove(i));
        assert(units.remove(i).last() == units.last());
        assert(units.drop_last()[i] == units[i]);
    }
}

/// Changing the count of one stack changes the headcount by as much.
pub proof fn lemma_headcount_update(units: Seq<UnitInstance>, i: int, stack: UnitInstance)
    requires
        0 <= i < units.len(),
    ensures
        headcount(units.update(i, stack)) == headcount(units) - units[i].nb_units + stack.nb_units,
    decreases units.len(),
{
    if i == units.len() - 1 {
        assert(units.update(i, stack).drop_last() =~= units.drop_last());
    } else {
        lemma_headcount_update(units.drop_last(), i, stack);
        assert(units.update(i, stack).drop_last() =~= units.drop_last().update(i, stack));
        assert(units.drop_last()[i] == units[i]);
    }
}

/// Losses never add a stack, and they lower the headcount by exactly the
/// number lost, or to zero if fewer units were there.
pub proof fn lemma_thinned(units: Seq<UnitInstance>, n: nat)
    ensures
        thinned(units, n).len() <= units.len(),
        headcount(thinned(units, n)) == if n <= headcount(units) {
            headcount(units) - n
        } else {
            0
        },
    decreases units.len(),
{
    if n == 0 || units.len() == 0 {
    } else {
        lemma_smallest(units);
        let i = smallest(units);
        if units[i].nb_units <= n {
            lemma_headcount_remove(units, i);
            lemma_thinned(units.remove(i), (n - units[i].nb_units) as nat);
        } else {
            lemma_headcount_update(
                units,
                i,
                UnitInstance { id_units: units[i].id_units, nb_units: (units[i].nb_units - n) as u32 },
            );
            lemma_headcount_at_least(units, i);
        }
    }
}

/// The headcount is at least what any one stack holds.
pub proof fn lemma_headcount_at_least(units: Seq<UnitInstance>, i: int)
    requires
        0 <= i < units.len(),
    ensures
        headcount(units) >= units[i].nb_units,
    decreases units.len(),
{
    if i < units.len() - 1 {
        lemma_headcount_at_least(units.drop_last(), i);
        assert(units.drop_last()[i] == units[i]);
    }
}

} // verus!
