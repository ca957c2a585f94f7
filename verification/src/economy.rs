//! Resources and production: ordering buildings and units, and what the
//! start of a turn pays out and finishes.

use crate::ast::{
    find_building, find_unit, lemma_position_extends, position, BuildingDef,
    BuildingInstance, ProductionType, UnitInstance,
};
use crate::rules::{
    after_production, construction_ordered, credited, income, joined, producer, produces,
    recruitment_ordered, stack_names, yield_of,
};
use crate::state::{ActionError, CivState, Construction, GameState, Recruitment};
use crate::text::same_text;
use vstd::prelude::*;

verus! {

/// Tells whether buildings of this template turn out the unit `unit`.
fn turns_out(def: &BuildingDef, unit: &str) -> (r: bool)
    ensures
        r == produces(*def, unit@),
{
    match def.production.prod_type {
        ProductionType::UNIT => match &def.production.prod_unit_id {
            Some(id) => same_text(id.as_str(), unit),
            None => false,
        },
        ProductionType::RESSOURCE => false,
    }
}

/// Finds the template of the first standing building that turns out `unit`.
fn find_producer(defs: &Vec<BuildingDef>, built: &Vec<BuildingInstance>, unit: &str) -> (r: Option<usize>)
    ensures
        match r {
            Some(i) => producer(defs@, built@, unit@) == Some(i as int) && i < defs@.len(),
            None => producer(defs@, built@, unit@) is None,
        },
{
    let mut k: usize = 0;
    while k < built.len()
        invariant
            k <= built@.len(),
            producer(defs@, built@.subrange(0, k as int), unit@) is None,
        decreases built@.len() - k,
    {
        proof {
            assert(built@.subrange(0, k as int + 1).drop_last() =~= built@.subrange(0, k as int));
        }
        match find_building(defs, built[k].id_building.as_str()) {
            Some(i) => {
                if turns_out(&defs[i], unit) {
                    proof {
                        lemma_producer_extends(defs@, built@, unit@, k as int + 1);
                    }
                    return Some(i);
                }
            },
            None => {},
        }
        k = k + 1;
    }
    assert(built@.subrange(0, k as int) =~= built@);
    None
}

/// A producer found among the first buildings is the producer of the city.
proof fn lemma_producer_extends(defs: Seq<BuildingDef>, built: Seq<BuildingInstance>, unit: Seq<char>, k: int)
    requires
        0 <= k <= built.len(),
        producer(defs, built.subrange(0, k), unit) is Some,
    ensures
        producer(defs, built, unit) == producer(defs, built.subrange(0, k), unit),
    decreases built.len() - k,
{
    if k == built.len() {
        assert(built.subrange(0, k) =~= built);
    } else {
        assert(built.subrange(0, k + 1).drop_last() =~= built.subrange(0, k));
        lemma_producer_extends(defs, built, unit, k + 1);
    }
}

/// What the standing buildings yield in one turn.
fn total_income(defs: &Vec<BuildingDef>, built: &Vec<BuildingInstance>) -> (r: u128)
    ensures
        r == income(defs@, built@),
        r <= 0xffff_ffff_ffff_ffff * 0xffff_ffff,
{
    let mut sum: u128 = 0;
    let mut k: usize = 0;
    while k < built.len()
        invariant
            k <= built@.len(),
            sum == income(defs@, built@.subrange(0, k as int)),
            sum <= k * 0xffff_ffff,
        decreases built@.len() - k,
    {
        proof {
            assert(built@.subrange(0, k as int + 1).drop_last() =~= built@.subrange(0, k as int));
        }
        let gain: u32 = match find_building(defs, built[k].id_building.as_str()) {
            Some(i) => match defs[i].production.prod_type {
                ProductionType::RESSOURCE => defs[i].production.amount,
                ProductionType::UNIT => 0,
            },
            None => 0,
        };
        assert(gain == yield_of(defs@, built@[k as int].id_building@));
        assert((k + 1) * 0xffff_ffff == k * 0xffff_ffff + 0xffff_ffff) by (nonlinear_arith);
        assert(k * 0xffff_ffff <= 0xffff_ffff_ffff_ffff * 0xffff_ffff) by (nonlinear_arith)
            requires
                k <= 0xffff_ffff_ffff_ffff,
        ;
        sum = sum + gain as u128;
        k = k + 1;
    }
    assert(built@.subrange(0, k as int) =~= built@);
    assert(k * 0xffff_ffff <= 0xffff_ffff_ffff_ffff * 0xffff_ffff) by (nonlinear_arith)
        requires
            k <= 0xffff_ffff_ffff_ffff,
    ;
    sum
}

/// Adds `amount` units of kind `id` to the stacks of a city.
fn join_units(units: &mut Vec<UnitInstance>, id: String, amount: u32)
    ensures
        final(units)@ == joined(old(units)@, id, amount),
        final(units)@.len() == old(units)@.len() || (final(units)@.len() == old(units)@.len() + 1
            && position(stack_names(old(units)@), id@) is None),
{
    let ghost names = stack_names(units@);
    let mut k: usize = 0;
    while k < units.len()
        invariant
            units@ == old(units)@,
            k <= units@.len(),
            names == stack_names(units@),
            position(names.subrange(0, k as int), id@) is None,
        decreases units@.len() - k,
    {
        proof {
            assert(names.subrange(0, k as int + 1).drop_last() =~= names.subrange(0, k as int));
        }
        if same_text(units[k].id_units.as_str(), id.as_str()) {
            proof {
                lemma_position_extends(names, id@, k as int + 1);
            }
            let count = units[k].nb_units;
            units[k].nb_units = count.saturating_add(amount);
            assert(units@ =~= joined(old(units)@, id, amount));
            return ;
        }
        k = k + 1;
    }
    assert(names.subrange(0, k as int) =~= names);
    units.push(UnitInstance { id_units: id, nb_units: amount });
}

impl GameState {
    /// Nothing but the civilization at `civ` differs from `other`, and that
    /// one is still the same player with the same city.
    pub open spec fn same_but_civ(&self, other: &GameState, civ: int) -> bool {
        &&& self.same_setting(other)
        &&& self.same_screen(other)
        &&& self.same_dialog(other)
        &&& self.same_clock(other)
        &&& self.same_outcome(other)
        &&& self.travels == other.travels
        &&& self.same_civs_but(other, civ)
    }

    /// The outcome of an order to build `name` for the civilization `civ`:
    /// nothing is ordered once the game is over.
    pub open spec fn construction_outcome(&self, civ: usize, name: Seq<char>) -> Result<CivState, ActionError> {
        if self.game_over {
            Err(ActionError::GameOver)
        } else {
            construction_ordered(self.civilizations@[civ as int].state(), self.buildings@, name)
        }
    }

    /// The outcome of an order to recruit `name` for the civilization
    /// `civ`: nothing is ordered once the game is over.
    pub open spec fn recruitment_outcome(&self, civ: usize, name: Seq<char>) -> Result<CivState, ActionError> {
        if self.game_over {
            Err(ActionError::GameOver)
        } else {
            recruitment_ordered(
                self.civilizations@[civ as int].state(),
                self.buildings@,
                self.units@,
                name,
            )
        }
    }

    /// What an order to build `name` for the civilization `civ` makes of the
    /// state `before`, and what it answers: on success the civilization has
    /// paid and queued the construction and nothing else has changed; on
    /// refusal nothing has changed at all.
    pub open spec fn construction_started(
        &self,
        before: &GameState,
        civ: usize,
        name: Seq<char>,
        r: Result<(), ActionError>,
    ) -> bool {
        match (r, before.construction_outcome(civ, name)) {
            (Ok(_), Ok(after)) => self.civilizations@[civ as int].state() == after && self.same_but_civ(
                before,
                civ as int,
            ),
            (Err(e), Err(reason)) => e == reason && *self == *before,
            _ => false,
        }
    }

    /// What an order to recruit `name` for the civilization `civ` makes of
    /// the state `before`, and what it answers.
    pub open spec fn recruitment_started(
        &self,
        before: &GameState,
        civ: usize,
        name: Seq<char>,
        r: Result<(), ActionError>,
    ) -> bool {
        match (r, before.recruitment_outcome(civ, name)) {
            (Ok(_), Ok(after)) => self.civilizations@[civ as int].state() == after && self.same_but_civ(
                before,
                civ as int,
            ),
            (Err(e), Err(reason)) => e == reason && *self == *before,
            _ => false,
        }
    }

    /// Orders the building called `building_name` for a civilization.
    ///
    /// The order is refused, and nothing changes, when the game is over,
    /// when the civilization is dead, when no template has that name, when
    /// a construction is already in progress, when no building slot is
    /// free, or when the balance does not cover the cost. Otherwise
    /// the cost is paid at once and the construction is queued for the
    /// template's build time.
    pub fn start_construction(&mut self, civ_index: usize, building_name: &str) -> (r: Result<(), ActionError>)
        requires
            old(self).wf(),
            civ_index < old(self).civilizations@.len(),
        ensures
            final(self).wf(),
            final(self).construction_started(old(self), civ_index, building_name@, r),
    {
        if self.game_over {
            return Err(ActionError::GameOver);
        }
        if !self.civilizations[civ_index].alive {
            return Err(ActionError::CivilizationDead);
        }
        let at = match find_building(&self.buildings, building_name) {
            Some(i) => i,
            None => {
                return Err(ActionError::UnknownBuilding);
            },
        };
        let civ = &self.civilizations[civ_index];
        assert(civ.state().wf());
        if civ.constructions.len() > 0 {
            return Err(ActionError::AlreadyInProgress);
        }
        if civ.city.buildings.len() >= civ.city.nb_slots_buildings as usize {
            return Err(ActionError::NoSlot);
        }
        let cost = self.buildings[at].cost;
        if (civ.resources.ressources as i64) < cost as i64 {
            return Err(ActionError::InsufficientResources);
        }
        let order = Construction {
            id_building: self.buildings[at].name.clone(),
            remaining: self.buildings[at].build_time,
            total: self.buildings[at].build_time,
        };
        let balance = civ.resources.ressources - cost as i32;
        self.civilizations[civ_index].resources.ressources = balance;
        self.civilizations[civ_index].constructions.push(order);
        proof {
            let after = construction_ordered(
                old(self).civilizations@[civ_index as int].state(),
                old(self).buildings@,
                building_name@,
            )->Ok_0;
            assert(self.civilizations@[civ_index as int].state() =~= after);
        }
        Ok(())
    }

    /// Orders one unit called `unit_name` for a civilization.
    ///
    /// The order is refused, and nothing changes, when the game is over,
    /// when the civilization is dead, when no unit template has that name,
    /// when no standing building of the city turns that unit out,
    /// when a recruitment is already in progress, when no unit slot is free,
    /// or when the balance does not cover the price. Price and time are
    /// those of the first standing building that turns the unit out.
    pub fn start_recruitment(&mut self, civ_index: usize, unit_name: &str) -> (r: Result<(), ActionError>)
        requires
            old(self).wf(),
            civ_index < old(self).civilizations@.len(),
        ensures
            final(self).wf(),
            final(self).recruitment_started(old(self), civ_index, unit_name@, r),
    {
        if self.game_over {
            return Err(ActionError::GameOver);
        }
        if !self.civilizations[civ_index].alive {
            return Err(ActionError::CivilizationDead);
        }
        let unit = match find_unit(&self.units, unit_name) {
            Some(i) => i,
            None => {
                return Err(ActionError::UnknownUnit);
            },
        };
        let civ = &self.civilizations[civ_index];
        assert(civ.state().wf());
        let by = match find_producer(&self.buildings, &civ.city.buildings, unit_name) {
            Some(i) => i,
            None => {
                return Err(ActionError::NoProducer);
            },
        };
        if civ.recruitments.len() > 0 {
            return Err(ActionError::AlreadyInProgress);
        }
        if civ.city.units.len() >= civ.city.nb_slots_units as usize {
            return Err(ActionError::NoSlot);
        }
        let cost = self.buildings[by].production.cost;
        if (civ.resources.ressources as i64) < cost as i64 {
            return Err(ActionError::InsufficientResources);
        }
        let order = Recruitment {
            id_unit: self.units[unit].name.clone(),
            remaining: self.buildings[by].production.time,
            amount: 1,
        };
        let balance = civ.resources.ressources - cost as i32;
        self.civilizations[civ_index].resources.ressources = balance;
        self.civilizations[civ_index].recruitments.push(order);
        proof {
            let after = recruitment_ordered(
                old(self).civilizations@[civ_index as int].state(),
                old(self).buildings@,
                old(self).units@,
                unit_name@,
            )->Ok_0;
            assert(self.civilizations@[civ_index as int].state() =~= after);
        }
        Ok(())
    }

    /// The production phase of a civilization's turn: its buildings pay out,
    /// its timers run one turn, and what is due is finished.
    pub fn run_production(&mut self, player_index: usize)
        requires
            old(self).wf(),
            player_index < old(self).civilizations@.len(),
        ensures
            final(self).wf(),
            final(self).civilizations@[player_index as int].state() == after_production(
                old(self).civilizations@[player_index as int].state(),
                old(self).buildings@,
            ),
            final(self).same_but_civ(old(self), player_index as int),
    {
        let ghost before = self.civilizations@[player_index as int].state();
        assert(before.wf());
        let gain = total_income(&self.buildings, &self.civilizations[player_index].city.buildings);
        let balance = self.civilizations[player_index].resources.ressources;
        let sum: i128 = balance as i128 + gain as i128;
        let credit: i32 = if sum > 0x7fff_ffff {
            0x7fff_ffff
        } else {
            sum as i32
        };
        assert(credit == credited(balance as int, gain as nat));
        self.civilizations[player_index].resources.ressources = credit;
        if self.civilizations[player_index].constructions.len() == 1 {
            let left = self.civilizations[player_index].constructions[0].remaining;
            if left <= 1 {
                let order = self.civilizations[player_index].constructions.remove(0);
                self.civilizations[player_index].city.buildings.push(
                    BuildingInstance { id_building: order.id_building, level: 1 },
                );
            } else {
                self.civilizations[player_index].constructions[0].remaining = left - 1;
            }
        }
        if self.civilizations[player_index].recruitments.len() == 1 {
            let left = self.civilizations[player_index].recruitments[0].remaining;
            if left <= 1 {
                let order = self.civilizations[player_index].recruitments.remove(0);
                join_units(&mut self.civilizations[player_index].city.units, order.id_unit, order.amount);
            } else {
                self.civilizations[player_index].recruitments[0].remaining = left - 1;
            }
        }
        proof {
            let after = after_production(before, old(self).buildings@);
            let now = self.civilizations@[player_index as int].state();
            assert(now.constructions =~= after.constructions);
            assert(now.recruitments =~= after.recruitments);
            assert(now.buildings =~= after.buildings);
            assert(now.units =~= after.units);
            assert(now =~= after);
        }
    }
}

} // verus!
