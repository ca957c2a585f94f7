//! Armies: their strength, their losses, the march on another city, and
//! the battle on arrival.

use crate::ast::{find_unit, UnitDef, UnitInstance};
use crate::map::Point;
use crate::path::{is_first_cheapest, reachable, shortest_path, travel_turns, turns_for, walk_cost};
use crate::rules::{
    after_arrivals, after_battle, attack_refused, capped_power, fought, headcount, last_battle,
    lemma_headcount_remove, lemma_headcount_update, lemma_thinned, marching_on, overwhelms,
    sent_amount, smallest, stack_power, thinned, ticked,
};
use crate::state::{states, ActionError, CivState, GameState, PopupKind, Travel};
use crate::text::{decimal, decimal_text};
use vstd::prelude::*;
use vstd::string::StringExecFns;

verus! {

/// The report of a battle: who attacked whom, with what strength on either
/// side, and how it ended. `lost` is `None` when the defender was
/// eliminated, else the number of units that the defender lost.
pub open spec fn battle_text(
    attacker: Seq<char>,
    defender: Seq<char>,
    sent: nat,
    defended: nat,
    lost: Option<nat>,
) -> Seq<char> {
    let head = attacker + " attacked "@ + defender + " ("@ + decimal_text(sent) + " vs "@
        + decimal_text(defended) + ") \u{2014} "@;
    match lost {
        None => head + "defender eliminated"@,
        Some(n) => head + "attack failed, defender lost "@ + decimal_text(n) + " units"@,
    }
}

/// The strength of an army, as far as 64 bits can tell it.
pub fn army_power(defs: &Vec<UnitDef>, units: &Vec<UnitInstance>) -> (r: u64)
    ensures
        r == capped_power(defs@, units@),
{
    let mut sum: u64 = 0;
    let mut k: usize = 0;
    while k < units.len()
        invariant
            k <= units@.len(),
            sum == capped_power(defs@, units@.subrange(0, k as int)),
        decreases units@.len() - k,
    {
        proof {
            assert(units@.subrange(0, k as int + 1).drop_last() =~= units@.subrange(0, k as int));
        }
        let strength: u64 = match find_unit(defs, units[k].id_units.as_str()) {
            Some(i) => {
                assert(units@[k as int].nb_units * defs@[i as int].attack <= 0xffff_ffff * 0xffff_ffff)
                    by (nonlinear_arith)
                    requires
                        units@[k as int].nb_units <= 0xffff_ffff,
                        defs@[i as int].attack <= 0xffff_ffff,
                ;
                units[k].nb_units as u64 * defs[i].attack as u64
            },
            None => 0,
        };
        assert(strength == stack_power(defs@, units@[k as int]));
        sum = sum.saturating_add(strength);
        k = k + 1;
    }
    assert(units@.subrange(0, k as int) =~= units@);
    sum
}

/// The number of units in an army.
pub fn army_size(units: &Vec<UnitInstance>) -> (r: u128)
    ensures
        r == headcount(units@),
{
    let mut sum: u128 = 0;
    let mut k: usize = 0;
    while k < units.len()
        invariant
            k <= units@.len(),
            sum == headcount(units@.subrange(0, k as int)),
            sum <= k * 0xffff_ffff,
        decreases units@.len() - k,
    {
        proof {
            assert(units@.subrange(0, k as int + 1).drop_last() =~= units@.subrange(0, k as int));
            assert((k + 1) * 0xffff_ffff == k * 0xffff_ffff + 0xffff_ffff) by (nonlinear_arith);
            assert(k * 0xffff_ffff <= 0xffff_ffff_ffff_ffff * 0xffff_ffff) by (nonlinear_arith)
                requires
                    k <= 0xffff_ffff_ffff_ffff,
            ;
        }
        sum = sum + units[k].nb_units as u128;
        k = k + 1;
    }
    assert(units@.subrange(0, k as int) =~= units@);
    sum
}

/// The place of the smallest stack, the first one among equals.
fn find_smallest(units: &Vec<UnitInstance>) -> (i: usize)
    requires
        units@.len() > 0,
    ensures
        i == smallest(units@),
        i < units@.len(),
{
    let mut best: usize = 0;
    let mut k: usize = 1;
    assert(smallest(units@.subrange(0, 1)) == 0);
    while k < units.len()
        invariant
            1 <= k <= units@.len(),
            best == smallest(units@.subrange(0, k as int)),
            best < k,
        decreases units@.len() - k,
    {
        proof {
            let next = units@.subrange(0, k as int + 1);
            assert(next.drop_last() =~= units@.subrange(0, k as int));
            assert(next.last() == units@[k as int]);
            assert(next[best as int] == units@[best as int]);
        }
        if units[k].nb_units < units[best].nb_units {
            best = k;
        }
        k = k + 1;
    }
    assert(units@.subrange(0, k as int) =~= units@);
    best
}

/// Takes `n` units out of an army, or all of them if there are fewer, the
/// smallest stack first. Returns how many were taken.
pub fn remove_units(units: &mut Vec<UnitInstance>, n: u32) -> (removed: u32)
    ensures
        final(units)@ == thinned(old(units)@, n as nat),
        final(units)@.len() <= old(units)@.len(),
        removed == if n <= headcount(old(units)@) {
            n as nat
        } else {
            headcount(old(units)@)
        },
        headcount(final(units)@) == headcount(old(units)@) - removed,
{
    let mut left: u32 = n;
    proof {
        lemma_thinned(units@, n as nat);
    }
    while left > 0 && units.len() > 0
        invariant
            left <= n,
            thinned(units@, left as nat) == thinned(old(units)@, n as nat),
            headcount(old(units)@) - headcount(units@) == n - left,
        decreases units@.len(), left,
    {
        let i = find_smallest(units);
        let have = units[i].nb_units;
        let ghost now = units@;
        if have <= left {
            proof {
                lemma_headcount_remove(units@, i as int);
            }
            units.remove(i);
            left = left - have;
        } else {
            proof {
                lemma_headcount_update(
                    units@,
                    i as int,
                    UnitInstance { id_units: units@[i as int].id_units, nb_units: (have - left) as u32 },
                );
            }
            units[i].nb_units = have - left;
            assert(units@ =~= now.update(
                i as int,
                UnitInstance { id_units: now[i as int].id_units, nb_units: (have - left) as u32 },
            ));
            left = 0;
        }
    }
    n - left
}

impl GameState {
    /// The strength of a civilization's army: for every stack its count
    /// times the attack of its kind, as far as 64 bits can tell it.
    pub fn calculate_city_power(&self, civ_index: usize) -> (r: u64)
        requires
            civ_index < self.civilizations@.len(),
        ensures
            r == capped_power(self.units@, self.civilizations@[civ_index as int].city.units@),
    {
        army_power(&self.units, &self.civilizations[civ_index].city.units)
    }

    /// Takes up to `to_remove` units out of a city, the smallest stack
    /// first, and returns how many were taken.
    pub fn remove_units_from_city(&mut self, civ_index: usize, to_remove: u32) -> (removed: u32)
        requires
            old(self).wf(),
            civ_index < old(self).civilizations@.len(),
        ensures
            final(self).wf(),
            final(self).civilizations@[civ_index as int].state() == (CivState {
                units: thinned(old(self).civilizations@[civ_index as int].city.units@, to_remove as nat),
                ..old(self).civilizations@[civ_index as int].state()
            }),
            removed == if to_remove <= headcount(old(self).civilizations@[civ_index as int].city.units@) {
                to_remove as nat
            } else {
                headcount(old(self).civilizations@[civ_index as int].city.units@)
            },
            final(self).same_but_civ(old(self), civ_index as int),
    {
        assert(self.civilizations@[civ_index as int].state().wf());
        let removed = remove_units(&mut self.civilizations[civ_index].city.units, to_remove);
        assert(self.civilizations@[civ_index as int].state() =~= (CivState {
            units: thinned(old(self).civilizations@[civ_index as int].city.units@, to_remove as nat),
            ..old(self).civilizations@[civ_index as int].state()
        }));
        removed
    }

    /// Why an attack fails, if it does: the first reason to refuse it, or
    /// that no walk leads from the attacker's city to the defender's.
    pub open spec fn attack_failure(&self, attacker: usize, defender: usize, amount: Option<u32>) -> Option<ActionError> {
        match attack_refused(
            states(self.civilizations@),
            self.game_over,
            attacker as int,
            defender as int,
            amount,
        ) {
            Some(reason) => Some(reason),
            None => if reachable(
                &self.map,
                self.civilizations@[attacker as int].position(),
                self.civilizations@[defender as int].position(),
            ) {
                None
            } else {
                Some(ActionError::NoPath)
            },
        }
    }

    /// What an attack makes of the state `before`, and what it answers. On
    /// failure nothing has changed. On success the units that were sent
    /// have left the attacker's city, the smallest stack first, and the last
    /// march of the list is new: it carries them along the first of the
    /// cheapest walks between the two cities and lasts the turns that its
    /// cost asks for.
    pub open spec fn attack_started(
        &self,
        before: &GameState,
        attacker: usize,
        defender: usize,
        amount: Option<u32>,
        r: Result<(), ActionError>,
    ) -> bool {
        match (r, before.attack_failure(attacker, defender, amount)) {
            (Err(e), Some(reason)) => e == reason && *self == *before,
            (Ok(_), None) => {
                let home = before.civilizations@[attacker as int].state();
                let sent = sent_amount(home.units, amount);
                let march = self.travels@.last();
                &&& self.civilizations@[attacker as int].state() == (CivState {
                    units: thinned(home.units, sent),
                    ..home
                })
                &&& self.travels@ == before.travels@.push(march)
                &&& march.attacker == attacker
                &&& march.defender == defender
                &&& march.amount == sent
                &&& sent >= 1
                &&& is_first_cheapest(
                    &before.map,
                    march.path@,
                    before.civilizations@[attacker as int].position(),
                    before.civilizations@[defender as int].position(),
                )
                &&& march.total == turns_for(walk_cost(&before.map, march.path@))
                &&& march.remaining == march.total
                &&& self.same_setting(before)
                &&& self.same_screen(before)
                &&& self.same_dialog(before)
                &&& self.same_clock(before)
                &&& self.same_outcome(before)
                &&& self.same_civs_but(before, attacker as int)
            },
            _ => false,
        }
    }

    /// Sends an army from one civilization against another.
    ///
    /// The attack is refused, and nothing changes, when either index is out
    /// of range, when both are the same, when the game is over, when either
    /// side is dead, when the attacker has no units, when zero units are
    /// asked for, or when no walk leads from the attacker's city to the
    /// defender's. Otherwise the units leave the attacker's city at once,
    /// the smallest stack first, and a march is added along a cheapest walk,
    /// lasting the turns that its cost asks for.
    pub fn start_attack(&mut self, attacker_idx: usize, defender_idx: usize, amount_opt: Option<u32>) -> (r: Result<(), ActionError>)
        requires
            old(self).wf(),
        ensures
            final(self).wf(),
            final(self).attack_started(old(self), attacker_idx, defender_idx, amount_opt, r),
    {
        let count = self.civilizations.len();
        proof {
            assert(states(self.civilizations@).len() == count);
        }
        if attacker_idx >= count || defender_idx >= count {
            return Err(ActionError::InvalidIndex);
        }
        proof {
            assert(states(self.civilizations@)[attacker_idx as int]
                == self.civilizations@[attacker_idx as int].state());
            assert(states(self.civilizations@)[defender_idx as int]
                == self.civilizations@[defender_idx as int].state());
            assert(self.civilizations@[attacker_idx as int].state().wf());
        }
        if attacker_idx == defender_idx {
            return Err(ActionError::SelfAttack);
        }
        if self.game_over {
            return Err(ActionError::GameOver);
        }
        if !self.civilizations[attacker_idx].alive {
            return Err(ActionError::AttackerDead);
        }
        if !self.civilizations[defender_idx].alive {
            return Err(ActionError::DefenderDead);
        }
        let total = army_size(&self.civilizations[attacker_idx].city.units);
        if total == 0 {
            return Err(ActionError::NoUnitsAvailable);
        }
        let wanted: u128 = match amount_opt {
            Some(a) => {
                if a == 0 {
                    return Err(ActionError::InvalidAmount);
                }
                a as u128
            },
            None => total,
        };
        let capped: u128 = if wanted > total {
            total
        } else {
            wanted
        };
        let send: u32 = if capped > 0xffff_ffff {
            0xffff_ffff
        } else {
            capped as u32
        };
        let from: Point = (
            self.civilizations[attacker_idx].city.x as usize,
            self.civilizations[attacker_idx].city.y as usize,
        );
        let to: Point = (
            self.civilizations[defender_idx].city.x as usize,
            self.civilizations[defender_idx].city.y as usize,
        );
        let route = match shortest_path(&self.map, from, to) {
            Some(route) => route,
            None => {
                return Err(ActionError::NoPath);
            },
        };
        let removed = remove_units(&mut self.civilizations[attacker_idx].city.units, send);
        let turns = travel_turns(route.cost);
        let march = Travel {
            attacker: attacker_idx,
            defender: defender_idx,
            amount: removed,
            remaining: turns,
            total: turns,
            path: route.path,
        };
        self.travels.push(march);
        proof {
            let before = old(self).civilizations@[attacker_idx as int].state();
            assert(self.civilizations@[attacker_idx as int].state() =~= (CivState {
                units: thinned(before.units, send as nat),
                ..before
            }));
            assert(self.travels@.last() == march);
            assert forall|i: int| 0 <= i < self.travels@.len() implies (#[trigger] self.travels@[i]).wf(
                self.civilizations@.len(),
            ) by {
                if i < old(self).travels@.len() {
                    assert(self.travels@[i] == old(self).travels@[i]);
                }
            }
        }
        Ok(())
    }
}

/// The names of the cities of some civilizations, in order.
pub open spec fn city_names(civs: Seq<crate::state::Civilization>) -> Seq<Seq<char>> {
    Seq::new(civs.len(), |i: int| civs[i].city.name@)
}

/// The report of the battle that the army of `t` fights on arrival, with
/// the civilizations as they stand just before it.
pub open spec fn report_text(
    names: Seq<Seq<char>>,
    civs: Seq<CivState>,
    defs: Seq<UnitDef>,
    t: Travel,
) -> Seq<char> {
    let army = civs[t.defender as int].units;
    let half = (t.amount / 2) as nat;
    battle_text(
        names[t.attacker as int],
        names[t.defender as int],
        t.amount as nat,
        capped_power(defs, army),
        if overwhelms(civs, defs, t) {
            None
        } else if half <= headcount(army) {
            Some(half)
        } else {
            Some(headcount(army))
        },
    )
}

/// Writes the report of a battle.
fn battle_message(attacker: &str, defender: &str, sent: u32, defended: u64, lost: Option<u32>) -> (r: String)
    ensures
        r@ == battle_text(
            attacker@,
            defender@,
            sent as nat,
            defended as nat,
            match lost {
                Some(n) => Some(n as nat),
                None => None,
            },
        ),
{
    let mut text = String::from_str(attacker);
    text.append(" attacked ");
    text.append(defender);
    text.append(" (");
    text.append(decimal(sent as u64).as_str());
    text.append(" vs ");
    text.append(decimal(defended).as_str());
    text.append(") \u{2014} ");
    match lost {
        None => {
            text.append("defender eliminated");
        },
        Some(n) => {
            text.append("attack failed, defender lost ");
            text.append(decimal(n as u64).as_str());
            text.append(" units");
        },
    }
    text
}

impl GameState {
    /// What the arrival of an army leaves alone: the players, the setting,
    /// the screen, the clock, the outcome and the command line.
    pub open spec fn same_but_armies(&self, other: &GameState) -> bool {
        &&& self.same_players(other)
        &&& self.same_setting(other)
        &&& self.same_screen(other)
        &&& self.same_clock(other)
        &&& self.same_outcome(other)
        &&& self.action_input == other.action_input
        &&& forall|i: int|
            0 <= i < self.civilizations@.len() ==> {
                let now = (#[trigger] self.civilizations@[i]).state();
                let then = other.civilizations@[i].state();
                &&& now.balance == then.balance
                &&& now.buildings == then.buildings
                &&& now.constructions == then.constructions
                &&& now.recruitments == then.recruitments
                &&& now.building_slots == then.building_slots
                &&& now.unit_slots == then.unit_slots
                &&& now.units.len() <= then.units.len()
            }
    }

    /// Resolves the arrival of the army of `t`: nothing if either side is
    /// dead, else a battle and a popup that reports it.
    fn resolve_arrival(&mut self, t: &Travel)
        requires
            old(self).wf(),
            t.attacker < old(self).civilizations@.len(),
            t.defender < old(self).civilizations@.len(),
        ensures
            final(self).wf(),
            states(final(self).civilizations@) == after_battle(
                states(old(self).civilizations@),
                old(self).units@,
                *t,
            ),
            final(self).same_but_armies(old(self)),
            final(self).travels == old(self).travels,
            if fought(states(old(self).civilizations@), *t) {
                &&& !final(self).action_editing
                &&& final(self).popup matches Some(p) && p.shows(
                    PopupKind::Battle,
                    report_text(
                        city_names(old(self).civilizations@),
                        states(old(self).civilizations@),
                        old(self).units@,
                        *t,
                    ),
                    Seq::empty(),
                )
            } else {
                final(self).same_dialog(old(self))
            },
    {
        let ghost before = states(self.civilizations@);
        let ghost defs = self.units@;
        let attacker = t.attacker;
        let defender = t.defender;
        proof {
            assert(before[attacker as int] == self.civilizations@[attacker as int].state());
            assert(before[defender as int] == self.civilizations@[defender as int].state());
            assert(self.civilizations@[defender as int].state().wf());
        }
        if !self.civilizations[attacker].alive || !self.civilizations[defender].alive {
            assert(states(self.civilizations@) =~= after_battle(before, defs, *t));
            return ;
        }
        let defended = self.calculate_city_power(defender);
        let sent = t.amount;
        let lost: Option<u32> = if sent as u64 > defended {
            self.civilizations[defender].alive = false;
            self.civilizations[defender].city.units.clear();
            None
        } else {
            let half = sent / 2;
            Some(remove_units(&mut self.civilizations[defender].city.units, half))
        };
        let text = battle_message(
            self.civilizations[attacker].city.name.as_str(),
            self.civilizations[defender].city.name.as_str(),
            sent,
            defended,
            lost,
        );
        self.open_popup(PopupKind::Battle, text.as_str(), Vec::new());
        proof {
            let after = after_battle(before, defs, *t);
            let now = states(self.civilizations@);
            assert(now.len() == after.len());
            assert forall|i: int| 0 <= i < now.len() implies now[i] == after[i] by {
                if i == defender {
                    assert(now[i] =~= after[i]);
                } else {
                    assert(self.civilizations@[i] == old(self).civilizations@[i]);
                }
            }
            assert(now =~= after);
            assert(city_names(old(self).civilizations@)[attacker as int]
                == old(self).civilizations@[attacker as int].city.name@);
            assert(city_names(old(self).civilizations@)[defender as int]
                == old(self).civilizations@[defender as int].city.name@);
            let p = self.popup->Some_0;
            assert(crate::text::texts(p.choices@) =~= Seq::<Seq<char>>::empty());
            assert forall|i: int| 0 <= i < self.civilizations@.len() implies (
            #[trigger] self.civilizations@[i]).state().wf() by {
                if i != defender {
                    assert(self.civilizations@[i] == old(self).civilizations@[i]);
                    assert(old(self).civilizations@[i].state().wf());
                }
            }
        }
    }

    /// Lets every march run one more turn and resolves the arrivals, the
    /// last march in the list first.
    pub fn resolve_travels(&mut self)
        requires
            old(self).wf(),
        ensures
            final(self).wf(),
            states(final(self).civilizations@) == after_arrivals(
                states(old(self).civilizations@),
                old(self).units@,
                old(self).travels@,
            ),
            final(self).travels@ == marching_on(old(self).travels@),
            final(self).same_but_armies(old(self)),
            match last_battle(states(old(self).civilizations@), old(self).units@, old(self).travels@) {
                Some((then, t)) => {
                    &&& !final(self).action_editing
                    &&& final(self).popup matches Some(p) && p.shows(
                        PopupKind::Battle,
                        report_text(city_names(old(self).civilizations@), then, old(self).units@, t),
                        Seq::empty(),
                    )
                },
                None => final(self).same_dialog(old(self)),
            },
    {
        let ghost start = states(self.civilizations@);
        let ghost defs = self.units@;
        let ghost all = self.travels@;
        let ghost names = city_names(self.civilizations@);
        let ghost mut recent: Option<(Seq<CivState>, Travel)> = None;
        let mut pending: Vec<Travel> = Vec::new();
        std::mem::swap(&mut self.travels, &mut pending);
        let mut kept: Vec<Travel> = Vec::new();
        proof {
            assert(pending@ =~= all.subrange(0, all.len() as int));
            assert(all.subrange(all.len() as int, all.len() as int) =~= Seq::<Travel>::empty());
        }
        while pending.len() > 0
            invariant
                self.wf(),
                self.travels@.len() == 0,
                self.units@ == defs,
                self.same_but_armies(old(self)),
                names == city_names(old(self).civilizations@),
                all == old(self).travels@,
                start == states(old(self).civilizations@),
                forall|i: int|
                    0 <= i < all.len() ==> (#[trigger] all[i]).wf(old(self).civilizations@.len()),
                pending@.len() <= all.len(),
                pending@ == all.subrange(0, pending@.len() as int),
                kept@ == marching_on(all.subrange(pending@.len() as int, all.len() as int)),
                forall|i: int|
                    0 <= i < kept@.len() ==> (#[trigger] kept@[i]).wf(old(self).civilizations@.len()),
                after_arrivals(states(self.civilizations@), defs, pending@) == after_arrivals(
                    start,
                    defs,
                    all,
                ),
                last_battle(start, defs, all) == match last_battle(
                    states(self.civilizations@),
                    defs,
                    pending@,
                ) {
                    Some(b) => Some(b),
                    None => recent,
                },
                match recent {
                    Some((then, t)) => {
                        &&& !self.action_editing
                        &&& self.popup matches Some(p) && p.shows(
                            PopupKind::Battle,
                            report_text(names, then, defs, t),
                            Seq::empty(),
                        )
                    },
                    None => self.same_dialog(old(self)),
                },
            decreases pending@.len(),
        {
            let ghost now = states(self.civilizations@);
            let ghost waiting = pending@;
            let ghost k = pending@.len() as int;
            let mut t = pending.pop().unwrap();
            proof {
                assert(t == all[k - 1]);
                assert(t.wf(old(self).civilizations@.len()));
                assert(pending@ =~= all.subrange(0, k - 1));
                assert(waiting.drop_last() =~= pending@);
                assert(waiting.last() == t);
                let tail = all.subrange(k - 1, all.len() as int);
                assert(tail[0] == t);
                assert(tail.drop_first() =~= all.subrange(k, all.len() as int));
            }
            let left = t.remaining;
            if left <= 1 {
                let ghost was = *self;
                self.resolve_arrival(&t);
                proof {
                    assert(ticked(t.remaining) == 0);
                    if fought(now, t) {
                        recent = Some((now, t));
                        assert(city_names(was.civilizations@) =~= names);
                    }
                    assert forall|i: int| 0 <= i < self.civilizations@.len() implies {
                        let s = (#[trigger] self.civilizations@[i]).state();
                        let o = old(self).civilizations@[i].state();
                        s.units.len() <= o.units.len()
                    } by {
                        assert(was.civilizations@[i].state().units.len()
                            <= old(self).civilizations@[i].state().units.len());
                    }
                }
            } else {
                let ghost earlier = t;
                t.remaining = left - 1;
                proof {
                    assert(t == (Travel { remaining: ticked(earlier.remaining), ..earlier }));
                }
                kept.insert(0, t);
                proof {
                    assert(kept@ =~= seq![t] + marching_on(all.subrange(k, all.len() as int)));
                    assert forall|i: int| 0 <= i < kept@.len() implies (#[trigger] kept@[i]).wf(
                        old(self).civilizations@.len(),
                    ) by {
                        if i > 0 {
                            assert(kept@[i] == marching_on(all.subrange(k, all.len() as int))[i - 1]);
                        }
                    }
                }
            }
        }
        proof {
            assert(all.subrange(0, all.len() as int) =~= all);
        }
        self.travels = kept;
    }
}

} // verus!
