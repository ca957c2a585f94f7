//! What holds of the rules whatever the game: capacity, solvency, the
//! countdown of a march, the outcome of a battle, and the game-over latch.

use crate::ast::{BuildingDef, UnitDef};
use crate::rules::{
    after_arrivals, after_battle, after_production, alive_count, construction_ordered, fought,
    headcount, joined, latched, lemma_thinned, marching_on, overwhelms, recruitment_ordered,
    thinned, ticked,
};
use crate::state::{CivState, GameState, Travel};
use vstd::prelude::*;

verus! {

/// An order that is accepted leaves the civilization within its capacity,
/// with at most one construction and one recruitment in progress.
pub proof fn law_orders_keep_capacity(
    civ: CivState,
    buildings: Seq<BuildingDef>,
    units: Seq<UnitDef>,
    name: Seq<char>,
)
    requires
        civ.wf(),
    ensures
        construction_ordered(civ, buildings, name) matches Ok(after) ==> after.wf(),
        recruitment_ordered(civ, buildings, units, name) matches Ok(after) ==> after.wf(),
{
}

/// Units that join a city add at most one stack.
pub proof fn lemma_joined_len(units: Seq<crate::ast::UnitInstance>, id: String, amount: u32)
    ensures
        joined(units, id, amount).len() <= units.len() + 1,
{
    crate::ast::lemma_position(crate::rules::stack_names(units), id@);
}

/// The production phase leaves the civilization within its capacity, with
/// at most one construction and one recruitment in progress.
pub proof fn law_production_keeps_capacity(civ: CivState, buildings: Seq<BuildingDef>)
    requires
        civ.wf(),
    ensures
        after_production(civ, buildings).wf(),
{
    if civ.recruitments.len() == 1 {
        lemma_joined_len(civ.units, civ.recruitments[0].id_unit, civ.recruitments[0].amount);
    }
}

/// A battle leaves every civilization within its capacity, with at most one
/// construction and one recruitment in progress.
pub proof fn law_battle_keeps_capacity(civs: Seq<CivState>, defs: Seq<UnitDef>, t: Travel)
    requires
        t.attacker < civs.len(),
        t.defender < civs.len(),
        forall|i: int| 0 <= i < civs.len() ==> (#[trigger] civs[i]).wf(),
    ensures
        after_battle(civs, defs, t).len() == civs.len(),
        forall|i: int| 0 <= i < civs.len() ==> (#[trigger] after_battle(civs, defs, t)[i]).wf(),
{
    lemma_thinned(civs[t.defender as int].units, (t.amount / 2) as nat);
}

/// An order that is accepted never leaves the balance below zero, and an
/// order that nothing else refuses is refused when the balance does not
/// cover the cost.
pub proof fn law_orders_never_overdraw(
    civ: CivState,
    buildings: Seq<BuildingDef>,
    units: Seq<UnitDef>,
    name: Seq<char>,
)
    ensures
        match construction_ordered(civ, buildings, name) {
            Ok(after) => 0 <= after.balance <= civ.balance,
            Err(_) => true,
        },
        match recruitment_ordered(civ, buildings, units, name) {
            Ok(after) => 0 <= after.balance <= civ.balance,
            Err(_) => true,
        },
        civ.balance < 0 ==> construction_ordered(civ, buildings, name) is Err && recruitment_ordered(
            civ,
            buildings,
            units,
            name,
        ) is Err,
{
}

/// The marches among the first `k` of `travels` that go on after one more
/// turn: those with more than one turn to go.
pub open spec fn going_on(travels: Seq<Travel>, k: int) -> nat
    decreases k,
{
    if k <= 0 {
        0
    } else {
        going_on(travels, k - 1) + if travels[k - 1].remaining >= 2 {
            1nat
        } else {
            0nat
        }
    }
}

proof fn lemma_going_on_shift(travels: Seq<Travel>, k: int)
    requires
        1 <= k <= travels.len(),
    ensures
        going_on(travels, k) == going_on(travels.drop_first(), k - 1) + if travels[0].remaining >= 2 {
            1nat
        } else {
            0nat
        },
    decreases k,
{
    if k == 1 {
        assert(going_on(travels, 0) == 0);
        assert(going_on(travels.drop_first(), 0) == 0);
    } else {
        lemma_going_on_shift(travels, k - 1);
        assert(travels.drop_first()[k - 2] == travels[k - 1]);
    }
}

/// Each turn a march has exactly one turn less to go; with one turn to go
/// it arrives and is gone from the list that very turn. The marches that go
/// on keep their order.
pub proof fn law_march_counts_down(travels: Seq<Travel>, i: int)
    requires
        0 <= i < travels.len(),
        forall|k: int| 0 <= k < travels.len() ==> (#[trigger] travels[k]).remaining >= 1,
    ensures
        ticked(travels[i].remaining) == travels[i].remaining - 1,
        marching_on(travels).len() == going_on(travels, travels.len() as int),
        going_on(travels, i) <= going_on(travels, travels.len() as int),
        travels[i].remaining >= 2 ==> going_on(travels, i) < marching_on(travels).len()
            && marching_on(travels)[going_on(travels, i) as int] == (Travel {
            remaining: (travels[i].remaining - 1) as u32,
            ..travels[i]
        }),
    decreases travels.len(),
{
    let rest = travels.drop_first();
    assert forall|k: int| 0 <= k < rest.len() implies (#[trigger] rest[k]).remaining >= 1 by {
        assert(rest[k] == travels[k + 1]);
    }
    lemma_marching_len(travels);
    lemma_going_on_monotone(travels, i, travels.len() as int);
    if i > 0 {
        law_march_counts_down(rest, i - 1);
        lemma_going_on_shift(travels, i);
        lemma_going_on_shift(travels, travels.len() as int);
        assert(rest[i - 1] == travels[i]);
    } else {
        assert(going_on(travels, 0) == 0);
    }
}

proof fn lemma_marching_len(travels: Seq<Travel>)
    requires
        forall|k: int| 0 <= k < travels.len() ==> (#[trigger] travels[k]).remaining >= 1,
    ensures
        marching_on(travels).len() == going_on(travels, travels.len() as int),
    decreases travels.len(),
{
    if travels.len() == 0 {
        assert(going_on(travels, 0) == 0);
    } else {
        let rest = travels.drop_first();
        assert forall|k: int| 0 <= k < rest.len() implies (#[trigger] rest[k]).remaining >= 1 by {
            assert(rest[k] == travels[k + 1]);
        }
        lemma_marching_len(rest);
        lemma_going_on_shift(travels, travels.len() as int);
    }
}

proof fn lemma_going_on_monotone(travels: Seq<Travel>, i: int, k: int)
    requires
        0 <= i <= k,
    ensures
        going_on(travels, i) <= going_on(travels, k),
    decreases k - i,
{
    if i < k {
        lemma_going_on_monotone(travels, i, k - 1);
    }
}

/// The outcome of a battle. An army stronger than the defence eliminates
/// the defender, who is left without units. Otherwise the defender stays
/// alive and loses half as many units as arrived, rounded down, taken from
/// the smallest stacks first, provided the defender has that many. Either
/// way the attacker gets nothing back.
pub proof fn law_battle_outcome(civs: Seq<CivState>, defs: Seq<UnitDef>, t: Travel)
    requires
        t.attacker < civs.len(),
        t.defender < civs.len(),
        t.attacker != t.defender,
        fought(civs, t),
    ensures
        after_battle(civs, defs, t)[t.attacker as int] == civs[t.attacker as int],
        overwhelms(civs, defs, t) ==> !after_battle(civs, defs, t)[t.defender as int].alive
            && after_battle(civs, defs, t)[t.defender as int].units.len() == 0,
        !overwhelms(civs, defs, t) ==> after_battle(civs, defs, t)[t.defender as int].alive
            && after_battle(civs, defs, t)[t.defender as int].units == thinned(
            civs[t.defender as int].units,
            (t.amount / 2) as nat,
        ),
        !overwhelms(civs, defs, t) && t.amount / 2 <= headcount(civs[t.defender as int].units)
            ==> headcount(after_battle(civs, defs, t)[t.defender as int].units) == headcount(
            civs[t.defender as int].units,
        ) - t.amount / 2,
{
    lemma_thinned(civs[t.defender as int].units, (t.amount / 2) as nat);
}

/// A civilization that no arriving army marches against is after the
/// arrivals what it was before: an attacker gets nothing back from the
/// army it sent, whether that army wins or fails.
pub proof fn law_arrivals_spare_who_is_not_attacked(
    civs: Seq<CivState>,
    defs: Seq<UnitDef>,
    travels: Seq<Travel>,
    civ: int,
)
    requires
        0 <= civ < civs.len(),
        forall|i: int|
            0 <= i < travels.len() ==> (#[trigger] travels[i]).attacker < civs.len()
                && travels[i].defender < civs.len(),
        forall|i: int|
            0 <= i < travels.len() && ticked((#[trigger] travels[i]).remaining) == 0
                ==> travels[i].defender != civ,
    ensures
        after_arrivals(civs, defs, travels).len() == civs.len(),
        after_arrivals(civs, defs, travels)[civ] == civs[civ],
    decreases travels.len(),
{
    if travels.len() > 0 {
        let t = travels.last();
        let rest = travels.drop_last();
        assert(t == travels[travels.len() - 1]);
        let next = if ticked(t.remaining) == 0 {
            after_battle(civs, defs, t)
        } else {
            civs
        };
        assert forall|i: int| 0 <= i < rest.len() implies (#[trigger] rest[i]).attacker < next.len()
            && rest[i].defender < next.len() by {
            assert(rest[i] == travels[i]);
        }
        assert forall|i: int| 0 <= i < rest.len() && ticked((#[trigger] rest[i]).remaining) == 0
            implies rest[i].defender != civ by {
            assert(rest[i] == travels[i]);
        }
        law_arrivals_spare_who_is_not_attacked(next, defs, rest, civ);
    }
}

/// The game-over latch is set exactly when at most one civilization is
/// alive, and once set it stays set.
pub proof fn law_latch(game_over: bool, civs: Seq<CivState>)
    ensures
        game_over ==> latched(game_over, civs),
        !game_over ==> (latched(game_over, civs) <==> alive_count(civs) <= 1),
        latched(latched(game_over, civs), civs) == latched(game_over, civs),
{
}

impl GameState {
    /// True when this state is a later state of the game that `before`
    /// belongs to: the same players in the same cities, the same setting
    /// and screen, and a game that is still over, with the same winner, if
    /// it was over.
    pub open spec fn continues(&self, before: &GameState) -> bool {
        &&& self.same_players(before)
        &&& self.same_setting(before)
        &&& self.same_screen(before)
        &&& before.game_over ==> self.game_over && self.winner == before.winner
    }

    /// Every state continues itself, and continuing carries over.
    pub proof fn lemma_continues_chain(&self, middle: &GameState, before: &GameState)
        requires
            self.continues(middle),
            middle.continues(before),
        ensures
            self.continues(before),
            before.continues(before),
    {
        assert forall|i: int| 0 <= i < self.civilizations@.len() implies (
        #[trigger] self.civilizations@[i]).same_identity(&before.civilizations@[i]) by {
            assert(self.civilizations@[i].same_identity(&middle.civilizations@[i]));
            assert(middle.civilizations@[i].same_identity(&before.civilizations@[i]));
        }
    }

    /// The end of a turn leaves players, setting and screen alone, and a
    /// game that was over stays over with the same winner.
    pub proof fn lemma_turn_end_continues(&self, before: &GameState)
        requires
            self.turn_ended(before),
        ensures
            self.continues(before),
    {
        let mid = before.rotated();
        assert forall|i: int| 0 <= i < self.civilizations@.len() implies (
        #[trigger] self.civilizations@[i]).same_identity(&before.civilizations@[i]) by {
            assert(self.civilizations@[i].same_identity(&mid.civilizations@[i]));
        }
    }

    /// A command leaves players, setting and screen alone, and a game that
    /// was over stays over with the same winner.
    pub proof fn lemma_command_continues(
        &self,
        before: &GameState,
        line: Seq<char>,
        words: Seq<Seq<char>>,
        opened: bool,
    )
        requires
            self.command_applied(before, line, words, opened),
        ensures
            self.continues(before),
    {
        let cleared = before.with_line(self.action_input, false);
        if words.len() == 0 {
        } else if before.game_over {
        } else if crate::actions::is_end(words) {
            self.lemma_turn_end_continues(&cleared);
            self.lemma_continues_chain(&cleared, before);
        } else {
            self.lemma_continues_chain(&cleared, before);
        }
    }

    /// Submitting a popup leaves players, setting and screen alone, and a
    /// game that was over stays over with the same winner.
    pub proof fn lemma_popup_continues(&self, before: &GameState)
        requires
            self.popup_submitted(before),
        ensures
            self.continues(before),
    {
    }
}

} // verus!
