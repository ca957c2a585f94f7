//! The turn: what its start brings, how the win is checked, and how the
//! active player moves on.

use crate::combat::{city_names, report_text};
use crate::rules::{
    after_arrivals, after_production, alive_count, first_alive, last_battle, latched, marching_on,
};
use crate::state::{states, CivState, GameState, PopupKind};
use crate::text::join2;
use vstd::prelude::*;
use vstd::string::StringExecFns;

verus! {

/// What the game-over popup says: the name of the first civilization that
/// is alive, or that nobody won.
pub open spec fn victory_text(names: Seq<Seq<char>>, civs: Seq<CivState>) -> Seq<char> {
    match first_alive(civs) {
        Some(i) => "Winner: "@ + names[i],
        None => "No winners"@,
    }
}

/// The player whose turn follows that of `player`, among `count` players.
pub open spec fn next_player(player: usize, count: nat) -> usize {
    ((player + 1) % (count as int)) as usize
}

/// The turn counter once `player` has become active: one more when the
/// round starts again with the first player, unless the counter is at its
/// largest value.
pub open spec fn next_turn(turn: i32, player: usize) -> i32 {
    if player == 0 && turn < i32::MAX {
        (turn + 1) as i32
    } else {
        turn
    }
}

impl GameState {
    /// Counts the civilizations alive and finds the first of them.
    fn survey(&self) -> (r: (usize, Option<usize>))
        ensures
            r.0 == alive_count(states(self.civilizations@)),
            match r.1 {
                Some(i) => first_alive(states(self.civilizations@)) == Some(i as int)
                    && i < self.civilizations@.len(),
                None => first_alive(states(self.civilizations@)) is None,
            },
    {
        let ghost all = states(self.civilizations@);
        let mut count: usize = 0;
        let mut first: Option<usize> = None;
        let mut k: usize = 0;
        while k < self.civilizations.len()
            invariant
                k <= self.civilizations@.len(),
                all == states(self.civilizations@),
                count == alive_count(all.subrange(0, k as int)),
                count <= k,
                match first {
                    Some(i) => first_alive(all.subrange(0, k as int)) == Some(i as int) && i < k,
                    None => first_alive(all.subrange(0, k as int)) is None,
                },
            decreases self.civilizations@.len() - k,
        {
            proof {
                assert(all.subrange(0, k as int + 1).drop_last() =~= all.subrange(0, k as int));
                assert(all.subrange(0, k as int + 1).last() == self.civilizations@[k as int].state());
            }
            if self.civilizations[k].alive {
                count = count + 1;
                if first.is_none() {
                    first = Some(k);
                }
            }
            k = k + 1;
        }
        assert(all.subrange(0, k as int) =~= all);
        (count, first)
    }

    /// The win check: when at most one civilization is alive and the game
    /// was not over, the game is over from now on, the winner is recorded
    /// and a popup announces it. Otherwise nothing changes.
    pub fn check_victory(&mut self)
        ensures
            final(self).game_over == latched(old(self).game_over, states(old(self).civilizations@)),
            if !old(self).game_over && final(self).game_over {
                &&& match final(self).winner {
                    Some(w) => first_alive(states(old(self).civilizations@)) == Some(w as int),
                    None => first_alive(states(old(self).civilizations@)) is None,
                }
                &&& final(self).popup matches Some(p) && p.shows(
                    PopupKind::GameOver,
                    victory_text(
                        city_names(old(self).civilizations@),
                        states(old(self).civilizations@),
                    ),
                    Seq::empty(),
                )
                &&& *final(self) == (GameState {
                    game_over: true,
                    winner: final(self).winner,
                    popup: final(self).popup,
                    action_editing: false,
                    ..*old(self)
                })
            } else {
                *final(self) == *old(self)
            },
    {
        let (alive, first) = self.survey();
        if alive <= 1 && !self.game_over {
            self.game_over = true;
            self.winner = first;
            let text = match first {
                Some(i) => join2("Winner: ", self.civilizations[i].city.name.as_str()),
                None => String::from_str("No winners"),
            };
            proof {
                match first {
                    Some(i) => {
                        assert(city_names(self.civilizations@)[i as int]
                            == self.civilizations@[i as int].city.name@);
                    },
                    None => {},
                }
            }
            self.open_popup(PopupKind::GameOver, text.as_str(), Vec::new());
            proof {
                let p = self.popup->Some_0;
                assert(crate::text::texts(p.choices@) =~= Seq::<Seq<char>>::empty());
            }
        }
    }

    /// What the start of the turn of `player` makes of the state `before`.
    ///
    /// The civilizations are those that production and then the arrivals
    /// leave; the marches are those that go on. The game is over if it was,
    /// or if at most one civilization is left alive; when it becomes so, the
    /// first civilization alive is recorded as the winner and a popup
    /// announces it. Otherwise the popup reports the last battle fought, if
    /// any, and nothing else about the dialog has changed.
    pub open spec fn turn_started(&self, before: &GameState, player: usize) -> bool {
        let names = city_names(before.civilizations@);
        let produced = states(before.civilizations@).update(
            player as int,
            after_production(before.civilizations@[player as int].state(), before.buildings@),
        );
        let end = after_arrivals(produced, before.units@, before.travels@);
        &&& states(self.civilizations@) == end
        &&& self.travels@ == marching_on(before.travels@)
        &&& self.game_over == latched(before.game_over, end)
        &&& if !before.game_over && self.game_over {
            &&& match self.winner {
                Some(w) => first_alive(end) == Some(w as int),
                None => first_alive(end) is None,
            }
            &&& !self.action_editing
            &&& self.popup matches Some(p) && p.shows(
                PopupKind::GameOver,
                victory_text(names, end),
                Seq::empty(),
            )
        } else {
            &&& self.winner == before.winner
            &&& match last_battle(produced, before.units@, before.travels@) {
                Some((then, t)) => {
                    &&& !self.action_editing
                    &&& self.popup matches Some(p) && p.shows(
                        PopupKind::Battle,
                        report_text(names, then, before.units@, t),
                        Seq::empty(),
                    )
                },
                None => self.same_dialog(before),
            }
        }
        &&& self.same_players(before)
        &&& self.same_setting(before)
        &&& self.same_screen(before)
        &&& self.same_clock(before)
        &&& self.action_input == before.action_input
    }

    /// The state with the next civilization active, and a new turn counted
    /// when the round starts again with the first.
    pub open spec fn rotated(&self) -> GameState {
        GameState {
            player_turn: next_player(self.player_turn, self.civilizations@.len()),
            turn: next_turn(self.turn, next_player(self.player_turn, self.civilizations@.len())),
            ..*self
        }
    }

    /// What the end of a turn makes of the state `before`: the next
    /// civilization becomes active and its turn starts.
    pub open spec fn turn_ended(&self, before: &GameState) -> bool {
        self.turn_started(&before.rotated(), before.rotated().player_turn)
    }

    /// The start of a civilization's turn: its production phase, then one
    /// more turn of marching for every army with the arrivals resolved, then
    /// the win check.
    pub fn on_turn_start(&mut self, player_index: usize)
        requires
            old(self).wf(),
            player_index < old(self).civilizations@.len(),
        ensures
            final(self).wf(),
            final(self).turn_started(old(self), player_index),
    {
        self.run_production(player_index);
        proof {
            let produced = states(old(self).civilizations@).update(
                player_index as int,
                after_production(
                    old(self).civilizations@[player_index as int].state(),
                    old(self).buildings@,
                ),
            );
            assert(states(self.civilizations@) =~= produced);
            assert(city_names(self.civilizations@) =~= city_names(old(self).civilizations@));
        }
        let ghost mid = *self;
        self.resolve_travels();
        proof {
            assert(city_names(self.civilizations@) =~= city_names(old(self).civilizations@)) by {
                assert forall|i: int| 0 <= i < self.civilizations@.len() implies city_names(
                    self.civilizations@,
                )[i] == city_names(old(self).civilizations@)[i] by {
                    assert(self.civilizations@[i].same_identity(&mid.civilizations@[i]));
                    assert(mid.civilizations@[i].same_identity(&old(self).civilizations@[i]));
                }
            }
        }
        let ghost fought = *self;
        self.check_victory();
        proof {
            assert forall|i: int| 0 <= i < self.civilizations@.len() implies (
            #[trigger] self.civilizations@[i]).same_identity(&old(self).civilizations@[i]) by {
                assert(fought.civilizations@[i].same_identity(&mid.civilizations@[i]));
                assert(mid.civilizations@[i].same_identity(&old(self).civilizations@[i]));
            }
        }
    }

    /// Makes the next civilization the active one, and counts a new turn
    /// when the round starts again with the first.
    pub fn rotate(&mut self)
        requires
            old(self).wf(),
        ensures
            final(self).wf(),
            *final(self) == old(self).rotated(),
    {
        let count = self.civilizations.len();
        self.player_turn = (self.player_turn + 1) % count;
        if self.player_turn == 0 && self.turn < 0x7fff_ffff {
            self.turn = self.turn + 1;
        }
    }

    /// Ends the turn of the active civilization: the next one becomes
    /// active, and its turn starts.
    pub fn end_turn(&mut self)
        requires
            old(self).wf(),
        ensures
            final(self).wf(),
            final(self).turn_ended(old(self)),
    {
        self.rotate();
        let player = self.player_turn;
        self.on_turn_start(player);
    }
}

} // verus!
