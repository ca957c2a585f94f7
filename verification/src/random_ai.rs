//! An agent that plays at random: it picks any of the commands that make
//! sense, and any of the choices of a popup.

use crate::game::{action_list, possible_actions, Ai, AiPlayerView, AiView};
use crate::state::Popup;
use crate::text::{decimal, decimal_text, texts};
use rand::rngs::SmallRng;
use rand::{Rng, SeedableRng};
use vstd::prelude::*;

verus! {

/// Trusted: the type `rand::rngs::SmallRng`, a small fast generator. It is
/// carried around and handed to the calls below; nothing inside it is seen.
#[verifier::external_type_specification]
#[verifier::external_body]
pub struct ExSmallRng(SmallRng);

/// Trusted: `rand::random::<u64>`. A number from the thread-local
/// generator; nothing is claimed of it.
#[verifier::external_body]
fn random_seed() -> u64 {
    rand::random::<u64>()
}

/// Trusted: `SeedableRng::seed_from_u64` of `SmallRng`. A generator made
/// from the seed; nothing is claimed of it.
#[verifier::external_body]
fn seeded(seed: u64) -> SmallRng {
    SmallRng::seed_from_u64(seed)
}

/// Trusted: `Rng::random_range` on the range `0..n`. The call panics on an
/// empty range, which `n > 0` excludes; whatever number comes out lies in
/// the range.
#[verifier::external_body]
fn random_below(rng: &mut SmallRng, n: usize) -> (i: usize)
    requires
        n > 0,
    ensures
        i < n,
{
    rng.random_range(0..n)
}

/// A very small agent that plays at random.
pub struct RandomAi {
    rng: SmallRng,
}

/// The names that a snapshot shows of the players.
pub open spec fn player_names(players: Seq<AiPlayerView>) -> Seq<Seq<char>> {
    Seq::new(players.len(), |i: int| players[i].name@)
}

fn names_of_players(players: &Vec<AiPlayerView>) -> (r: Vec<String>)
    ensures
        texts(r@) == player_names(players@),
{
    let mut r: Vec<String> = Vec::new();
    let mut k: usize = 0;
    while k < players.len()
        invariant
            k <= players@.len(),
            r@.len() == k,
            forall|i: int| 0 <= i < k ==> (#[trigger] r@[i])@ == players@[i].name@,
        decreases players@.len() - k,
    {
        r.push(players[k].name.clone());
        k = k + 1;
    }
    assert(texts(r@) =~= player_names(players@));
    r
}

/// The commands that an agent may pick from, given what it sees.
pub open spec fn candidates(view: &AiView, civ_index: usize) -> Seq<Seq<char>> {
    action_list(texts(view.buildings@), texts(view.units@), player_names(view.players@), civ_index as int)
}

/// The command at place `pick` of the commands that make sense for the
/// civilization `civ_index`.
pub fn pick_action(view: &AiView, civ_index: usize, pick: usize) -> (r: String)
    requires
        pick < candidates(view, civ_index).len(),
    ensures
        r@ == candidates(view, civ_index)[pick as int],
{
    let names = names_of_players(&view.players);
    let mut actions = possible_actions(&view.buildings, &view.units, &names, civ_index);
    assert(texts(actions@).len() == actions@.len());
    assert(texts(actions@)[pick as int] == actions@[pick as int]@);
    actions.swap_remove(pick)
}

/// The number of commands that make sense for the civilization
/// `civ_index`. There is always at least `end`.
pub fn count_actions(view: &AiView, civ_index: usize) -> (n: usize)
    ensures
        n == candidates(view, civ_index).len(),
        n >= 1,
{
    let names = names_of_players(&view.players);
    let actions = possible_actions(&view.buildings, &view.units, &names, civ_index);
    assert(texts(actions@).len() == actions@.len());
    actions.len()
}

/// The input that takes the choice at place `pick` of a popup: its number,
/// counted from one. A popup without choices gets an empty input.
pub open spec fn choice_input(popup: &Popup, pick: usize) -> Seq<char> {
    if popup.choices@.len() == 0 {
        Seq::empty()
    } else {
        decimal_text((pick + 1) as nat)
    }
}

/// Writes the input that takes the choice at place `pick` of a popup.
pub fn pick_popup_input(popup: &Popup, pick: usize) -> (r: String)
    requires
        popup.choices@.len() == 0 || pick < popup.choices@.len(),
    ensures
        r@ == choice_input(popup, pick),
{
    if popup.choices.len() == 0 {
        String::new()
    } else {
        decimal(pick as u64 + 1)
    }
}

impl RandomAi {
    /// An agent with a generator seeded at random.
    pub fn new() -> RandomAi {
        RandomAi { rng: seeded(random_seed()) }
    }
}

impl Ai for RandomAi {
    /// Picks one of the commands that make sense, whichever the generator
    /// points at.
    fn select_action(&mut self, view: &AiView, civ_index: usize) -> (r: Option<String>)
        ensures
            r matches Some(action) && candidates(view, civ_index).contains(action@),
    {
        let n = count_actions(view, civ_index);
        let pick = random_below(&mut self.rng, n);
        Some(pick_action(view, civ_index, pick))
    }

    /// Picks one of the choices of the popup by its number, whichever the
    /// generator points at.
    fn select_popup_input(&mut self, view: &AiView, civ_index: usize, popup: &Popup) -> (r: String)
        ensures
            popup.choices@.len() == 0 ==> r@ == Seq::<char>::empty(),
            popup.choices@.len() > 0 ==> exists|pick: usize|
                pick < popup.choices@.len() && r@ == #[trigger] choice_input(popup, pick),
    {
        if popup.choices.len() == 0 {
            pick_popup_input(popup, 0)
        } else {
            let pick = random_below(&mut self.rng, popup.choices.len());
            pick_popup_input(popup, pick)
        }
    }
}

} // verus!
