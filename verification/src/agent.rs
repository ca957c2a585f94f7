//! The bridge to a slow decision service that plays for a civilization.
//!
//! The service is asked in text and answers in text, on a worker of its
//! own; the caller waits for the answer only so long. This module holds
//! what is decided on either side of that wait: what the service is asked,
//! and what stands in for an answer that is missing or late.

use crate::game::{AiPlayerView, AiView};
use crate::state::Popup;
use crate::text::{decimal, decimal_text, signed_decimal, signed_decimal_text, texts, trimmed, trimmed_of};
use vstd::prelude::*;
use vstd::string::StringExecFns;

verus! {

/// The seconds that a caller waits for the service to answer.
pub const RESPONSE_TIMEOUT_SECS: u64 = 10;

/// The command that stands in for a missing answer: it ends the turn.
pub open spec fn safe_action() -> Seq<char> {
    "end"@
}

/// What the caller takes for the service's command. `response` is `None`
/// when the request could not be sent or no answer came in time; then the
/// turn ends. An answer is taken as it is.
pub fn action_or_default(response: Option<Option<String>>) -> (r: Option<String>)
    ensures
        match response {
            Some(answer) => r == answer,
            None => r matches Some(s) && s@ == safe_action(),
        },
{
    match response {
        Some(answer) => answer,
        None => Some(String::from_str("end")),
    }
}

/// What the caller takes for the service's popup input. `response` is
/// `None` when the request could not be sent or no answer came in time;
/// then the input is empty. An answer is taken as it is.
pub fn popup_input_or_default(response: Option<String>) -> (r: String)
    ensures
        match response {
            Some(answer) => r == answer,
            None => r@ == Seq::<char>::empty(),
        },
{
    match response {
        Some(answer) => answer,
        None => String::new(),
    }
}

/// What the worker answers to a request for a command, given what the
/// service said: that, or `end` if it said nothing.
pub fn reply_action(said: Option<String>) -> (r: Option<String>)
    ensures
        match said {
            Some(text) => r == Some(text),
            None => r matches Some(s) && s@ == safe_action(),
        },
{
    match said {
        Some(text) => Some(text),
        None => Some(String::from_str("end")),
    }
}

/// What the worker answers to a request for popup input, given what the
/// service said: that, or nothing if it said nothing.
pub fn reply_popup_input(said: Option<String>) -> (r: String)
    ensures
        match said {
            Some(text) => r == text,
            None => r@ == Seq::<char>::empty(),
        },
{
    match said {
        Some(text) => text,
        None => String::new(),
    }
}

/// The content of a message of the service, without the whitespace around
/// it.
pub fn clean_reply(content: Option<String>) -> (r: Option<String>)
    ensures
        match content {
            Some(text) => r matches Some(s) && s@ == trimmed_of(text@),
            None => r is None,
        },
{
    match content {
        Some(text) => Some(String::from_str(trimmed(text.as_str()))),
        None => None,
    }
}

/// One line per name: a dash, the name, a line feed.
pub open spec fn bullet_lines(names: Seq<Seq<char>>) -> Seq<char>
    decreases names.len(),
{
    if names.len() == 0 {
        Seq::empty()
    } else {
        bullet_lines(names.drop_last()) + "- "@ + names.last() + "\n"@
    }
}

/// The line that describes one player.
pub open spec fn player_line(p: AiPlayerView) -> Seq<char> {
    "- "@ + p.name@ + ": resources="@ + signed_decimal_text(p.resources as int) + " buildings="@
        + decimal_text(p.buildings as nat) + " units="@ + decimal_text(p.units as nat) + "\n"@
}

/// The lines that describe the players.
pub open spec fn player_lines(players: Seq<AiPlayerView>) -> Seq<char>
    decreases players.len(),
{
    if players.len() == 0 {
        Seq::empty()
    } else {
        player_lines(players.drop_last()) + player_line(players.last())
    }
}

/// One line per choice: its number counted from one, a colon, the choice.
pub open spec fn numbered_lines(choices: Seq<Seq<char>>) -> Seq<char>
    decreases choices.len(),
{
    if choices.len() == 0 {
        Seq::empty()
    } else {
        numbered_lines(choices.drop_last()) + decimal_text(choices.len()) + ": "@ + choices.last()
            + "\n"@
    }
}

/// What the service is asked when a command is wanted.
pub open spec fn action_prompt_text(view: &AiView, civ_index: usize) -> Seq<char> {
    "Turn: "@ + signed_decimal_text(view.turn as int) + "\nPlayer index: "@ + decimal_text(
        civ_index as nat,
    ) + "\nPlayers:\n"@ + player_lines(view.players@) + "Possible buildings:\n"@ + bullet_lines(
        texts(view.buildings@),
    ) + "Possible units:\n"@ + bullet_lines(texts(view.units@))
        + "\nChoose one action (exactly as the action string, e.g. 'end' or 'build Farm' or 'hire Warrior' or 'attack playername'):\n"@
}

/// What the service is asked when a popup wants input.
pub open spec fn popup_prompt_text(civ_index: usize, popup: &Popup) -> Seq<char> {
    "Popup for player "@ + decimal_text(civ_index as nat) + ": "@ + popup.kind.spec_title()
        + "\nPrompt: "@ + popup.prompt@ + "\nChoices:\n"@ + numbered_lines(texts(popup.choices@))
        + "Provide the input to select (either the 1-based index or the choice text):\n"@
}

fn append_bullets(out: &mut String, names: &Vec<String>)
    ensures
        final(out)@ == old(out)@ + bullet_lines(texts(names@)),
{
    let ghost start = out@;
    let ghost all = texts(names@);
    let mut k: usize = 0;
    assert(out@ =~= start + bullet_lines(all.subrange(0, 0)));
    while k < names.len()
        invariant
            k <= names@.len(),
            all == texts(names@),
            out@ == start + bullet_lines(all.subrange(0, k as int)),
        decreases names@.len() - k,
    {
        proof {
            assert(all.subrange(0, k as int + 1).drop_last() =~= all.subrange(0, k as int));
            assert(all.subrange(0, k as int + 1).last() == names@[k as int]@);
        }
        let ghost before = out@;
        out.append("- ");
        out.append(names[k].as_str());
        out.append("\n");
        assert(out@ =~= start + bullet_lines(all.subrange(0, k as int + 1)));
        k = k + 1;
    }
    assert(all.subrange(0, k as int) =~= all);
}

fn append_players(out: &mut String, players: &Vec<AiPlayerView>)
    ensures
        final(out)@ == old(out)@ + player_lines(players@),
{
    let ghost start = out@;
    let mut k: usize = 0;
    assert(out@ =~= start + player_lines(players@.subrange(0, 0)));
    while k < players.len()
        invariant
            k <= players@.len(),
            out@ == start + player_lines(players@.subrange(0, k as int)),
        decreases players@.len() - k,
    {
        proof {
            assert(players@.subrange(0, k as int + 1).drop_last() =~= players@.subrange(0, k as int));
        }
        let p = &players[k];
        out.append("- ");
        out.append(p.name.as_str());
        out.append(": resources=");
        out.append(signed_decimal(p.resources as i64).as_str());
        out.append(" buildings=");
        out.append(decimal(p.buildings as u64).as_str());
        out.append(" units=");
        out.append(decimal(p.units as u64).as_str());
        out.append("\n");
        assert(out@ =~= start + player_lines(players@.subrange(0, k as int + 1)));
        k = k + 1;
    }
    assert(players@.subrange(0, k as int) =~= players@);
}

fn append_numbered(out: &mut String, choices: &Vec<String>)
    ensures
        final(out)@ == old(out)@ + numbered_lines(texts(choices@)),
{
    let ghost start = out@;
    let ghost all = texts(choices@);
    let mut k: usize = 0;
    assert(out@ =~= start + numbered_lines(all.subrange(0, 0)));
    while k < choices.len()
        invariant
            k <= choices@.len(),
            all == texts(choices@),
            out@ == start + numbered_lines(all.subrange(0, k as int)),
        decreases choices@.len() - k,
    {
        proof {
            assert(all.subrange(0, k as int + 1).drop_last() =~= all.subrange(0, k as int));
            assert(all.subrange(0, k as int + 1).last() == choices@[k as int]@);
        }
        out.append(decimal(k as u64 + 1).as_str());
        out.append(": ");
        out.append(choices[k].as_str());
        out.append("\n");
        assert(out@ =~= start + numbered_lines(all.subrange(0, k as int + 1)));
        k = k + 1;
    }
    assert(all.subrange(0, k as int) =~= all);
}

/// Writes what the service is asked when a command is wanted.
pub fn action_prompt(view: &AiView, civ_index: usize) -> (r: String)
    ensures
        r@ == action_prompt_text(view, civ_index),
{
    let mut out = String::from_str("Turn: ");
    out.append(signed_decimal(view.turn as i64).as_str());
    out.append("\nPlayer index: ");
    out.append(decimal(civ_index as u64).as_str());
    out.append("\nPlayers:\n");
    append_players(&mut out, &view.players);
    out.append("Possible buildings:\n");
    append_bullets(&mut out, &view.buildings);
    out.append("Possible units:\n");
    append_bullets(&mut out, &view.units);
    out.append(
        "\nChoose one action (exactly as the action string, e.g. 'end' or 'build Farm' or 'hire Warrior' or 'attack playername'):\n",
    );
    assert(out@ =~= action_prompt_text(view, civ_index));
    out
}

/// Writes what the service is asked when a popup wants input.
pub fn popup_prompt(civ_index: usize, popup: &Popup) -> (r: String)
    ensures
        r@ == popup_prompt_text(civ_index, popup),
{
    let mut out = String::from_str("Popup for player ");
    out.append(decimal(civ_index as u64).as_str());
    out.append(": ");
    out.append(popup.title());
    out.append("\nPrompt: ");
    out.append(popup.prompt.as_str());
    out.append("\nChoices:\n");
    append_numbered(&mut out, &popup.choices);
    out.append("Provide the input to select (either the 1-based index or the choice text):\n");
    assert(out@ =~= popup_prompt_text(civ_index, popup));
    out
}

} // verus!
