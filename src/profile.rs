use vstd::prelude::*;
use crate::lookup::{is_first, none_satisfy, LookupError};
use crate::ordering::{arranged, is_order_of};
use crate::player_elo;
use crate::players;

verus! {

/// A player with the matches they played and their rating history.
#[derive(Clone, Debug, PartialEq, Eq)]
pub struct PlayerCombinedData {
    pub player: players::Model,
    /// Newest first.
    pub matches: Vec<crate::matches::Model>,
    /// Oldest first.
    pub elo_history: Vec<player_elo::Model>,
}

/// `d` is the profile of the player at position `i`, looked up by `name`:
/// the player record, every match whose rosters name the player's external
/// identifier (newest first), and every snapshot taken under `name`
/// (oldest first).
pub open spec fn profiles(
    d: PlayerCombinedData,
    players: Seq<players::Model>,
    ms: Seq<crate::matches::Model>,
    history: Seq<player_elo::Model>,
    name: Seq<char>,
    i: int,
) -> bool {
    &&& d.player == players[i]
    &&& arranged(d.matches@, ms, crate::matches::newest_first_keys(ms), crate::matches::played_in(ms, players[i].discord_id))
    &&& arranged(d.elo_history@, history, player_elo::oldest_first_keys(history), player_elo::named_snapshots(history, name))
}

/// A player whose identifier no roster names and under whose name no
/// snapshot was taken has a profile with no matches and no history: the
/// player record alone, not an error.
pub proof fn lemma_profile_without_history(
    d: PlayerCombinedData,
    players: Seq<players::Model>,
    ms: Seq<crate::matches::Model>,
    history: Seq<player_elo::Model>,
    name: Seq<char>,
    i: int,
)
    requires
        0 <= i < players.len(),
        profiles(d, players, ms, history, name, i),
        forall|k: int| 0 <= k < ms.len() ==> !#[trigger] crate::matches::played_in(ms, players[i].discord_id)[k],
        forall|k: int| 0 <= k < history.len() ==> !#[trigger] player_elo::named_snapshots(history, name)[k],
    ensures
        d.player == players[i],
        d.matches@.len() == 0,
        d.elo_history@.len() == 0,
{
    let mkeys = crate::matches::newest_first_keys(ms);
    let mchosen = crate::matches::played_in(ms, players[i].discord_id);
    let om = choose|order: Seq<usize>|
        #![trigger is_order_of(order, mkeys, mchosen)]
        is_order_of(order, mkeys, mchosen) && d.matches@ == order.map_values(|j: usize| ms[j as int]);
    if om.len() > 0 {
        assert(mchosen[om[0] as int]);
    }
    let hkeys = player_elo::oldest_first_keys(history);
    let hchosen = player_elo::named_snapshots(history, name);
    let oh = choose|order: Seq<usize>|
        #![trigger is_order_of(order, hkeys, hchosen)]
        is_order_of(order, hkeys, hchosen) && d.elo_history@ == order.map_values(|j: usize| history[j as int]);
    if oh.len() > 0 {
        assert(hchosen[oh[0] as int]);
    }
}

/// The profile of the player named `name` (letter case aside; the first
/// such record), or `NotFound` when no player has that name. A player with
/// no matches and no snapshots has an empty list of each.
pub fn get_player_combined_data(
    players: &Vec<players::Model>,
    ms: &Vec<crate::matches::Model>,
    history: &Vec<player_elo::Model>,
    name: &str,
) -> (r: Result<PlayerCombinedData, LookupError>)
    ensures
        match r {
            Ok(d) => exists|i: int|
                #![trigger players@[i]]
                is_first(players@, players::named(name@), i) && profiles(d, players@, ms@, history@, name@, i),
            Err(e) => e == LookupError::NotFound && none_satisfy(players@, players::named(name@)),
        },
{
    match players::position_by_name(players, name, false) {
        Some(i) => {
            let player = players[i].copy();
            let played = crate::matches::history_of(ms, &players[i].discord_id);
            let elo_history = player_elo::get_player_elo_by_player_name(history, name);
            let d = PlayerCombinedData { player, matches: played, elo_history };
            assert(profiles(d, players@, ms@, history@, name@, i as int));
            Ok(d)
        },
        None => Err(LookupError::NotFound),
    }
}

} // verus!
