//! Statistics over the player, match and rating-history records of a
//! gaming community: roster membership, same-team win rates, combined
//! player profiles and the rating leaderboard.

pub mod leaderboard;
pub mod lookup;
pub mod matches;
pub mod ordering;
pub mod player_elo;
pub mod players;
pub mod profile;
pub mod roster;
pub mod text;
