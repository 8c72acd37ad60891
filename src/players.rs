use vstd::prelude::*;
use crate::lookup::{first_or_not_found, is_first, none_satisfy, LookupError};
use crate::text::{copy_text, fold_case, fold_optional, folded_matches, has_name, lower_of, same_text};

verus! {

/// A player record. Times are microseconds since the Unix epoch.
#[derive(Clone, Debug, PartialEq, Eq)]
pub struct Model {
    pub id: u32,
    /// The chat-platform account identifier that rosters name.
    pub discord_id: Option<String>,
    pub created_at: i64,
    pub updated_at: i64,
    /// Set when the player was soft-deleted.
    pub deleted_at: Option<i64>,
    pub player_name: Option<String>,
    pub current_elo: Option<i32>,
    pub visual_rank_override: Option<String>,
    pub pug_wins: Option<i32>,
    pub pug_losses: Option<i32>,
    pub pug_draws: Option<i32>,
    pub dm_wins: Option<i32>,
    pub dm_losses: Option<i32>,
    pub achievements: Option<String>,
    pub dunce: Option<String>,
    pub steam_id: Option<String>,
}

impl Model {
    /// A player counts as deleted once its soft-delete time is set.
    pub open spec fn is_deleted(&self) -> bool {
        self.deleted_at is Some
    }

    /// A field-by-field copy.
    pub fn copy(&self) -> (r: Model)
        ensures
            r == *self,
    {
        Model {
            id: self.id,
            discord_id: copy_text(&self.discord_id),
            created_at: self.created_at,
            updated_at: self.updated_at,
            deleted_at: self.deleted_at,
            player_name: copy_text(&self.player_name),
            current_elo: self.current_elo,
            visual_rank_override: copy_text(&self.visual_rank_override),
            pug_wins: self.pug_wins,
            pug_losses: self.pug_losses,
            pug_draws: self.pug_draws,
            dm_wins: self.dm_wins,
            dm_losses: self.dm_losses,
            achievements: copy_text(&self.achievements),
            dunce: copy_text(&self.dunce),
            steam_id: copy_text(&self.steam_id),
        }
    }
}

/// The player is named `name`, letter case aside.
pub open spec fn named(name: Seq<char>) -> spec_fn(Model) -> bool {
    |p: Model| has_name(p.player_name, name)
}

/// The player is not deleted and is named `name`, letter case aside.
pub open spec fn named_active(name: Seq<char>) -> spec_fn(Model) -> bool {
    |p: Model| !p.is_deleted() && has_name(p.player_name, name)
}

/// The player's primary key is `id`.
pub open spec fn keyed(id: u32) -> spec_fn(Model) -> bool {
    |p: Model| p.id == id
}

/// The player's external identifier is `discord_id`.
pub open spec fn with_discord_id(discord_id: Seq<char>) -> spec_fn(Model) -> bool {
    |p: Model| p.discord_id is Some && p.discord_id->0@ == discord_id
}

/// The first position `i` with `eligible[i]` whose lowercased name
/// `folded[i]` is `query`.
pub fn first_folded_match(folded: &Vec<Option<String>>, eligible: &Vec<bool>, query: &String) -> (r:
    Option<usize>)
    requires
        folded.len() == eligible.len(),
    ensures
        match r {
            Some(i) => {
                &&& i < folded.len()
                &&& eligible[i as int] && folded[i as int] is Some && folded[i as int]->0@ == query@
                &&& forall|j: int|
                    0 <= j < i ==> !(eligible[j] && #[trigger] folded[j] is Some && folded[j]->0@
                        == query@)
            },
            None => forall|j: int|
                0 <= j < folded.len() ==> !(eligible[j] && #[trigger] folded[j] is Some
                    && folded[j]->0@ == query@),
        },
{
    let mut i: usize = 0;
    while i < folded.len()
        invariant
            i <= folded.len() == eligible.len(),
            forall|j: int|
                0 <= j < i ==> !(eligible[j] && #[trigger] folded[j] is Some && folded[j]->0@
                    == query@),
        decreases folded.len() - i,
    {
        if eligible[i] && folded_matches(&folded[i], query) {
            return Some(i);
        }
        i = i + 1;
    }
    None
}

/// The position of the first player named `name` (letter case aside), among
/// all players or, with `active_only`, among those not deleted.
pub fn position_by_name(players: &Vec<Model>, name: &str, active_only: bool) -> (r: Option<usize>)
    ensures
        ({
            let p = if active_only { named_active(name@) } else { named(name@) };
            match r {
                Some(i) => is_first(players@, p, i as int),
                None => none_satisfy(players@, p),
            }
        }),
{
    let query = fold_case(name);
    let mut folded: Vec<Option<String>> = Vec::new();
    let mut eligible: Vec<bool> = Vec::new();
    let mut k: usize = 0;
    while k < players.len()
        invariant
            k <= players.len(),
            folded.len() == k,
            eligible.len() == k,
            forall|j: int|
                0 <= j < k ==> {
                    &&& (#[trigger] folded[j] is Some <==> players[j].player_name is Some)
                    &&& folded[j] is Some ==> folded[j]->0@ == lower_of(players[j].player_name->0@)
                    &&& eligible[j] == (!active_only || !players[j].is_deleted())
                },
        decreases players.len() - k,
    {
        folded.push(fold_optional(&players[k].player_name));
        eligible.push(!active_only || players[k].deleted_at.is_none());
        k = k + 1;
    }
    let r = first_folded_match(&folded, &eligible, &query);
    let ghost p = if active_only { named_active(name@) } else { named(name@) };
    assert forall|j: int| 0 <= j < players.len() implies (p(#[trigger] players@[j]) <==> (eligible[j]
        && folded[j] is Some && folded[j]->0@ == query@)) by {
        assert(folded[j] is Some <==> players[j].player_name is Some);
    }
    r
}

/// The first player satisfying `p` among `players`, copied; `i` is where it
/// stands.
fn copy_found(players: &Vec<Model>, found: Option<usize>, p: Ghost<spec_fn(Model) -> bool>) -> (r: Result<
    Model,
    LookupError,
>)
    requires
        match found {
            Some(i) => is_first(players@, p@, i as int),
            None => none_satisfy(players@, p@),
        },
    ensures
        first_or_not_found(players@, p@, r),
{
    match found {
        Some(i) => Ok(players[i].copy()),
        None => Err(LookupError::NotFound),
    }
}

/// The player named `name`, letter case aside: the first such record, or
/// `NotFound`.
pub fn get_by_name(players: &Vec<Model>, name: &str) -> (r: Result<Model, LookupError>)
    ensures
        first_or_not_found(players@, named(name@), r),
{
    let found = position_by_name(players, name, false);
    copy_found(players, found, Ghost(named(name@)))
}

/// The player whose primary key is `id`, or `NotFound`.
pub fn get_one(players: &Vec<Model>, id: u32) -> (r: Result<Model, LookupError>)
    ensures
        first_or_not_found(players@, keyed(id), r),
{
    let mut i: usize = 0;
    while i < players.len()
        invariant
            i <= players.len(),
            forall|j: int| 0 <= j < i ==> !keyed(id)(#[trigger] players@[j]),
        decreases players.len() - i,
    {
        if players[i].id == id {
            return copy_found(players, Some(i), Ghost(keyed(id)));
        }
        i = i + 1;
    }
    Err(LookupError::NotFound)
}

/// The player whose external identifier is `discord_id`, or `NotFound`.
pub fn get_by_discord_id(players: &Vec<Model>, discord_id: &str) -> (r: Result<Model, LookupError>)
    ensures
        first_or_not_found(players@, with_discord_id(discord_id@), r),
{
    let mut i: usize = 0;
    while i < players.len()
        invariant
            i <= players.len(),
            forall|j: int| 0 <= j < i ==> !with_discord_id(discord_id@)(#[trigger] players@[j]),
        decreases players.len() - i,
    {
        let hit = match &players[i].discord_id {
            Some(d) => same_text(d.as_str(), discord_id),
            None => false,
        };
        if hit {
            return copy_found(players, Some(i), Ghost(with_discord_id(discord_id@)));
        }
        i = i + 1;
    }
    Err(LookupError::NotFound)
}

} // verus!
