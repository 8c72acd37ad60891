use vstd::prelude::*;
use crate::ordering::{arranged, is_order_of, sorted_positions};
use crate::text::{fold_case, lower_of, same_name, same_text};

verus! {

/// One rating snapshot: a player's rating after one match. Times are
/// microseconds since the Unix epoch.
#[derive(Clone, Debug, PartialEq, Eq)]
pub struct Model {
    pub created_at: i64,
    pub updated_at: i64,
    pub id: i32,
    pub entry_id: i32,
    pub match_id: i32,
    /// The player's name when the snapshot was taken.
    pub player_name: String,
    /// The rating after the match.
    pub player_elo: i32,
    pub discord_id: i64,
}

impl Model {
    /// A field-by-field copy.
    pub fn copy(&self) -> (r: Model)
        ensures
            r == *self,
    {
        Model {
            created_at: self.created_at,
            updated_at: self.updated_at,
            id: self.id,
            entry_id: self.entry_id,
            match_id: self.match_id,
            player_name: self.player_name.clone(),
            player_elo: self.player_elo,
            discord_id: self.discord_id,
        }
    }
}

/// Snapshots sort by creation time, oldest first.
pub open spec fn oldest_first_keys(h: Seq<Model>) -> Seq<(i128, i128)> {
    h.map_values(|e: Model| (e.created_at as i128, 0i128))
}

/// Which snapshots were taken under the name `name`, letter case aside.
pub open spec fn named_snapshots(h: Seq<Model>, name: Seq<char>) -> Seq<bool> {
    h.map_values(|e: Model| same_name(e.player_name@, name))
}

/// Which snapshots were taken under exactly the name `name`.
pub open spec fn exactly_named_snapshots(h: Seq<Model>, name: Seq<char>) -> Seq<bool> {
    h.map_values(|e: Model| e.player_name@ == name)
}

/// The snapshots `history[k]` with `chosen[k]`, oldest first; snapshots
/// taken at the same time keep their given order.
pub fn oldest_first(history: &Vec<Model>, chosen: &Vec<bool>) -> (r: Vec<Model>)
    requires
        chosen.len() == history.len(),
    ensures
        arranged(r@, history@, oldest_first_keys(history@), chosen@),
{
    let mut keys: Vec<(i128, i128)> = Vec::new();
    let mut i: usize = 0;
    while i < history.len()
        invariant
            i <= history.len(),
            keys.len() == i,
            forall|j: int| 0 <= j < i ==> #[trigger] keys[j] == oldest_first_keys(history@)[j],
        decreases history.len() - i,
    {
        keys.push((history[i].created_at as i128, 0i128));
        i = i + 1;
    }
    assert(keys@ =~= oldest_first_keys(history@));
    let order = sorted_positions(&keys, chosen);
    let mut r: Vec<Model> = Vec::new();
    let mut k: usize = 0;
    while k < order.len()
        invariant
            k <= order.len(),
            is_order_of(order@, keys@, chosen@),
            keys.len() == history.len(),
            r.len() == k,
            forall|q: int| 0 <= q < k ==> #[trigger] r[q] == history@[order[q] as int],
        decreases order.len() - k,
    {
        assert(order[k as int] < keys.len());
        r.push(history[order[k]].copy());
        k = k + 1;
    }
    assert(r@ =~= order@.map_values(|i: usize| history@[i as int]));
    r
}

/// The rating history under the name `player_name`, letter case aside,
/// oldest first.
pub fn get_player_elo_by_player_name(history: &Vec<Model>, player_name: &str) -> (r: Vec<Model>)
    ensures
        arranged(r@, history@, oldest_first_keys(history@), named_snapshots(history@, player_name@)),
{
    let query = fold_case(player_name);
    let mut chosen: Vec<bool> = Vec::new();
    let mut i: usize = 0;
    while i < history.len()
        invariant
            i <= history.len(),
            query@ == lower_of(player_name@),
            chosen.len() == i,
            forall|j: int|
                0 <= j < i ==> #[trigger] chosen[j] == named_snapshots(history@, player_name@)[j],
        decreases history.len() - i,
    {
        let folded = fold_case(history[i].player_name.as_str());
        chosen.push(folded == query);
        i = i + 1;
    }
    assert(chosen@ =~= named_snapshots(history@, player_name@));
    oldest_first(history, &chosen)
}

/// The rating history under exactly the name `player_name`, oldest first.
pub fn get_player_elos_by_player_name(history: &Vec<Model>, player_name: &str) -> (r: Vec<Model>)
    ensures
        arranged(r@, history@, oldest_first_keys(history@), exactly_named_snapshots(history@, player_name@)),
{
    let mut chosen: Vec<bool> = Vec::new();
    let mut i: usize = 0;
    while i < history.len()
        invariant
            i <= history.len(),
            chosen.len() == i,
            forall|j: int|
                0 <= j < i ==> #[trigger] chosen[j] == exactly_named_snapshots(history@, player_name@)[j],
        decreases history.len() - i,
    {
        chosen.push(same_text(history[i].player_name.as_str(), player_name));
        i = i + 1;
    }
    assert(chosen@ =~= exactly_named_snapshots(history@, player_name@));
    oldest_first(history, &chosen)
}

} // verus!
