use vstd::prelude::*;
use crate::lookup::{first_or_not_found, is_first, lemma_filter_step, lemma_take_all, none_satisfy, LookupError};
use crate::ordering::{arranged, is_order_of, sorted_positions};
use crate::players;
use crate::roster::{chars_of, is_member, member_of, optional_chars, range_equals, roster_tokens, token_bounds};
use crate::text::{copy_text, same_text};

verus! {

/// A match record. Times are microseconds since the Unix epoch; the
/// pre-match estimates are the bit patterns of the stored 32-bit floats,
/// carried and never read.
#[derive(Clone, Debug, PartialEq, Eq)]
pub struct Model {
    pub created_at: i64,
    pub updated_at: i64,
    pub id: i32,
    pub match_id: Option<i32>,
    /// Set when the match was soft-deleted.
    pub deleted_at: Option<i64>,
    pub blue_probability: Option<u32>,
    pub blue_rank: Option<u32>,
    /// The blue side's roster: identifiers joined by commas.
    pub blue_team: Option<String>,
    pub red_probability: Option<u32>,
    pub red_rank: Option<u32>,
    /// The red side's roster: identifiers joined by commas.
    pub red_team: Option<String>,
    pub map: Option<String>,
    pub server: Option<String>,
    pub game_type: Option<String>,
    /// 1 when the blue side won, 2 when the red side won.
    pub match_outcome: Option<i32>,
    pub winning_score: Option<i32>,
    pub losing_score: Option<i32>,
    pub stats_url: Option<String>,
}

impl Model {
    /// A match counts as deleted once its soft-delete time is set.
    pub open spec fn is_deleted(&self) -> bool {
        self.deleted_at is Some
    }

    /// A field-by-field copy.
    pub fn copy(&self) -> (r: Model)
        ensures
            r == *self,
    {
        Model {
            created_at: self.created_at,
            updated_at: self.updated_at,
            id: self.id,
            match_id: self.match_id,
            deleted_at: self.deleted_at,
            blue_probability: self.blue_probability,
            blue_rank: self.blue_rank,
            blue_team: copy_text(&self.blue_team),
            red_probability: self.red_probability,
            red_rank: self.red_rank,
            red_team: copy_text(&self.red_team),
            map: copy_text(&self.map),
            server: copy_text(&self.server),
            game_type: copy_text(&self.game_type),
            match_outcome: self.match_outcome,
            winning_score: self.winning_score,
            losing_score: self.losing_score,
            stats_url: copy_text(&self.stats_url),
        }
    }
}

/// A side of a match.
#[derive(Clone, Copy, Debug, PartialEq, Eq, Structural)]
pub enum Side {
    Blue,
    Red,
}

/// The game type that the match listings show.
pub open spec fn four_a_side() -> Seq<char> {
    seq!['4', 'v', '4']
}

/// A match that the listings show: a four-a-side game that is not deleted.
pub open spec fn listed() -> spec_fn(Model) -> bool {
    |m: Model| !m.is_deleted() && m.game_type is Some && m.game_type->0@ == four_a_side()
}

/// The match's primary key is `id`.
pub open spec fn keyed(id: i32) -> spec_fn(Model) -> bool {
    |m: Model| m.id == id
}

/// The side on which the player with identifier `id` played, if any; blue
/// when both rosters name the player.
pub open spec fn side_of(m: Model, id: Option<String>) -> Option<Side> {
    if is_member(m.blue_team, id) {
        Some(Side::Blue)
    } else if is_member(m.red_team, id) {
        Some(Side::Red)
    } else {
        None
    }
}

/// A match that is not deleted and in which the player with identifier `id`
/// played.
pub open spec fn played_by(id: Option<String>) -> spec_fn(Model) -> bool {
    |m: Model| !m.is_deleted() && side_of(m, id) is Some
}

/// The side whose roster names both `a` and `b`, if any; blue when both
/// rosters do.
pub open spec fn shared_side(m: Model, a: Option<String>, b: Option<String>) -> Option<Side> {
    if is_member(m.blue_team, a) && is_member(m.blue_team, b) {
        Some(Side::Blue)
    } else if is_member(m.red_team, a) && is_member(m.red_team, b) {
        Some(Side::Red)
    } else {
        None
    }
}

/// The outcome code of a win by `side`.
pub open spec fn win_code(side: Side) -> i32 {
    match side {
        Side::Blue => 1,
        Side::Red => 2,
    }
}

/// The match's outcome code, 0 when it has none.
pub open spec fn outcome_code(m: Model) -> i32 {
    match m.match_outcome {
        Some(c) => c,
        None => 0,
    }
}

/// A match, not deleted, in which `a` and `b` played on the same side.
pub open spec fn shared_game(a: Option<String>, b: Option<String>) -> spec_fn(Model) -> bool {
    |m: Model| !m.is_deleted() && shared_side(m, a, b) is Some
}

/// A shared game that their side won.
pub open spec fn shared_win(a: Option<String>, b: Option<String>) -> spec_fn(Model) -> bool {
    |m: Model|
        !m.is_deleted() && shared_side(m, a, b) is Some && outcome_code(m) == win_code(
            shared_side(m, a, b)->0,
        )
}

/// Wins and losses of two players on the same side.
#[derive(Clone, Copy, Debug, PartialEq, Eq, Structural)]
pub struct WinRate {
    pub games_played: usize,
    pub wins: usize,
    pub losses: usize,
}

impl WinRate {
    /// The tally of the players with identifiers `a` and `b` over `ms`: each
    /// shared game is a win or a loss; games on opposite sides do not count.
    pub open spec fn tallies(self, ms: Seq<Model>, a: Option<String>, b: Option<String>) -> bool {
        &&& self.games_played == ms.filter(shared_game(a, b)).len()
        &&& self.wins == ms.filter(shared_win(a, b)).len()
        &&& self.losses == self.games_played - self.wins
        &&& self.wins <= self.games_played
    }

    /// The win rate as a fraction `(numerator, denominator)`: wins over games
    /// played, and 0 over 1 when no game was played.
    pub fn ratio(&self) -> (r: (usize, usize))
        requires
            self.wins <= self.games_played,
        ensures
            r.1 > 0,
            r.0 <= r.1,
            self.games_played == 0 ==> r.0 == 0 && r.1 == 1,
            self.games_played > 0 ==> r.0 == self.wins && r.1 == self.games_played,
    {
        if self.games_played == 0 {
            (0, 1)
        } else {
            (self.wins, self.games_played)
        }
    }
}

/// Two players cannot have won more shared games than they played: their
/// win rate, wins over games played, lies between 0 and 1.
pub proof fn lemma_wins_within_games(ms: Seq<Model>, a: Option<String>, b: Option<String>)
    ensures
        ms.filter(shared_win(a, b)).len() <= ms.filter(shared_game(a, b)).len(),
    decreases ms.len(),
{
    reveal(Seq::filter);
    if ms.len() > 0 {
        lemma_wins_within_games(ms.drop_last(), a, b);
    }
}

/// A copy of each match of `ms` that satisfies `p`, given the answer for each
/// in `keep`.
fn copy_kept(ms: &Vec<Model>, keep: &Vec<bool>, p: Ghost<spec_fn(Model) -> bool>) -> (r: Vec<Model>)
    requires
        keep.len() == ms.len(),
        forall|j: int| 0 <= j < ms.len() ==> keep[j] == p@(#[trigger] ms@[j]),
    ensures
        r@ == ms@.filter(p@),
{
    let mut r: Vec<Model> = Vec::new();
    let mut i: usize = 0;
    while i < ms.len()
        invariant
            i <= ms.len() == keep.len(),
            forall|j: int| 0 <= j < ms.len() ==> keep[j] == p@(#[trigger] ms@[j]),
            r@ == ms@.take(i as int).filter(p@),
        decreases ms.len() - i,
    {
        proof {
            lemma_filter_step(ms@, p@, i as int);
        }
        if keep[i] {
            r.push(ms[i].copy());
        }
        i = i + 1;
    }
    proof {
        lemma_take_all(ms@);
    }
    r
}

/// Whether the game type is the four-a-side one.
fn is_four_a_side(game_type: &Option<String>) -> (r: bool)
    ensures
        r == (game_type is Some && game_type->0@ == four_a_side()),
{
    proof {
        reveal_strlit("4v4");
        assert("4v4"@ =~= four_a_side());
    }
    match game_type {
        Some(t) => same_text(t.as_str(), "4v4"),
        None => false,
    }
}

/// The four-a-side matches that are not deleted, in their given order.
pub fn list(ms: &Vec<Model>) -> (r: Vec<Model>)
    ensures
        r@ == ms@.filter(listed()),
{
    let mut keep: Vec<bool> = Vec::new();
    let mut i: usize = 0;
    while i < ms.len()
        invariant
            i <= ms.len(),
            keep.len() == i,
            forall|j: int| 0 <= j < i ==> keep[j] == listed()(#[trigger] ms@[j]),
        decreases ms.len() - i,
    {
        keep.push(ms[i].deleted_at.is_none() && is_four_a_side(&ms[i].game_type));
        i = i + 1;
    }
    copy_kept(ms, &keep, Ghost(listed()))
}

/// The match whose primary key is `id`, or `NotFound`.
pub fn get_one(ms: &Vec<Model>, id: i32) -> (r: Result<Model, LookupError>)
    ensures
        first_or_not_found(ms@, keyed(id), r),
{
    let mut i: usize = 0;
    while i < ms.len()
        invariant
            i <= ms.len(),
            forall|j: int| 0 <= j < i ==> !keyed(id)(#[trigger] ms@[j]),
        decreases ms.len() - i,
    {
        if ms[i].id == id {
            let found = ms[i].copy();
            assert(is_first(ms@, keyed(id), i as int));
            return Ok(found);
        }
        i = i + 1;
    }
    Err(LookupError::NotFound)
}

/// The side whose roster names the identifier `id` in `m`: blue, red, or
/// none when neither does (blue when both do).
pub fn roster_side(m: &Model, id: &String) -> (r: Option<Side>)
    ensures
        r == side_of(*m, Some(*id)),
{
    let target = Some(chars_of(id.as_str()));
    assert(optional_view(Some(*id)) == optional_view_chars(target));
    side_in(m, &target)
}

/// The side on which the player with identifier `id` played in `m`, if any.
pub(crate) fn side_in(m: &Model, id: &Option<Vec<char>>) -> (r: Option<Side>)
    ensures
        forall|s: Option<String>| (#[trigger] optional_view(s) == optional_view_chars(*id)) ==> r
            == side_of(*m, s),
{
    if member_of(&m.blue_team, id) {
        Some(Side::Blue)
    } else if member_of(&m.red_team, id) {
        Some(Side::Red)
    } else {
        None
    }
}

/// The view of an optional string.
pub open spec fn optional_view(s: Option<String>) -> Option<Seq<char>> {
    match s {
        Some(t) => Some(t@),
        None => None,
    }
}

/// The view of optional characters.
pub open spec fn optional_view_chars(s: Option<Vec<char>>) -> Option<Seq<char>> {
    match s {
        Some(t) => Some(t@),
        None => None,
    }
}

/// The matches, not deleted, in which the player with identifier `id`
/// played, in their given order.
pub fn matches_of(ms: &Vec<Model>, id: &Option<String>) -> (r: Vec<Model>)
    ensures
        r@ == ms@.filter(played_by(*id)),
{
    let target = optional_chars(id);
    let mut keep: Vec<bool> = Vec::new();
    let mut i: usize = 0;
    while i < ms.len()
        invariant
            i <= ms.len(),
            keep.len() == i,
            optional_view(*id) == optional_view_chars(target),
            forall|j: int| 0 <= j < i ==> keep[j] == played_by(*id)(#[trigger] ms@[j]),
        decreases ms.len() - i,
    {
        let side = side_in(&ms[i], &target);
        keep.push(ms[i].deleted_at.is_none() && side.is_some());
        i = i + 1;
    }
    copy_kept(ms, &keep, Ghost(played_by(*id)))
}

/// The matches, not deleted, of the player named `player_name` (letter case
/// aside; the first such record), or `NotFound` when no player has that name.
/// A player without an external identifier is in no roster, so has none.
pub fn get_matches_by_player_name(players: &Vec<players::Model>, ms: &Vec<Model>, player_name: &str) -> (r:
    Result<Vec<Model>, LookupError>)
    ensures
        match r {
            Ok(v) => exists|i: int|
                is_first(players@, players::named(player_name@), i) && v@ == ms@.filter(
                    played_by(players@[i].discord_id),
                ),
            Err(e) => e == LookupError::NotFound && none_satisfy(players@, players::named(player_name@)),
        },
{
    match players::position_by_name(players, player_name, false) {
        Some(i) => Ok(matches_of(ms, &players[i].discord_id)),
        None => Err(LookupError::NotFound),
    }
}

/// The same-side tally of the players with identifiers `a` and `b` over the
/// matches `ms`.
pub fn tally(ms: &Vec<Model>, a: &Option<String>, b: &Option<String>) -> (r: WinRate)
    ensures
        r.tallies(ms@, *a, *b),
{
    let ta = optional_chars(a);
    let tb = optional_chars(b);
    let mut games: usize = 0;
    let mut wins: usize = 0;
    let mut i: usize = 0;
    while i < ms.len()
        invariant
            i <= ms.len(),
            wins <= games <= i,
            ta is Some <==> a is Some,
            a is Some ==> ta->0@ == a->0@,
            tb is Some <==> b is Some,
            b is Some ==> tb->0@ == b->0@,
            games == ms@.take(i as int).filter(shared_game(*a, *b)).len(),
            wins == ms@.take(i as int).filter(shared_win(*a, *b)).len(),
        decreases ms.len() - i,
    {
        proof {
            lemma_filter_step(ms@, shared_game(*a, *b), i as int);
            lemma_filter_step(ms@, shared_win(*a, *b), i as int);
        }
        let m = &ms[i];
        if m.deleted_at.is_none() {
            let side = if member_of(&m.blue_team, &ta) && member_of(&m.blue_team, &tb) {
                Some(Side::Blue)
            } else if member_of(&m.red_team, &ta) && member_of(&m.red_team, &tb) {
                Some(Side::Red)
            } else {
                None
            };
            assert(side == shared_side(*m, *a, *b));
            match side {
                Some(s) => {
                    games = games + 1;
                    let code: i32 = match m.match_outcome {
                        Some(c) => c,
                        None => 0,
                    };
                    let won = match s {
                        Side::Blue => code == 1,
                        Side::Red => code == 2,
                    };
                    if won {
                        wins = wins + 1;
                    }
                },
                None => {},
            }
        }
        i = i + 1;
    }
    proof {
        lemma_take_all(ms@);
    }
    WinRate { games_played: games, wins, losses: games - wins }
}

/// The same-side record of the players named `player1_name` and
/// `player2_name` (letter case aside; for each the first such record not
/// deleted), or `NotFound` when either has no such record.
pub fn get_same_team_winrate(
    players: &Vec<players::Model>,
    ms: &Vec<Model>,
    player1_name: &str,
    player2_name: &str,
) -> (r: Result<WinRate, LookupError>)
    ensures
        match r {
            Ok(w) => exists|i: int, j: int|
                #![trigger players@[i], players@[j]]
                is_first(players@, players::named_active(player1_name@), i) && is_first(
                    players@,
                    players::named_active(player2_name@),
                    j,
                ) && w.tallies(ms@, players@[i].discord_id, players@[j].discord_id),
            Err(e) => e == LookupError::NotFound && (none_satisfy(
                players@,
                players::named_active(player1_name@),
            ) || none_satisfy(players@, players::named_active(player2_name@))),
        },
{
    let first = players::position_by_name(players, player1_name, true);
    let second = players::position_by_name(players, player2_name, true);
    match (first, second) {
        (Some(i), Some(j)) => {
            let w = tally(ms, &players[i].discord_id, &players[j].discord_id);
            assert(is_first(players@, players::named_active(player1_name@), i as int));
            assert(is_first(players@, players::named_active(player2_name@), j as int));
            assert(w.tallies(ms@, players@[i as int].discord_id, players@[j as int].discord_id));
            Ok(w)
        },
        _ => Err(LookupError::NotFound),
    }
}

/// A match with the player records that its rosters name.
#[derive(Clone, Debug, PartialEq, Eq)]
pub struct MatchWithPlayers {
    pub match_data: Model,
    pub blue_team_players: Vec<players::Model>,
    pub red_team_players: Vec<players::Model>,
}

/// The identifiers that a roster names; an absent roster reads as the
/// empty string, which names one empty identifier.
pub open spec fn roster_ids(roster: Option<String>) -> Seq<Seq<char>> {
    match roster {
        Some(t) => roster_tokens(t@),
        None => roster_tokens(Seq::empty()),
    }
}

/// The last player of `ps` whose external identifier is `id`.
pub open spec fn last_with_id(ps: Seq<players::Model>, id: Seq<char>) -> Option<players::Model>
    decreases ps.len(),
{
    if ps.len() == 0 {
        None
    } else if players::with_discord_id(id)(ps.last()) {
        Some(ps.last())
    } else {
        last_with_id(ps.drop_last(), id)
    }
}

/// Looking an identifier up among `ps`.
pub open spec fn lookup_in(ps: Seq<players::Model>) -> spec_fn(Seq<char>) -> Option<players::Model> {
    |id: Seq<char>| last_with_id(ps, id)
}

/// The players that a roster names, in roster order; an identifier that no
/// player has is skipped, and one that several have gives the last of them.
pub open spec fn roster_players(ps: Seq<players::Model>, roster: Option<String>) -> Seq<players::Model> {
    roster_ids(roster).filter_map(lookup_in(ps))
}

/// `out` is the match `m` joined with the players `ps`.
pub open spec fn joins(out: MatchWithPlayers, m: Model, ps: Seq<players::Model>) -> bool {
    &&& out.match_data == m
    &&& out.blue_team_players@ == roster_players(ps, m.blue_team)
    &&& out.red_team_players@ == roster_players(ps, m.red_team)
}

/// The position of the last player whose identifier is `cs[a..b]`.
fn last_player_with(ids: &Vec<Option<Vec<char>>>, ps: &Vec<players::Model>, cs: &Vec<char>, a: usize, b: usize) -> (r:
    Option<usize>)
    requires
        a <= b <= cs.len(),
        ids.len() == ps.len(),
        forall|j: int|
            0 <= j < ps.len() ==> optional_view_chars(#[trigger] ids[j]) == optional_view(
                ps[j].discord_id,
            ),
    ensures
        match r {
            Some(i) => i < ps.len() && last_with_id(ps@, cs@.subrange(a as int, b as int)) == Some(
                ps@[i as int],
            ),
            None => last_with_id(ps@, cs@.subrange(a as int, b as int)) is None,
        },
{
    let ghost id = cs@.subrange(a as int, b as int);
    let mut j: usize = ps.len();
    proof {
        lemma_take_all(ps@);
    }
    while j > 0
        invariant
            j <= ps.len() == ids.len(),
            a <= b <= cs.len(),
            id == cs@.subrange(a as int, b as int),
            forall|q: int|
                0 <= q < ps.len() ==> optional_view_chars(#[trigger] ids[q]) == optional_view(
                    ps[q].discord_id,
                ),
            last_with_id(ps@, id) == last_with_id(ps@.take(j as int), id),
        decreases j,
    {
        let hit = match &ids[j - 1] {
            Some(t) => range_equals(cs, a, b, t),
            None => false,
        };
        assert(ps@.take(j as int).last() == ps@[j - 1]);
        assert(ps@.take(j as int).drop_last() =~= ps@.take(j - 1));
        assert(optional_view_chars(ids[j - 1]) == optional_view(ps[j - 1].discord_id));
        if hit {
            return Some(j - 1);
        }
        j = j - 1;
    }
    None
}

/// The players that `roster` names, looked up among `ps`.
fn join_roster(ids: &Vec<Option<Vec<char>>>, ps: &Vec<players::Model>, roster: &Option<String>) -> (r: Vec<
    players::Model,
>)
    requires
        ids.len() == ps.len(),
        forall|j: int|
            0 <= j < ps.len() ==> optional_view_chars(#[trigger] ids[j]) == optional_view(
                ps[j].discord_id,
            ),
    ensures
        r@ == roster_players(ps@, *roster),
{
    let mut r: Vec<players::Model> = Vec::new();
    let cs = match roster {
        Some(text) => chars_of(text.as_str()),
        None => Vec::new(),
    };
    assert(roster_ids(*roster) == roster_tokens(cs@));
    let bounds = token_bounds(&cs);
    let ghost toks = roster_tokens(cs@);
    let mut k: usize = 0;
    while k < bounds.len()
        invariant
            k <= bounds.len() == toks.len(),
            toks == roster_ids(*roster),
            ids.len() == ps.len(),
            forall|j: int|
                0 <= j < ps.len() ==> optional_view_chars(#[trigger] ids[j]) == optional_view(
                    ps[j].discord_id,
                ),
            forall|j: int|
                #![trigger bounds[j]]
                0 <= j < bounds.len() ==> {
                    &&& bounds[j].0 <= bounds[j].1 <= cs.len()
                    &&& cs@.subrange(bounds[j].0 as int, bounds[j].1 as int) == toks[j]
                },
            r@ == toks.take(k as int).filter_map(lookup_in(ps@)),
        decreases bounds.len() - k,
    {
        let (a, b) = bounds[k];
        assert(cs@.subrange(a as int, b as int) == toks[k as int]);
        proof {
            toks.lemma_filter_map_take_succ(lookup_in(ps@), k as int);
        }
        match last_player_with(ids, ps, &cs, a, b) {
            Some(i) => {
                r.push(ps[i].copy());
            },
            None => {},
        }
        assert(r@ =~= toks.take(k + 1).filter_map(lookup_in(ps@)));
        k = k + 1;
    }
    proof {
        lemma_take_all(toks);
    }
    r
}

/// The four-a-side matches that are not deleted, in their given order, each
/// with the player records that its two rosters name.
pub fn list_with_players(ms: &Vec<Model>, ps: &Vec<players::Model>) -> (r: Vec<MatchWithPlayers>)
    ensures
        r.len() == ms@.filter(listed()).len(),
        forall|k: int| 0 <= k < r.len() ==> joins(#[trigger] r[k], ms@.filter(listed())[k], ps@),
{
    let shown = list(ms);
    let mut ids: Vec<Option<Vec<char>>> = Vec::new();
    let mut j: usize = 0;
    while j < ps.len()
        invariant
            j <= ps.len(),
            ids.len() == j,
            forall|q: int|
                0 <= q < j ==> optional_view_chars(#[trigger] ids[q]) == optional_view(
                    ps[q].discord_id,
                ),
        decreases ps.len() - j,
    {
        ids.push(optional_chars(&ps[j].discord_id));
        j = j + 1;
    }
    let mut r: Vec<MatchWithPlayers> = Vec::new();
    let mut k: usize = 0;
    while k < shown.len()
        invariant
            k <= shown.len(),
            shown@ == ms@.filter(listed()),
            ids.len() == ps.len(),
            forall|q: int|
                0 <= q < ps.len() ==> optional_view_chars(#[trigger] ids[q]) == optional_view(
                    ps[q].discord_id,
                ),
            r.len() == k,
            forall|q: int| 0 <= q < k ==> joins(#[trigger] r[q], shown@[q], ps@),
        decreases shown.len() - k,
    {
        let m = &shown[k];
        let blue = join_roster(&ids, ps, &m.blue_team);
        let red = join_roster(&ids, ps, &m.red_team);
        r.push(MatchWithPlayers { match_data: m.copy(), blue_team_players: blue, red_team_players: red });
        k = k + 1;
    }
    r
}

/// Matches sort by creation time, newest first.
pub open spec fn newest_first_keys(ms: Seq<Model>) -> Seq<(i128, i128)> {
    ms.map_values(|m: Model| ((-(m.created_at as int)) as i128, 0i128))
}

/// Which matches the player with identifier `id` played in, deleted or not.
pub open spec fn played_in(ms: Seq<Model>, id: Option<String>) -> Seq<bool> {
    ms.map_values(|m: Model| side_of(m, id) is Some)
}

/// The matches `ms[k]` with `chosen[k]`, newest first; matches created at
/// the same time keep their given order.
pub fn newest_first(ms: &Vec<Model>, chosen: &Vec<bool>) -> (r: Vec<Model>)
    requires
        chosen.len() == ms.len(),
    ensures
        arranged(r@, ms@, newest_first_keys(ms@), chosen@),
{
    let mut keys: Vec<(i128, i128)> = Vec::new();
    let mut i: usize = 0;
    while i < ms.len()
        invariant
            i <= ms.len(),
            keys.len() == i,
            forall|j: int| 0 <= j < i ==> #[trigger] keys[j] == newest_first_keys(ms@)[j],
        decreases ms.len() - i,
    {
        keys.push((-(ms[i].created_at as i128), 0i128));
        i = i + 1;
    }
    assert(keys@ =~= newest_first_keys(ms@));
    let order = sorted_positions(&keys, chosen);
    let mut r: Vec<Model> = Vec::new();
    let mut k: usize = 0;
    while k < order.len()
        invariant
            k <= order.len(),
            is_order_of(order@, keys@, chosen@),
            keys.len() == ms.len(),
            r.len() == k,
            forall|q: int| 0 <= q < k ==> #[trigger] r[q] == ms@[order[q] as int],
        decreases order.len() - k,
    {
        assert(order[k as int] < keys.len());
        r.push(ms[order[k]].copy());
        k = k + 1;
    }
    assert(r@ =~= order@.map_values(|i: usize| ms@[i as int]));
    r
}

/// The matches in which the player with identifier `id` played, deleted or
/// not, newest first.
pub fn history_of(ms: &Vec<Model>, id: &Option<String>) -> (r: Vec<Model>)
    ensures
        arranged(r@, ms@, newest_first_keys(ms@), played_in(ms@, *id)),
{
    let target = optional_chars(id);
    let mut chosen: Vec<bool> = Vec::new();
    let mut i: usize = 0;
    while i < ms.len()
        invariant
            i <= ms.len(),
            chosen.len() == i,
            optional_view(*id) == optional_view_chars(target),
            forall|j: int| 0 <= j < i ==> #[trigger] chosen[j] == played_in(ms@, *id)[j],
        decreases ms.len() - i,
    {
        chosen.push(side_in(&ms[i], &target).is_some());
        i = i + 1;
    }
    assert(chosen@ =~= played_in(ms@, *id));
    newest_first(ms, &chosen)
}

} // verus!
