use vstd::prelude::*;
use vstd::seq_lib::seq_to_set_is_finite;
use crate::lookup::{lemma_filter_step, lemma_take_all};
use crate::matches::{optional_view, optional_view_chars, side_in, side_of};
use crate::ordering::{before, is_order_of, lemma_order_unique, sorted_positions};
use crate::players::Model;
use crate::roster::optional_chars;

verus! {

/// How far back a match makes its players active: fourteen days, in
/// microseconds.
pub const ACTIVE_WINDOW_MICROS: i64 = 1_209_600_000_000;

/// How many pug games (wins, losses and draws) a player needs to be ranked.
pub const MIN_RANKED_GAMES: i64 = 10;

/// A counter that may be absent counts as 0.
pub open spec fn count_of(c: Option<i32>) -> int {
    match c {
        Some(n) => n as int,
        None => 0,
    }
}

/// The pug games a player has played: wins, losses and draws.
pub open spec fn pug_games(p: Model) -> int {
    count_of(p.pug_wins) + count_of(p.pug_losses) + count_of(p.pug_draws)
}

/// A player that the leaderboard ranks: not deleted, with enough pug games.
pub open spec fn ranked() -> spec_fn(Model) -> bool {
    |p: Model| !p.is_deleted() && pug_games(p) >= MIN_RANKED_GAMES
}

/// The rating that ranks a player; a player without one ranks below every
/// rating.
pub open spec fn rating_of(p: Model) -> int {
    match p.current_elo {
        Some(r) => r as int,
        None => i32::MIN as int - 1,
    }
}

/// A match, not deleted, created no earlier than one window before `now`.
pub open spec fn recent(m: crate::matches::Model, now: i64) -> bool {
    !m.is_deleted() && m.created_at >= now - ACTIVE_WINDOW_MICROS
}

/// A player is active when a roster of a recent match names them.
pub open spec fn is_active(p: Model, ms: Seq<crate::matches::Model>, now: i64) -> bool {
    exists|k: int| 0 <= k < ms.len() && recent(#[trigger] ms[k], now) && side_of(ms[k], p.discord_id) is Some
}

/// A ranked player that is active.
pub open spec fn ranked_active(ms: Seq<crate::matches::Model>, now: i64) -> spec_fn(Model) -> bool {
    |p: Model| ranked()(p) && is_active(p, ms, now)
}

/// The ratings of the players that satisfy `p`, in their given order.
pub open spec fn ratings(ps: Seq<Model>, p: spec_fn(Model) -> bool) -> Seq<int> {
    ps.filter(p).map_values(|q: Model| rating_of(q))
}

/// Above `v`.
pub open spec fn above(v: int) -> spec_fn(int) -> bool {
    |x: int| x > v
}

/// The all-time rank of a player rated `v`: one more than the number of
/// distinct ratings above `v` among ranked players.
pub open spec fn all_time_rank(ps: Seq<Model>, v: int) -> nat {
    1 + ratings(ps, ranked()).filter(above(v)).to_set().len()
}

/// The active rank of a player rated `v`: one more than the number of
/// active ranked players rated above `v`.
pub open spec fn active_rank(ps: Seq<Model>, ms: Seq<crate::matches::Model>, now: i64, v: int) -> nat {
    1 + ratings(ps, ranked_active(ms, now)).filter(above(v)).len()
}

/// Ranked players sort by rating, highest first, then by primary key.
pub open spec fn ranking_keys(ps: Seq<Model>) -> Seq<(i128, i128)> {
    ps.map_values(|p: Model| ((-rating_of(p)) as i128, p.id as i128))
}

/// Which players the leaderboard ranks.
pub open spec fn ranked_flags(ps: Seq<Model>) -> Seq<bool> {
    ps.map_values(|p: Model| ranked()(p))
}

/// A player with their standing on the leaderboard.
#[derive(Clone, Debug, PartialEq, Eq)]
pub struct PlayerWithRanks {
    pub player: Model,
    pub is_active: bool,
    /// Present for active players only.
    pub active_rank: Option<usize>,
    pub all_time_rank: usize,
}

/// `out` is the standing of player `p` among `ps`.
pub open spec fn stands(out: PlayerWithRanks, p: Model, ps: Seq<Model>, ms: Seq<crate::matches::Model>, now: i64) -> bool {
    &&& out.player == p
    &&& out.is_active == is_active(p, ms, now)
    &&& out.all_time_rank == all_time_rank(ps, rating_of(p))
    &&& out.active_rank == (if is_active(p, ms, now) {
        Some(active_rank(ps, ms, now, rating_of(p)) as usize)
    } else {
        None::<usize>
    })
}

/// `r` is the leaderboard of the players `ps`, given the matches `ms` and
/// the time `now`: the ranked players in ranking order, each with their
/// standing.
pub open spec fn leaderboard_of(r: Seq<PlayerWithRanks>, ps: Seq<Model>, ms: Seq<crate::matches::Model>, now: i64) -> bool {
    exists|order: Seq<usize>|
        #![trigger is_order_of(order, ranking_keys(ps), ranked_flags(ps))]
        {
            &&& is_order_of(order, ranking_keys(ps), ranked_flags(ps))
            &&& r.len() == order.len()
            &&& forall|t: int| 0 <= t < r.len() ==> stands(#[trigger] r[t], ps[order[t] as int], ps, ms, now)
        }
}

/// Every player on the leaderboard is not deleted and has played at least
/// `MIN_RANKED_GAMES` pug games, whatever their rating; of two players with
/// the same rating, the one with the smaller primary key comes first, and
/// with equal keys too, the one given first.
pub proof fn lemma_leaderboard_eligible_and_ordered(
    r: Seq<PlayerWithRanks>,
    ps: Seq<Model>,
    ms: Seq<crate::matches::Model>,
    now: i64,
)
    requires
        leaderboard_of(r, ps, ms, now),
    ensures
        forall|t: int| 0 <= t < r.len() ==> !(#[trigger] r[t]).player.is_deleted() && pug_games(r[t].player) >= MIN_RANKED_GAMES,
        forall|t: int, u: int|
            0 <= t < u < r.len() ==> rating_of((#[trigger] r[t]).player) >= rating_of((#[trigger] r[u]).player),
        forall|t: int, u: int|
            0 <= t < u < r.len() && rating_of((#[trigger] r[t]).player) == rating_of((#[trigger] r[u]).player)
                ==> r[t].player.id <= r[u].player.id,
{
    let order = choose|order: Seq<usize>|
        #![trigger is_order_of(order, ranking_keys(ps), ranked_flags(ps))]
        {
            &&& is_order_of(order, ranking_keys(ps), ranked_flags(ps))
            &&& r.len() == order.len()
            &&& forall|t: int| 0 <= t < r.len() ==> stands(#[trigger] r[t], ps[order[t] as int], ps, ms, now)
        };
    assert forall|t: int| 0 <= t < r.len() implies !(#[trigger] r[t]).player.is_deleted() && pug_games(r[t].player)
        >= MIN_RANKED_GAMES by {
        assert(stands(r[t], ps[order[t] as int], ps, ms, now));
        assert(ranked_flags(ps)[order[t] as int]);
    }
    assert forall|t: int, u: int| 0 <= t < u < r.len() implies rating_of((#[trigger] r[t]).player) >= rating_of(
        (#[trigger] r[u]).player,
    ) && (rating_of(r[t].player) == rating_of(r[u].player) ==> r[t].player.id <= r[u].player.id) by {
        assert(stands(r[t], ps[order[t] as int], ps, ms, now));
        assert(stands(r[u], ps[order[u] as int], ps, ms, now));
        assert(before(ranking_keys(ps), order[t] as int, order[u] as int));
    }
}

/// With primary keys distinct, as a table's are: no player that is deleted
/// or has played fewer than `MIN_RANKED_GAMES` pug games shares a primary
/// key with any row of the leaderboard, whatever their rating; and of two
/// rows, the earlier has the higher rating, or the same rating and the
/// smaller primary key.
pub proof fn lemma_leaderboard_by_primary_key(
    r: Seq<PlayerWithRanks>,
    ps: Seq<Model>,
    ms: Seq<crate::matches::Model>,
    now: i64,
)
    requires
        leaderboard_of(r, ps, ms, now),
        forall|a: int, b: int| 0 <= a < b < ps.len() ==> (#[trigger] ps[a]).id != (#[trigger] ps[b]).id,
    ensures
        forall|j: int, t: int|
            0 <= j < ps.len() && 0 <= t < r.len() && ((#[trigger] ps[j]).is_deleted() || pug_games(ps[j])
                < MIN_RANKED_GAMES) ==> (#[trigger] r[t]).player.id != ps[j].id,
        forall|t: int, u: int|
            0 <= t < u < r.len() ==> rating_of((#[trigger] r[t]).player) > rating_of((#[trigger] r[u]).player)
                || (rating_of(r[t].player) == rating_of(r[u].player) && r[t].player.id < r[u].player.id),
{
    let order = choose|order: Seq<usize>|
        #![trigger is_order_of(order, ranking_keys(ps), ranked_flags(ps))]
        {
            &&& is_order_of(order, ranking_keys(ps), ranked_flags(ps))
            &&& r.len() == order.len()
            &&& forall|t: int| 0 <= t < r.len() ==> stands(#[trigger] r[t], ps[order[t] as int], ps, ms, now)
        };
    assert forall|j: int, t: int|
        0 <= j < ps.len() && 0 <= t < r.len() && ((#[trigger] ps[j]).is_deleted() || pug_games(ps[j])
            < MIN_RANKED_GAMES) implies (#[trigger] r[t]).player.id != ps[j].id by {
        assert(stands(r[t], ps[order[t] as int], ps, ms, now));
        assert(ranked_flags(ps)[order[t] as int]);
        let q = order[t] as int;
        if q < j {
            assert(ps[q].id != ps[j].id);
        } else if j < q {
            assert(ps[j].id != ps[q].id);
        }
    }
    assert forall|t: int, u: int| 0 <= t < u < r.len() implies rating_of((#[trigger] r[t]).player) > rating_of(
        (#[trigger] r[u]).player,
    ) || (rating_of(r[t].player) == rating_of(r[u].player) && r[t].player.id < r[u].player.id) by {
        assert(stands(r[t], ps[order[t] as int], ps, ms, now));
        assert(stands(r[u], ps[order[u] as int], ps, ms, now));
        let a = order[t] as int;
        let b = order[u] as int;
        assert(before(ranking_keys(ps), a, b));
        if a < b {
            assert(ps[a].id != ps[b].id);
        } else if b < a {
            assert(ps[b].id != ps[a].id);
        }
    }
}

/// The leaderboard is a function of the records and the time: asked for
/// twice with nothing changed, it is the same both times.
pub proof fn lemma_leaderboard_unique(
    r1: Seq<PlayerWithRanks>,
    r2: Seq<PlayerWithRanks>,
    ps: Seq<Model>,
    ms: Seq<crate::matches::Model>,
    now: i64,
)
    requires
        leaderboard_of(r1, ps, ms, now),
        leaderboard_of(r2, ps, ms, now),
    ensures
        r1 == r2,
{
    let o1 = choose|order: Seq<usize>|
        #![trigger is_order_of(order, ranking_keys(ps), ranked_flags(ps))]
        {
            &&& is_order_of(order, ranking_keys(ps), ranked_flags(ps))
            &&& r1.len() == order.len()
            &&& forall|t: int| 0 <= t < r1.len() ==> stands(#[trigger] r1[t], ps[order[t] as int], ps, ms, now)
        };
    let o2 = choose|order: Seq<usize>|
        #![trigger is_order_of(order, ranking_keys(ps), ranked_flags(ps))]
        {
            &&& is_order_of(order, ranking_keys(ps), ranked_flags(ps))
            &&& r2.len() == order.len()
            &&& forall|t: int| 0 <= t < r2.len() ==> stands(#[trigger] r2[t], ps[order[t] as int], ps, ms, now)
        };
    lemma_order_unique(o1, o2, ranking_keys(ps), ranked_flags(ps));
    assert forall|t: int| 0 <= t < r1.len() implies r1[t] == r2[t] by {
        assert(stands(r1[t], ps[o1[t] as int], ps, ms, now));
        assert(stands(r2[t], ps[o1[t] as int], ps, ms, now));
    }
    assert(r1 =~= r2);
}

/// The number of positions `k` of `s` with `s[k] > v` whose value does not
/// occur earlier in `s`.
pub open spec fn fresh_above(s: Seq<int>, v: int) -> nat
    decreases s.len(),
{
    if s.len() == 0 {
        0
    } else {
        fresh_above(s.drop_last(), v) + if s.last() > v && !s.drop_last().contains(s.last()) {
            1nat
        } else {
            0nat
        }
    }
}

/// Counting the first occurrences of the values above `v` counts the
/// distinct values above `v`.
pub proof fn lemma_fresh_above(s: Seq<int>, v: int)
    ensures
        fresh_above(s, v) == s.filter(above(v)).to_set().len(),
    decreases s.len(),
{
    reveal(Seq::filter);
    if s.len() == 0 {
        assert(s.filter(above(v)).to_set() =~= Set::<int>::empty());
    } else {
        let init = s.drop_last();
        let x = s.last();
        lemma_fresh_above(init, v);
        let fi = init.filter(above(v));
        seq_to_set_is_finite(fi);
        if x > v {
            assert(s.filter(above(v)) == fi.push(x));
            assert forall|y: int| fi.push(x).contains(y) <==> fi.contains(y) || y == x by {
                if fi.contains(y) {
                    let k = choose|k: int| 0 <= k < fi.len() && fi[k] == y;
                    assert(fi.push(x)[k] == y);
                }
                if y == x {
                    assert(fi.push(x)[fi.len() as int] == y);
                }
                if fi.push(x).contains(y) && y != x {
                    let k = choose|k: int| 0 <= k < fi.len() + 1 && fi.push(x)[k] == y;
                    assert(fi[k] == y);
                }
            }
            assert(fi.push(x).to_set() =~= fi.to_set().insert(x));
            assert(fi.to_set().contains(x) <==> init.contains(x)) by {
                if init.contains(x) {
                    let k = choose|k: int| 0 <= k < init.len() && init[k] == x;
                    init.lemma_filter_contains(above(v), k);
                }
                if fi.to_set().contains(x) {
                    init.lemma_filter_contains_rev(above(v), x);
                }
            }
        } else {
            assert(s.filter(above(v)) == fi);
        }
    }
}

/// Fewer values than `s` has lie above a value that `s` holds.
pub proof fn lemma_fewer_above(s: Seq<int>, v: int)
    requires
        s.contains(v),
    ensures
        s.filter(above(v)).len() < s.len(),
    decreases s.len(),
{
    reveal(Seq::filter);
    let init = s.drop_last();
    init.lemma_filter_len(above(v));
    if s.last() != v {
        let k = choose|k: int| 0 <= k < s.len() && s[k] == v;
        assert(init[k] == v);
        lemma_fewer_above(init, v);
    }
}

/// A player that satisfies `p` has their rating among `ratings(ps, p)`.
proof fn lemma_rating_listed(ps: Seq<Model>, p: spec_fn(Model) -> bool, j: int)
    requires
        0 <= j < ps.len(),
        p(ps[j]),
    ensures
        ratings(ps, p).contains(rating_of(ps[j])),
{
    ps.lemma_filter_contains(p, j);
    let f = ps.filter(p);
    let k = choose|k: int| 0 <= k < f.len() && f[k] == ps[j];
    assert(ratings(ps, p)[k] == rating_of(ps[j]));
}

/// The integers of a sequence of `i64`.
pub open spec fn ints(s: Seq<i64>) -> Seq<int> {
    s.map_values(|x: i64| x as int)
}

/// The rating that ranks `p`.
fn rating(p: &Model) -> (r: i64)
    ensures
        r == rating_of(*p),
{
    match p.current_elo {
        Some(e) => e as i64,
        None => i32::MIN as i64 - 1,
    }
}

/// Whether the leaderboard ranks `p`.
fn is_ranked(p: &Model) -> (r: bool)
    ensures
        r == ranked()(*p),
{
    let w: i64 = match p.pug_wins {
        Some(n) => n as i64,
        None => 0,
    };
    let l: i64 = match p.pug_losses {
        Some(n) => n as i64,
        None => 0,
    };
    let d: i64 = match p.pug_draws {
        Some(n) => n as i64,
        None => 0,
    };
    p.deleted_at.is_none() && w + l + d >= MIN_RANKED_GAMES
}

/// Whether a recent match of `ms` names the player with identifier `id`.
fn active_in(ms: &Vec<crate::matches::Model>, id: &Option<String>, now: i64) -> (r: bool)
    ensures
        r == exists|k: int|
            0 <= k < ms.len() && recent(#[trigger] ms@[k], now) && side_of(ms@[k], *id) is Some,
{
    let target = optional_chars(id);
    let cutoff: i128 = now as i128 - ACTIVE_WINDOW_MICROS as i128;
    let mut k: usize = 0;
    while k < ms.len()
        invariant
            k <= ms.len(),
            cutoff == now - ACTIVE_WINDOW_MICROS,
            optional_view(*id) == optional_view_chars(target),
            forall|j: int| 0 <= j < k ==> !(recent(#[trigger] ms@[j], now) && side_of(ms@[j], *id) is Some),
        decreases ms.len() - k,
    {
        let m = &ms[k];
        if m.deleted_at.is_none() && m.created_at as i128 >= cutoff && side_in(m, &target).is_some() {
            assert(recent(ms@[k as int], now) && side_of(ms@[k as int], *id) is Some);
            return true;
        }
        k = k + 1;
    }
    false
}

/// The ratings of the players `ps[k]` with `keep[k]`, in their given order.
fn ratings_kept(ps: &Vec<Model>, keep: &Vec<bool>, p: Ghost<spec_fn(Model) -> bool>) -> (r: Vec<i64>)
    requires
        keep.len() == ps.len(),
        forall|j: int| 0 <= j < ps.len() ==> keep[j] == p@(#[trigger] ps@[j]),
    ensures
        ints(r@) == ratings(ps@, p@),
        r.len() <= ps.len(),
{
    let mut r: Vec<i64> = Vec::new();
    let mut i: usize = 0;
    while i < ps.len()
        invariant
            i <= ps.len() == keep.len(),
            forall|j: int| 0 <= j < ps.len() ==> keep[j] == p@(#[trigger] ps@[j]),
            ints(r@) == ratings(ps@.take(i as int), p@),
            r.len() <= i,
        decreases ps.len() - i,
    {
        proof {
            lemma_filter_step(ps@, p@, i as int);
        }
        let ghost before_r = r@;
        if keep[i] {
            r.push(rating(&ps[i]));
            assert(ints(r@) =~= ints(before_r).push(rating_of(ps@[i as int])));
        }
        assert(ints(r@) =~= ratings(ps@.take(i + 1), p@));
        i = i + 1;
    }
    proof {
        lemma_take_all(ps@);
    }
    r
}

/// How many values of `vals` are above `v`.
fn count_above(vals: &Vec<i64>, v: i64) -> (r: usize)
    ensures
        r == ints(vals@).filter(above(v as int)).len(),
        r <= vals.len(),
        ints(vals@).contains(v as int) ==> r < vals.len(),
{
    let ghost s = ints(vals@);
    let mut n: usize = 0;
    let mut i: usize = 0;
    while i < vals.len()
        invariant
            i <= vals.len(),
            s == ints(vals@),
            n == s.take(i as int).filter(above(v as int)).len(),
            n <= i,
        decreases vals.len() - i,
    {
        proof {
            lemma_filter_step(s, above(v as int), i as int);
        }
        if vals[i] > v {
            n = n + 1;
        }
        i = i + 1;
    }
    proof {
        lemma_take_all(s);
        if s.contains(v as int) {
            lemma_fewer_above(s, v as int);
        }
    }
    n
}

/// For each position `k` of `vals`, whether `vals[k]` occurs earlier.
fn seen_flags(vals: &Vec<i64>) -> (r: Vec<bool>)
    ensures
        r.len() == vals.len(),
        forall|k: int| 0 <= k < vals.len() ==> #[trigger] r[k] == ints(vals@).take(k).contains(vals[k] as int),
{
    let ghost s = ints(vals@);
    let mut r: Vec<bool> = Vec::new();
    let mut k: usize = 0;
    while k < vals.len()
        invariant
            k <= vals.len(),
            s == ints(vals@),
            r.len() == k,
            forall|q: int| 0 <= q < k ==> #[trigger] r[q] == s.take(q).contains(vals[q] as int),
        decreases vals.len() - k,
    {
        let mut seen = false;
        let mut j: usize = 0;
        while j < k
            invariant
                j <= k < vals.len(),
                s == ints(vals@),
                seen == exists|q: int| 0 <= q < j && s[q] == vals[k as int] as int,
            decreases k - j,
        {
            assert(s[j as int] == vals[j as int] as int);
            if vals[j] == vals[k] {
                seen = true;
            }
            j = j + 1;
        }
        assert(seen == s.take(k as int).contains(vals[k as int] as int)) by {
            if seen {
                let q = choose|q: int| 0 <= q < k && s[q] == vals[k as int] as int;
                assert(s.take(k as int)[q] == vals[k as int] as int);
            }
            if s.take(k as int).contains(vals[k as int] as int) {
                let q = choose|q: int| 0 <= q < k && s.take(k as int)[q] == vals[k as int] as int;
                assert(s[q] == vals[k as int] as int);
            }
        }
        r.push(seen);
        k = k + 1;
    }
    r
}

/// How many distinct values of `vals` are above `v`, given `seen_flags(vals)`.
fn count_distinct_above(vals: &Vec<i64>, seen: &Vec<bool>, v: i64) -> (r: usize)
    requires
        seen.len() == vals.len(),
        forall|k: int| 0 <= k < vals.len() ==> #[trigger] seen[k] == ints(vals@).take(k).contains(vals[k] as int),
    ensures
        r == ints(vals@).filter(above(v as int)).to_set().len(),
        r <= vals.len(),
        ints(vals@).contains(v as int) ==> r < vals.len(),
{
    let ghost s = ints(vals@);
    let mut n: usize = 0;
    let mut i: usize = 0;
    while i < vals.len()
        invariant
            i <= vals.len() == seen.len(),
            s == ints(vals@),
            forall|k: int| 0 <= k < vals.len() ==> #[trigger] seen[k] == s.take(k).contains(vals[k] as int),
            n == fresh_above(s.take(i as int), v as int),
            n <= i,
        decreases vals.len() - i,
    {
        assert(s.take(i + 1).drop_last() =~= s.take(i as int));
        assert(s.take(i + 1).last() == vals[i as int] as int);
        assert(seen[i as int] == s.take(i as int).contains(vals[i as int] as int));
        if vals[i] > v && !seen[i] {
            n = n + 1;
        }
        i = i + 1;
    }
    proof {
        lemma_take_all(s);
        lemma_fresh_above(s, v as int);
        s.filter(above(v as int)).lemma_cardinality_of_set();
        if s.contains(v as int) {
            lemma_fewer_above(s, v as int);
        }
    }
    n
}

/// The leaderboard: every player that is not deleted and has played at
/// least `MIN_RANKED_GAMES` pug games, highest rating first (a player
/// without a rating last), equal ratings by primary key and then by given
/// order. Each has an all-time rank (dense: one more than the number of
/// distinct ratings above theirs), whether a match of the last
/// `ACTIVE_WINDOW_MICROS` before `now` names them, and, if so, an active rank
/// (one more than the number of active ranked players rated above them).
pub fn list_by_elo(ps: &Vec<Model>, ms: &Vec<crate::matches::Model>, now: i64) -> (r: Vec<PlayerWithRanks>)
    ensures
        leaderboard_of(r@, ps@, ms@, now),
{
    let mut flags: Vec<bool> = Vec::new();
    let mut active: Vec<bool> = Vec::new();
    let mut keys: Vec<(i128, i128)> = Vec::new();
    let mut i: usize = 0;
    while i < ps.len()
        invariant
            i <= ps.len(),
            flags.len() == i,
            active.len() == i,
            keys.len() == i,
            forall|j: int| 0 <= j < i ==> #[trigger] flags[j] == ranked()(ps@[j]),
            forall|j: int| 0 <= j < i ==> #[trigger] active[j] == ranked_active(ms@, now)(ps@[j]),
            forall|j: int| 0 <= j < i ==> #[trigger] keys[j] == ranking_keys(ps@)[j],
        decreases ps.len() - i,
    {
        let p = &ps[i];
        let is_in = is_ranked(p);
        flags.push(is_in);
        active.push(is_in && active_in(ms, &p.discord_id, now));
        keys.push((-(rating(p) as i128), p.id as i128));
        i = i + 1;
    }
    assert(flags@ =~= ranked_flags(ps@));
    assert(keys@ =~= ranking_keys(ps@));
    let ranked_vals = ratings_kept(ps, &flags, Ghost(ranked()));
    let active_vals = ratings_kept(ps, &active, Ghost(ranked_active(ms@, now)));
    let seen = seen_flags(&ranked_vals);
    let order = sorted_positions(&keys, &flags);
    let mut r: Vec<PlayerWithRanks> = Vec::new();
    let mut t: usize = 0;
    while t < order.len()
        invariant
            t <= order.len(),
            is_order_of(order@, keys@, flags@),
            keys@ == ranking_keys(ps@),
            flags@ == ranked_flags(ps@),
            keys.len() == ps.len() == active.len(),
            forall|j: int| 0 <= j < ps.len() ==> #[trigger] active[j] == ranked_active(ms@, now)(ps@[j]),
            ints(ranked_vals@) == ratings(ps@, ranked()),
            ints(active_vals@) == ratings(ps@, ranked_active(ms@, now)),
            ranked_vals.len() <= ps.len(),
            active_vals.len() <= ps.len(),
            seen.len() == ranked_vals.len(),
            forall|k: int|
                0 <= k < ranked_vals.len() ==> #[trigger] seen[k] == ints(ranked_vals@).take(k).contains(
                    ranked_vals[k] as int,
                ),
            r.len() == t,
            forall|q: int| 0 <= q < t ==> stands(#[trigger] r[q], ps@[order[q] as int], ps@, ms@, now),
        decreases order.len() - t,
    {
        let at = order[t];
        assert(at < keys.len());
        assert(flags[at as int]);
        let p = &ps[at];
        let v = rating(p);
        proof {
            lemma_rating_listed(ps@, ranked(), at as int);
            if active[at as int] {
                lemma_rating_listed(ps@, ranked_active(ms@, now), at as int);
            }
        }
        let all_time = count_distinct_above(&ranked_vals, &seen, v) + 1;
        let is_active = active[at];
        let active_rank = if is_active {
            Some(count_above(&active_vals, v) + 1)
        } else {
            None
        };
        r.push(PlayerWithRanks { player: p.copy(), is_active, active_rank, all_time_rank: all_time });
        t = t + 1;
    }
    assert(is_order_of(order@, ranking_keys(ps@), ranked_flags(ps@)));
    r
}

} // verus!
