use tfpugs_stats::leaderboard::{list_by_elo, PlayerWithRanks, ACTIVE_WINDOW_MICROS};
use tfpugs_stats::players;

const NOW: i64 = 1_700_000_000_000_000;

fn player(id: u32, discord: &str, elo: Option<i32>, games: (i32, i32, i32)) -> players::Model {
    players::Model {
        id,
        discord_id: Some(discord.to_string()),
        created_at: 0,
        updated_at: 0,
        deleted_at: None,
        player_name: Some(format!("p{}", id)),
        current_elo: elo,
        visual_rank_override: None,
        pug_wins: Some(games.0),
        pug_losses: Some(games.1),
        pug_draws: Some(games.2),
        dm_wins: None,
        dm_losses: None,
        achievements: None,
        dunce: None,
        steam_id: None,
    }
}

fn game(id: i32, at: i64, blue: &str, red: &str) -> tfpugs_stats::matches::Model {
    tfpugs_stats::matches::Model {
        created_at: at,
        updated_at: at,
        id,
        match_id: None,
        deleted_at: None,
        blue_probability: None,
        blue_rank: None,
        blue_team: Some(blue.to_string()),
        red_probability: None,
        red_rank: None,
        red_team: Some(red.to_string()),
        map: None,
        server: None,
        game_type: Some("4v4".to_string()),
        match_outcome: None,
        winning_score: None,
        losing_score: None,
        stats_url: None,
    }
}

fn ids(r: &[PlayerWithRanks]) -> Vec<u32> {
    r.iter().map(|p| p.player.id).collect()
}

#[test]
fn deleted_and_inexperienced_players_are_not_ranked() {
    let mut gone = player(1, "1", Some(3000), (50, 0, 0));
    gone.deleted_at = Some(5);
    let ps = vec![
        gone,
        player(2, "2", Some(2000), (3, 3, 3)),
        player(3, "3", Some(1000), (4, 4, 2)),
        player(4, "4", Some(1500), (10, 0, 0)),
    ];
    let r = list_by_elo(&ps, &Vec::new(), NOW);
    assert_eq!(ids(&r), vec![4, 3]);
}

#[test]
fn missing_counters_count_as_zero() {
    let mut p = player(1, "1", Some(1000), (10, 0, 0));
    p.pug_losses = None;
    p.pug_draws = None;
    let mut q = player(2, "2", Some(1000), (9, 0, 0));
    q.pug_losses = None;
    let r = list_by_elo(&vec![p, q], &Vec::new(), NOW);
    assert_eq!(ids(&r), vec![1]);
}

#[test]
fn equal_ratings_order_by_primary_key() {
    let ps = vec![
        player(9, "9", Some(1200), (10, 0, 0)),
        player(5, "5", Some(1200), (10, 0, 0)),
        player(7, "7", Some(1300), (10, 0, 0)),
        player(6, "6", None, (10, 0, 0)),
        player(8, "8", Some(1100), (10, 0, 0)),
    ];
    let r = list_by_elo(&ps, &Vec::new(), NOW);
    assert_eq!(ids(&r), vec![7, 5, 9, 8, 6]);
    let ranks: Vec<usize> = r.iter().map(|p| p.all_time_rank).collect();
    assert_eq!(ranks, vec![1, 2, 2, 3, 4]);
}

#[test]
fn active_players_get_an_active_rank() {
    let ps = vec![
        player(1, "1", Some(1500), (10, 0, 0)),
        player(2, "2", Some(1400), (10, 0, 0)),
        player(3, "3", Some(1400), (10, 0, 0)),
        player(4, "4", Some(1300), (10, 0, 0)),
        player(5, "5", Some(1200), (10, 0, 0)),
    ];
    let mut gone = game(3, NOW - 1000, "5", "");
    gone.deleted_at = Some(NOW);
    let ms = vec![
        game(1, NOW - 1000, "2,3", "4"),
        game(2, NOW - ACTIVE_WINDOW_MICROS - 1, "1", ""),
        gone,
        game(4, NOW - ACTIVE_WINDOW_MICROS, "", "44"),
    ];
    let r = list_by_elo(&ps, &ms, NOW);
    assert_eq!(ids(&r), vec![1, 2, 3, 4, 5]);
    let active: Vec<bool> = r.iter().map(|p| p.is_active).collect();
    assert_eq!(active, vec![false, true, true, true, false]);
    let ranks: Vec<Option<usize>> = r.iter().map(|p| p.active_rank).collect();
    assert_eq!(ranks, vec![None, Some(1), Some(1), Some(3), None]);
    let all: Vec<usize> = r.iter().map(|p| p.all_time_rank).collect();
    assert_eq!(all, vec![1, 2, 2, 3, 4]);
}

#[test]
fn window_edge_counts_as_active() {
    let ps = vec![player(1, "1", Some(1500), (10, 0, 0))];
    let ms = vec![game(1, NOW - ACTIVE_WINDOW_MICROS, "1", "")];
    let r = list_by_elo(&ps, &ms, NOW);
    assert!(r[0].is_active);
    assert_eq!(r[0].active_rank, Some(1));
}

#[test]
fn leaderboard_is_repeatable() {
    let ps = vec![
        player(2, "2", Some(1400), (10, 0, 0)),
        player(1, "1", Some(1400), (10, 0, 0)),
        player(3, "3", Some(1600), (10, 0, 0)),
    ];
    let ms = vec![game(1, NOW - 5, "1", "3")];
    let a = list_by_elo(&ps, &ms, NOW);
    let b = list_by_elo(&ps, &ms, NOW);
    assert_eq!(a, b);
    assert_eq!(format!("{:?}", a), format!("{:?}", b));
}

#[test]
fn empty_leaderboard() {
    assert!(list_by_elo(&Vec::new(), &Vec::new(), NOW).is_empty());
}
