use tfpugs_stats::lookup::LookupError;
use tfpugs_stats::matches::{
    get_matches_by_player_name, get_one, get_same_team_winrate, list, list_with_players, roster_side, tally,
    Model, Side, WinRate,
};
use tfpugs_stats::players;

fn player(id: u32, discord: Option<&str>, name: &str) -> players::Model {
    players::Model {
        id,
        discord_id: discord.map(|s| s.to_string()),
        created_at: 0,
        updated_at: 0,
        deleted_at: None,
        player_name: Some(name.to_string()),
        current_elo: Some(1000),
        visual_rank_override: None,
        pug_wins: Some(0),
        pug_losses: Some(0),
        pug_draws: Some(0),
        dm_wins: None,
        dm_losses: None,
        achievements: None,
        dunce: None,
        steam_id: None,
    }
}

fn game(id: i32, blue: Option<&str>, red: Option<&str>, outcome: Option<i32>) -> Model {
    Model {
        created_at: id as i64 * 1000,
        updated_at: id as i64 * 1000,
        id,
        match_id: Some(id + 500),
        deleted_at: None,
        blue_probability: Some(0.5f32.to_bits()),
        blue_rank: None,
        blue_team: blue.map(|s| s.to_string()),
        red_probability: Some(0.5f32.to_bits()),
        red_rank: None,
        red_team: red.map(|s| s.to_string()),
        map: Some("well".to_string()),
        server: None,
        game_type: Some("4v4".to_string()),
        match_outcome: outcome,
        winning_score: None,
        losing_score: None,
        stats_url: None,
    }
}

fn people() -> Vec<players::Model> {
    vec![player(1, Some("11"), "A"), player(2, Some("22"), "B"), player(3, Some("33"), "C")]
}

#[test]
fn same_team_win_rate_scenario() {
    let ps = people();
    let ms = vec![
        game(1, Some("11,22"), Some("33,44"), Some(1)),
        game(2, Some("22, 11,55"), Some("33"), Some(2)),
        game(3, Some("11,66"), Some("22,33"), Some(1)),
    ];
    let w = get_same_team_winrate(&ps, &ms, "A", "B").unwrap();
    assert_eq!(w, WinRate { games_played: 2, wins: 1, losses: 1 });
    let (n, d) = w.ratio();
    assert_eq!(n as f64 / d as f64, 0.5);
}

#[test]
fn red_side_wins_count() {
    let ps = people();
    let ms = vec![
        game(1, Some("33"), Some("11,22"), Some(2)),
        game(2, Some("33"), Some("11,22"), Some(1)),
        game(3, Some("33"), Some("11,22"), None),
        game(4, Some("33"), Some("11,22"), Some(0)),
    ];
    let w = get_same_team_winrate(&ps, &ms, "a", "b").unwrap();
    assert_eq!(w, WinRate { games_played: 4, wins: 1, losses: 3 });
    assert_eq!(w.ratio(), (1, 4));
}

#[test]
fn win_rate_without_games_is_zero() {
    let ps = people();
    let w = get_same_team_winrate(&ps, &Vec::new(), "A", "C").unwrap();
    assert_eq!(w, WinRate { games_played: 0, wins: 0, losses: 0 });
    let (n, d) = w.ratio();
    assert_eq!(n as f64 / d as f64, 0.0);
}

#[test]
fn win_rate_skips_deleted_matches() {
    let ps = people();
    let mut gone = game(1, Some("11,22"), None, Some(1));
    gone.deleted_at = Some(5);
    let ms = vec![gone, game(2, Some("11,22"), None, Some(2))];
    let w = get_same_team_winrate(&ps, &ms, "A", "B").unwrap();
    assert_eq!(w, WinRate { games_played: 1, wins: 0, losses: 1 });
}

#[test]
fn win_rate_needs_both_players() {
    let mut ps = people();
    assert_eq!(get_same_team_winrate(&ps, &Vec::new(), "A", "Z"), Err(LookupError::NotFound));
    assert_eq!(get_same_team_winrate(&ps, &Vec::new(), "Z", "A"), Err(LookupError::NotFound));
    ps[1].deleted_at = Some(1);
    assert_eq!(get_same_team_winrate(&ps, &Vec::new(), "A", "B"), Err(LookupError::NotFound));
}

#[test]
fn tally_with_missing_identifier() {
    let ms = vec![game(1, Some("11,22"), None, Some(1))];
    let w = tally(&ms, &Some("11".to_string()), &None);
    assert_eq!(w.games_played, 0);
    let w = tally(&ms, &Some("11".to_string()), &Some("22".to_string()));
    assert_eq!(w, WinRate { games_played: 1, wins: 1, losses: 0 });
}

#[test]
fn listing_shows_live_four_a_side_matches() {
    let mut other = game(2, None, None, None);
    other.game_type = Some("2v2".to_string());
    let mut gone = game(3, None, None, None);
    gone.deleted_at = Some(7);
    let mut untyped = game(4, None, None, None);
    untyped.game_type = None;
    let ms = vec![game(1, None, None, None), other, gone, untyped, game(5, None, None, None)];
    let ids: Vec<i32> = list(&ms).iter().map(|m| m.id).collect();
    assert_eq!(ids, vec![1, 5]);
}

#[test]
fn match_by_primary_key() {
    let ms = vec![game(1, None, None, None), game(2, None, None, None)];
    assert_eq!(get_one(&ms, 2).unwrap(), ms[1]);
    assert_eq!(get_one(&ms, 3), Err(LookupError::NotFound));
}

#[test]
fn matches_of_a_player() {
    let ps = people();
    let mut gone = game(3, Some("11"), None, None);
    gone.deleted_at = Some(1);
    let ms = vec![
        game(1, Some("11,22"), Some("33"), None),
        game(2, Some("111"), Some("22"), None),
        gone,
        game(4, Some("44"), Some(" 11"), None),
    ];
    let ids: Vec<i32> = get_matches_by_player_name(&ps, &ms, "a").unwrap().iter().map(|m| m.id).collect();
    assert_eq!(ids, vec![1, 4]);
    assert_eq!(get_matches_by_player_name(&ps, &ms, "nobody"), Err(LookupError::NotFound));
}

#[test]
fn matches_joined_with_players() {
    let mut ps = people();
    ps.push(player(4, Some("22"), "B2"));
    let ms = vec![game(1, Some("11, 22,99"), Some("33"), None), game(2, None, Some("33,11"), None)];
    let r = list_with_players(&ms, &ps);
    assert_eq!(r.len(), 2);
    assert_eq!(r[0].match_data, ms[0]);
    let blue: Vec<u32> = r[0].blue_team_players.iter().map(|p| p.id).collect();
    assert_eq!(blue, vec![1, 4]);
    let red: Vec<u32> = r[0].red_team_players.iter().map(|p| p.id).collect();
    assert_eq!(red, vec![3]);
    assert!(r[1].blue_team_players.is_empty());
    let red: Vec<u32> = r[1].red_team_players.iter().map(|p| p.id).collect();
    assert_eq!(red, vec![3, 1]);
}

#[test]
fn side_of_an_identifier() {
    let m = game(1, Some("11, 22"), Some("142,33"), None);
    assert_eq!(roster_side(&m, &"22".to_string()), Some(Side::Blue));
    assert_eq!(roster_side(&m, &"33".to_string()), Some(Side::Red));
    assert_eq!(roster_side(&m, &"42".to_string()), None);
    let both = game(2, Some("5"), Some("5"), None);
    assert_eq!(roster_side(&both, &"5".to_string()), Some(Side::Blue));
    let empty = game(3, None, None, None);
    assert_eq!(roster_side(&empty, &"".to_string()), None);
}

#[test]
fn absent_roster_reads_as_empty_string() {
    let mut ps = people();
    ps.push(player(4, Some(""), "Nameless"));
    ps.push(player(5, None, "Unknown"));
    let ms = vec![game(1, None, Some("11"), None), game(2, Some("22"), Some(""), None)];
    let r = list_with_players(&ms, &ps);
    let blue: Vec<u32> = r[0].blue_team_players.iter().map(|p| p.id).collect();
    assert_eq!(blue, vec![4]);
    let red: Vec<u32> = r[1].red_team_players.iter().map(|p| p.id).collect();
    assert_eq!(red, vec![4]);
    let blue: Vec<u32> = r[1].blue_team_players.iter().map(|p| p.id).collect();
    assert_eq!(blue, vec![2]);
}
