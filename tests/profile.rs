use tfpugs_stats::lookup::LookupError;
use tfpugs_stats::player_elo;
use tfpugs_stats::players;
use tfpugs_stats::profile::get_player_combined_data;

fn player(id: u32, discord: Option<&str>, name: &str) -> players::Model {
    players::Model {
        id,
        discord_id: discord.map(|s| s.to_string()),
        created_at: 0,
        updated_at: 0,
        deleted_at: None,
        player_name: Some(name.to_string()),
        current_elo: None,
        visual_rank_override: None,
        pug_wins: None,
        pug_losses: None,
        pug_draws: None,
        dm_wins: None,
        dm_losses: None,
        achievements: None,
        dunce: None,
        steam_id: None,
    }
}

fn game(id: i32, at: i64, blue: &str, red: &str) -> tfpugs_stats::matches::Model {
    tfpugs_stats::matches::Model {
        created_at: at,
        updated_at: at,
        id,
        match_id: None,
        deleted_at: None,
        blue_probability: None,
        blue_rank: None,
        blue_team: Some(blue.to_string()),
        red_probability: None,
        red_rank: None,
        red_team: Some(red.to_string()),
        map: None,
        server: None,
        game_type: Some("4v4".to_string()),
        match_outcome: Some(1),
        winning_score: Some(3),
        losing_score: Some(1),
        stats_url: None,
    }
}

fn snapshot(id: i32, name: &str, at: i64) -> player_elo::Model {
    player_elo::Model {
        created_at: at,
        updated_at: at,
        id,
        entry_id: 1,
        match_id: id,
        player_name: name.to_string(),
        player_elo: 1000 + id,
        discord_id: 7,
    }
}

#[test]
fn profile_of_player_without_history() {
    let ps = vec![player(1, Some("7"), "Newcomer")];
    let ms = vec![game(1, 10, "8,9", "10,11")];
    let h = vec![snapshot(1, "Someone", 5)];
    let d = get_player_combined_data(&ps, &ms, &h, "newcomer").unwrap();
    assert_eq!(d.player, ps[0]);
    assert!(d.matches.is_empty());
    assert!(d.elo_history.is_empty());
}

#[test]
fn profile_of_unknown_player() {
    let ps = vec![player(1, Some("7"), "Newcomer")];
    let r = get_player_combined_data(&ps, &Vec::new(), &Vec::new(), "stranger");
    assert_eq!(r, Err(LookupError::NotFound));
}

#[test]
fn profile_orders_matches_and_history() {
    let ps = vec![player(1, Some("8"), "Other"), player(2, Some("7"), "Vet")];
    let mut gone = game(4, 40, "7", "1");
    gone.deleted_at = Some(41);
    let ms = vec![
        game(1, 10, "7,8", "9"),
        game(2, 30, "1", "2,7"),
        game(3, 20, "17", "27"),
        gone,
        game(5, 30, "7", "9"),
    ];
    let h = vec![snapshot(1, "vet", 20), snapshot(2, "Other", 5), snapshot(3, "VET", 10)];
    let d = get_player_combined_data(&ps, &ms, &h, "Vet").unwrap();
    assert_eq!(d.player.id, 2);
    let ids: Vec<i32> = d.matches.iter().map(|m| m.id).collect();
    assert_eq!(ids, vec![4, 2, 5, 1]);
    let snaps: Vec<i32> = d.elo_history.iter().map(|e| e.id).collect();
    assert_eq!(snaps, vec![3, 1]);
}

#[test]
fn profile_of_player_without_identifier_has_no_matches() {
    let ps = vec![player(1, None, "Ghost")];
    let ms = vec![game(1, 10, "", "1")];
    let d = get_player_combined_data(&ps, &ms, &Vec::new(), "ghost").unwrap();
    assert!(d.matches.is_empty());
}
