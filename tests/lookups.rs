use tfpugs_stats::lookup::LookupError;
use tfpugs_stats::player_elo;
use tfpugs_stats::players::{get_by_discord_id, get_by_name, get_one, Model};
use tfpugs_stats::text::{fold_case, names_match};

fn player(id: u32, discord: Option<&str>, name: Option<&str>) -> Model {
    Model {
        id,
        discord_id: discord.map(|s| s.to_string()),
        created_at: 0,
        updated_at: 0,
        deleted_at: None,
        player_name: name.map(|s| s.to_string()),
        current_elo: Some(1000),
        visual_rank_override: None,
        pug_wins: Some(0),
        pug_losses: Some(0),
        pug_draws: Some(0),
        dm_wins: None,
        dm_losses: None,
        achievements: None,
        dunce: None,
        steam_id: None,
    }
}

fn roster() -> Vec<Model> {
    vec![
        player(1, Some("100"), Some("Alice")),
        player(2, None, Some("bob")),
        player(3, Some("300"), None),
        player(4, Some("400"), Some("ALICE")),
    ]
}

#[test]
fn name_lookup_ignores_case() {
    let ps = roster();
    assert_eq!(get_by_name(&ps, "alice").unwrap().id, 1);
    assert_eq!(get_by_name(&ps, "BOB").unwrap().id, 2);
}

#[test]
fn name_lookup_misses() {
    let ps = roster();
    assert_eq!(get_by_name(&ps, "carol"), Err(LookupError::NotFound));
    assert_eq!(get_by_name(&ps, ""), Err(LookupError::NotFound));
    assert_eq!(get_by_name(&Vec::new(), "alice"), Err(LookupError::NotFound));
}

#[test]
fn lookup_by_primary_key() {
    let ps = roster();
    assert_eq!(get_one(&ps, 3).unwrap(), ps[2]);
    assert_eq!(get_one(&ps, 9), Err(LookupError::NotFound));
}

#[test]
fn lookup_by_external_identifier() {
    let ps = roster();
    assert_eq!(get_by_discord_id(&ps, "400").unwrap().id, 4);
    assert_eq!(get_by_discord_id(&ps, "40"), Err(LookupError::NotFound));
}

#[test]
fn case_folding() {
    assert_eq!(fold_case("\u{c4}bC"), "\u{e4}bc");
    assert!(names_match("Zo\u{eb}", "ZO\u{cb}"));
    assert!(!names_match("Zoe", "Zo\u{eb}"));
}

fn snapshot(id: i32, name: &str, elo: i32, at: i64) -> player_elo::Model {
    player_elo::Model {
        created_at: at,
        updated_at: at,
        id,
        entry_id: id,
        match_id: id,
        player_name: name.to_string(),
        player_elo: elo,
        discord_id: 100,
    }
}

#[test]
fn rating_history_oldest_first() {
    let h = vec![
        snapshot(1, "Alice", 1010, 30),
        snapshot(2, "bob", 990, 10),
        snapshot(3, "alice", 1000, 10),
        snapshot(4, "ALICE", 1020, 30),
        snapshot(5, "Alice", 1030, 20),
    ];
    let r = player_elo::get_player_elo_by_player_name(&h, "Alice");
    let ids: Vec<i32> = r.iter().map(|e| e.id).collect();
    assert_eq!(ids, vec![3, 5, 1, 4]);
    assert!(player_elo::get_player_elo_by_player_name(&h, "carol").is_empty());
}

#[test]
fn rating_history_under_exact_name() {
    let h = vec![
        snapshot(1, "Alice", 1010, 30),
        snapshot(2, "alice", 990, 10),
        snapshot(3, "Alice", 1000, 10),
    ];
    let r = player_elo::get_player_elos_by_player_name(&h, "Alice");
    let ids: Vec<i32> = r.iter().map(|e| e.id).collect();
    assert_eq!(ids, vec![3, 1]);
    assert!(player_elo::get_player_elos_by_player_name(&h, "ALICE").is_empty());
}
