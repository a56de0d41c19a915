use summoner_tracker::dtos::game_dto::GameDto;
use summoner_tracker::dtos::log_dto::{ErrorType, LogDto};
use summoner_tracker::dtos::summoner_dto::SummonerDto;
use summoner_tracker::store::Store;

fn game(id: &str, summoner_id: &str, notified: bool, kills: i64) -> GameDto {
    GameDto {
        id: id.to_string(),
        summoner_id: summoner_id.to_string(),
        created_at: None,
        updated_at: None,
        game_created_at: 1_700_000_000,
        assists: 3,
        deaths: 1,
        kills,
        win: false,
        notified,
        champion_name: "Sona".to_string(),
        game_mode: "ARAM".to_string(),
        lp_change: None,
        promotion_text: Some("Promoted to Gold IV".to_string()),
    }
}

fn summoner(id: &str, name: &str) -> SummonerDto {
    SummonerDto {
        id: id.to_string(),
        name: name.to_string(),
        guild_id: 1,
        created_at: None,
        updated_at: None,
        queue_type: None,
        tier: None,
        lp: None,
        division: None,
        icon_url: "https://example.invalid/i.png".to_string(),
    }
}

#[test]
fn insert_or_ignore_is_idempotent_per_match_id() {
    let mut store = Store::new();
    game("M1", "P1", false, 11).insert_or_ignore(&mut store);

    // The second payload shares only the id; nothing of it may stick.
    let mut second = game("M1", "P9", true, 0);
    second.game_mode = "Ranked Flex".to_string();
    second.insert_or_ignore(&mut store);

    let stored = GameDto::get_all(&store);
    assert_eq!(stored.len(), 1);
    assert_eq!(stored[0].summoner_id, "P1");
    assert_eq!(stored[0].kills, 11);
    assert_eq!(stored[0].game_mode, "ARAM");
    assert!(!stored[0].notified);
}

#[test]
fn upsert_overwrites_by_match_id() {
    let mut store = Store::new();
    game("M1", "P1", false, 11).insert_or_ignore(&mut store);
    game("M1", "P1", true, 4).upsert(&mut store);
    game("M2", "P1", false, 2).upsert(&mut store);

    let stored = GameDto::get_all(&store);
    assert_eq!(stored.len(), 2);
    assert_eq!(stored[0].kills, 4);
    assert!(stored[0].notified);
    assert_eq!(stored[1].id, "M2");
}

#[test]
fn unnotified_selection_filters_by_owner_and_flag() {
    let mut store = Store::new();
    game("M1", "P1", false, 1).insert_or_ignore(&mut store);
    game("M2", "P1", true, 1).insert_or_ignore(&mut store);
    game("M3", "P2", false, 1).insert_or_ignore(&mut store);

    let pending = GameDto::get_unnotified_games_for_summoner(&store, &"P1".to_string());
    assert_eq!(pending.len(), 1);
    assert_eq!(pending[0].id, "M1");
}

#[test]
fn set_all_notified_touches_only_the_flag() {
    let mut store = Store::new();
    game("M1", "P1", false, 8).insert_or_ignore(&mut store);
    game("M2", "P2", false, 9).insert_or_ignore(&mut store);
    GameDto::set_all_notified(&mut store);

    let stored = GameDto::get_all(&store);
    assert!(stored.iter().all(|g| g.notified));
    assert_eq!(stored[0].kills, 8);
    assert_eq!(stored[1].kills, 9);
}

#[test]
fn summoner_lookup_and_guild_resolution() {
    let mut store = Store::new();
    summoner("P1", "Ada").insert_or_ignore(&mut store);

    let found = SummonerDto::get(&store, &"P1".to_string());
    assert!(found.is_some());
    assert_eq!(found.unwrap().name, "Ada");
    assert!(SummonerDto::get(&store, &"P2".to_string()).is_none());

    // The owning guild is not recorded yet.
    let s = SummonerDto::get(&store, &"P1".to_string()).unwrap();
    assert!(s.get_guild(&store).is_none());
}

#[test]
fn summoner_insert_or_ignore_keeps_first_row() {
    let mut store = Store::new();
    summoner("P1", "Ada").insert_or_ignore(&mut store);
    summoner("P1", "Someone Else").insert_or_ignore(&mut store);
    assert_eq!(store.summoners.len(), 1);
    assert_eq!(store.summoners[0].name, "Ada");
}

#[test]
fn log_entries_append_in_order() {
    let mut store = Store::new();
    LogDto::info(&mut store, "starting up");
    LogDto::error(&mut store, "fetch failed");
    LogDto::new("third", ErrorType::Info).create(&mut store);

    let logs = LogDto::get_all(&store);
    assert_eq!(logs.len(), 3);
    assert_eq!(logs[0].message, "starting up");
    assert!(matches!(logs[0].error_type, ErrorType::Info));
    assert_eq!(logs[1].message, "fetch failed");
    assert!(matches!(logs[1].error_type, ErrorType::Error));
    assert_eq!(logs[2].message, "third");
    assert!(logs[2].id.is_none());
    assert!(logs[2].created_at.is_none());
}

#[test]
fn severity_text_round_trips() {
    assert_eq!(ErrorType::Info.to_text(), "info");
    assert_eq!(ErrorType::Error.to_text(), "error");
    assert!(matches!(ErrorType::from_text("info"), Some(ErrorType::Info)));
    assert!(matches!(ErrorType::from_text("error"), Some(ErrorType::Error)));
    assert!(ErrorType::from_text("warning").is_none());
    assert!(ErrorType::from_text("").is_none());
}
