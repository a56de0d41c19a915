use summoner_tracker::dtos::active_game_dto::ActiveGameDto;
use summoner_tracker::dtos::game_dto::GameDto;
use summoner_tracker::dtos::guild_dto::GuildDto;
use summoner_tracker::dtos::log_dto::ErrorType;
use summoner_tracker::dtos::summoner_dto::SummonerDto;
use summoner_tracker::facade::{Facade, SummonerFetch};

fn summoner(id: &str, name: &str, guild_id: i64) -> SummonerDto {
    SummonerDto {
        id: id.to_string(),
        name: name.to_string(),
        guild_id,
        created_at: None,
        updated_at: None,
        queue_type: Some("Soloqueue".to_string()),
        tier: Some("Gold".to_string()),
        lp: Some(37),
        division: Some("II".to_string()),
        icon_url: "https://example.invalid/icon.png".to_string(),
    }
}

fn game(id: &str, summoner_id: &str, notified: bool) -> GameDto {
    GameDto {
        id: id.to_string(),
        summoner_id: summoner_id.to_string(),
        created_at: None,
        updated_at: None,
        game_created_at: 1_700_000_000,
        assists: 7,
        deaths: 2,
        kills: 11,
        win: true,
        notified,
        champion_name: "Ahri".to_string(),
        game_mode: "Ranked Solo/Duo".to_string(),
        lp_change: Some(17),
        promotion_text: None,
    }
}

fn active_game(id: &str, summoner_id: &str) -> ActiveGameDto {
    ActiveGameDto {
        id: id.to_string(),
        summoner_id: summoner_id.to_string(),
        created_at: None,
        game_created_at: 1_700_000_100,
        champion: "Lux".to_string(),
        role: "Mid".to_string(),
        spectate_link: "https://example.invalid/spectate".to_string(),
        notified: false,
        game_mode: "Ranked Solo/Duo".to_string(),
    }
}

fn unnotified_ids_for(facade: &Facade, summoner_id: &str) -> Vec<String> {
    GameDto::get_unnotified_games_for_summoner(&facade.store, &summoner_id.to_string())
        .into_iter()
        .map(|g| g.id)
        .collect()
}

#[test]
fn add_user_marks_pre_existing_history() {
    let mut facade = Facade::new();
    facade.init_guild(42, Some(99), "guild".to_string());
    let games = vec![
        game("M1", "P1", false),
        game("M2", "P1", false),
        game("M3", "P1", false),
        game("M4", "P1", false),
        game("M5", "P1", false),
    ];
    facade.add_user(summoner("P1", "Ada", 42), games);

    let stored = GameDto::get_all(&facade.store);
    assert_eq!(stored.len(), 5);
    for g in &stored {
        assert!(g.notified);
    }
    assert!(unnotified_ids_for(&facade, "P1").is_empty());
}

#[test]
fn delete_user_cascades_to_matches() {
    let mut facade = Facade::new();
    facade.init_guild(42, None, "guild".to_string());
    facade.add_user(summoner("P1", "Ada", 42), vec![game("M1", "P1", false)]);
    facade.add_user(summoner("P2", "Grace", 42), vec![game("N1", "P2", false)]);
    let fetched = vec![SummonerFetch {
        summoner: summoner("P1", "Ada", 42),
        games: vec![game("M2", "P1", false), game("M3", "P1", false)],
    }];
    facade.summoner_api_worker(&fetched);

    facade.delete_user(&"Ada".to_string());

    assert_eq!(facade.store.summoners.len(), 1);
    assert_eq!(facade.store.summoners[0].id, "P2");
    let remaining = GameDto::get_all(&facade.store);
    assert!(!remaining.is_empty());
    for g in &remaining {
        assert_ne!(g.summoner_id, "P1");
    }
}

#[test]
fn startup_reconciliation_marks_everything() {
    let mut facade = Facade::new();
    facade.init_guild(42, Some(5), "guild".to_string());
    facade.add_user(summoner("P1", "Ada", 42), vec![]);
    let fetched = vec![SummonerFetch {
        summoner: summoner("P1", "Ada", 42),
        games: vec![game("M1", "P1", false), game("M2", "P1", false)],
    }];
    facade.summoner_api_worker(&fetched);
    assert_eq!(unnotified_ids_for(&facade, "P1"), vec!["M1", "M2"]);

    facade.startup_tasks(vec![game("M2", "P1", false), game("M3", "P1", false)]);

    let stored = GameDto::get_all(&facade.store);
    assert_eq!(stored.len(), 3);
    for g in &stored {
        assert!(g.notified);
    }
}

#[test]
fn refresh_never_resets_notified() {
    let mut facade = Facade::new();
    facade.init_guild(42, Some(5), "guild".to_string());
    facade.add_user(summoner("P1", "Ada", 42), vec![game("M1", "P1", false)]);
    let stored = GameDto::get_all(&facade.store);
    assert!(stored[0].notified);

    // The provider returns the same match again, unnotified and with other
    // stats: the stored row must stay exactly as it was.
    let mut replay = game("M1", "P1", false);
    replay.kills = 0;
    let fetched = vec![SummonerFetch { summoner: summoner("P1", "Ada", 42), games: vec![replay] }];
    facade.summoner_api_worker(&fetched);

    let stored = GameDto::get_all(&facade.store);
    assert_eq!(stored.len(), 1);
    assert!(stored[0].notified);
    assert_eq!(stored[0].kills, 11);
}

#[test]
fn notifier_without_destination_marks_but_delivers_nothing() {
    let mut facade = Facade::new();
    facade.init_guild(42, None, "guild".to_string());
    facade.add_user(summoner("P1", "Ada", 42), vec![]);
    let fetched = vec![SummonerFetch {
        summoner: summoner("P1", "Ada", 42),
        games: vec![game("M1", "P1", false)],
    }];
    facade.summoner_api_worker(&fetched);
    assert_eq!(unnotified_ids_for(&facade, "P1"), vec!["M1"]);

    let notifs = facade.game_watcher_worker();

    assert!(notifs.is_empty());
    assert!(unnotified_ids_for(&facade, "P1").is_empty());
    let logs = &facade.store.logs;
    assert_eq!(logs.len(), 1);
    assert_eq!(logs[0].message, "No chat channel set for guild: 42");
    assert!(matches!(logs[0].error_type, ErrorType::Error));
}

#[test]
fn notifier_with_destination_delivers_once_per_new_match() {
    let mut facade = Facade::new();
    facade.init_guild(42, Some(777), "guild".to_string());
    facade.add_user(
        summoner("P1", "Ada", 42),
        vec![game("M1", "P1", false), game("M2", "P1", false)],
    );
    let fetched = vec![SummonerFetch {
        summoner: summoner("P1", "Ada", 42),
        games: vec![game("M1", "P1", false), game("M2", "P1", false), game("M3", "P1", false)],
    }];
    facade.summoner_api_worker(&fetched);

    let notifs = facade.game_watcher_worker();

    assert_eq!(notifs.len(), 1);
    assert_eq!(notifs[0].channel_id, 777);
    assert_eq!(notifs[0].summoner.name, "Ada");
    assert_eq!(notifs[0].game.id, "M3");
    assert!(unnotified_ids_for(&facade, "P1").is_empty());
    assert!(facade.store.logs.is_empty());

    // A second cycle finds nothing left to deliver.
    let notifs = facade.game_watcher_worker();
    assert!(notifs.is_empty());
}

#[test]
fn end_to_end_without_destination() {
    let mut facade = Facade::new();
    facade.init_guild(42, None, "guild".to_string());
    facade.add_user(
        summoner("P1", "Ada", 42),
        vec![game("M1", "P1", false), game("M2", "P1", false)],
    );

    let stored = GameDto::get_all(&facade.store);
    assert_eq!(stored.len(), 2);
    assert!(stored.iter().all(|g| g.notified));
    assert_eq!(facade.store.summoners.len(), 1);
    assert_eq!(facade.store.summoners[0].id, "P1");

    let fetched = vec![SummonerFetch {
        summoner: summoner("P1", "Ada", 42),
        games: vec![game("M1", "P1", false), game("M2", "P1", false), game("M3", "P1", false)],
    }];
    facade.summoner_api_worker(&fetched);
    assert_eq!(unnotified_ids_for(&facade, "P1"), vec!["M3"]);

    let notifs = facade.game_watcher_worker();

    // No destination: zero delivery attempts, and M3 still ends notified.
    assert!(notifs.is_empty());
    let stored = GameDto::get_all(&facade.store);
    assert_eq!(stored.len(), 3);
    assert!(stored.iter().all(|g| g.notified));
}

#[test]
fn live_match_discovery_is_idempotent() {
    let mut facade = Facade::new();
    facade.init_guild(42, Some(5), "guild".to_string());
    facade.add_user(summoner("P1", "Ada", 42), vec![]);

    facade.active_game_api_worker(&vec![Some(active_game("G1", "P1")), None]);
    facade.active_game_api_worker(&vec![Some(active_game("G1", "P1"))]);

    assert_eq!(facade.store.active_games.len(), 1);
    let pending = ActiveGameDto::get_unnotified_active_games(&facade.store);
    assert_eq!(pending.len(), 1);
    assert_eq!(pending[0].id, "G1");
}

#[test]
fn live_match_notifier_delivers_and_marks() {
    let mut facade = Facade::new();
    facade.init_guild(42, Some(5), "guild".to_string());
    facade.add_user(summoner("P1", "Ada", 42), vec![]);
    facade.active_game_api_worker(&vec![Some(active_game("G1", "P1"))]);

    let notifs = facade.active_game_watcher_worker();
    assert_eq!(notifs.len(), 1);
    assert_eq!(notifs[0].channel_id, 5);
    assert_eq!(notifs[0].summoner.id, "P1");
    assert_eq!(notifs[0].active_game.id, "G1");
    assert!(ActiveGameDto::get_unnotified_active_games(&facade.store).is_empty());

    // A re-discovery of the same running match stays a no-op.
    facade.active_game_api_worker(&vec![Some(active_game("G1", "P1"))]);
    let notifs = facade.active_game_watcher_worker();
    assert!(notifs.is_empty());
}

#[test]
fn live_match_notifier_without_destination_marks_and_logs() {
    let mut facade = Facade::new();
    facade.init_guild(42, None, "guild".to_string());
    facade.add_user(summoner("P1", "Ada", 42), vec![]);
    facade.active_game_api_worker(&vec![Some(active_game("G1", "P1"))]);

    let notifs = facade.active_game_watcher_worker();
    assert!(notifs.is_empty());
    assert!(ActiveGameDto::get_unnotified_active_games(&facade.store).is_empty());
    assert_eq!(facade.store.logs.len(), 1);
    assert_eq!(facade.store.logs[0].message, "No chat channel set for guild: 42");
}

#[test]
fn live_match_of_unknown_player_is_left_pending() {
    let mut facade = Facade::new();
    facade.init_guild(42, Some(5), "guild".to_string());
    facade.active_game_api_worker(&vec![Some(active_game("G1", "ghost"))]);

    let notifs = facade.active_game_watcher_worker();
    assert!(notifs.is_empty());
    assert_eq!(ActiveGameDto::get_unnotified_active_games(&facade.store).len(), 1);
    assert_eq!(facade.store.logs.len(), 1);
    assert_eq!(facade.store.logs[0].message, "No summoner found: ghost");
    assert!(matches!(facade.store.logs[0].error_type, ErrorType::Error));
}

#[test]
fn live_match_without_recorded_guild_is_left_pending_and_logged() {
    let mut facade = Facade::new();
    // The player's guild 42 was never recorded.
    facade.add_user(summoner("P1", "Ada", 42), vec![]);
    facade.active_game_api_worker(&vec![Some(active_game("G1", "P1"))]);

    let notifs = facade.active_game_watcher_worker();
    assert!(notifs.is_empty());
    assert_eq!(ActiveGameDto::get_unnotified_active_games(&facade.store).len(), 1);
    assert_eq!(facade.store.logs.len(), 1);
    assert_eq!(facade.store.logs[0].message, "No guild found: 42");
}

#[test]
fn match_of_player_without_recorded_guild_is_left_pending_and_logged() {
    let mut facade = Facade::new();
    // The player's guild 42 was never recorded.
    facade.add_user(summoner("P1", "Ada", 42), vec![]);
    let fetched = vec![SummonerFetch {
        summoner: summoner("P1", "Ada", 42),
        games: vec![game("M1", "P1", false)],
    }];
    facade.summoner_api_worker(&fetched);

    let notifs = facade.game_watcher_worker();
    assert!(notifs.is_empty());
    // The match stays pending for the next cycle, and the cycle said why.
    assert_eq!(unnotified_ids_for(&facade, "P1"), vec!["M1"]);
    assert_eq!(facade.store.logs.len(), 1);
    assert_eq!(facade.store.logs[0].message, "No guild found: 42");
    assert!(matches!(facade.store.logs[0].error_type, ErrorType::Error));

    // Once the guild is reconciled, the next cycle marks and delivers.
    facade.init_guild_channel(42, Some(7), "guild".to_string());
    let notifs = facade.game_watcher_worker();
    assert_eq!(notifs.len(), 1);
    assert_eq!(notifs[0].game.id, "M1");
    assert!(unnotified_ids_for(&facade, "P1").is_empty());
}

#[test]
fn guild_reconciliation_creates_or_updates() {
    let mut facade = Facade::new();

    // Reconciling an unrecorded guild creates the row.
    facade.init_guild_channel(42, Some(7), "first".to_string());
    assert_eq!(facade.store.guilds.len(), 1);
    assert_eq!(facade.store.guilds[0].id, 42);
    assert_eq!(facade.store.guilds[0].chat_channel_id, Some(7));
    assert_eq!(facade.store.guilds[0].name, "first");

    // Reconciling a recorded guild overwrites destination and name in place.
    facade.init_guild_channel(42, Some(9), "renamed".to_string());
    assert_eq!(facade.store.guilds.len(), 1);
    assert_eq!(facade.store.guilds[0].chat_channel_id, Some(9));
    assert_eq!(facade.store.guilds[0].name, "renamed");

    // Other guilds are untouched.
    facade.init_guild_channel(7, None, "other".to_string());
    assert_eq!(facade.store.guilds.len(), 2);
    assert_eq!(facade.store.guilds[0].chat_channel_id, Some(9));
    assert_eq!(facade.store.guilds[1].id, 7);
    assert_eq!(facade.store.guilds[1].chat_channel_id, None);
}

#[test]
fn guild_updates_change_destination() {
    let mut facade = Facade::new();
    facade.init_guild(42, None, "first".to_string());
    // A second first-contact for the same guild is ignored.
    facade.init_guild(42, Some(1), "second".to_string());
    assert_eq!(facade.store.guilds.len(), 1);
    assert_eq!(facade.store.guilds[0].chat_channel_id, None);
    assert_eq!(facade.store.guilds[0].name, "first");

    facade.update_guild_channel(42, Some(9), "renamed".to_string());
    assert_eq!(facade.store.guilds[0].chat_channel_id, Some(9));
    assert_eq!(facade.store.guilds[0].name, "renamed");

    // Updating an unknown guild changes nothing.
    facade.update_guild_channel(7, Some(3), "other".to_string());
    assert_eq!(facade.store.guilds.len(), 1);
}

#[test]
fn profile_refresh_overwrites_rank_snapshot() {
    let mut facade = Facade::new();
    facade.init_guild(42, Some(5), "guild".to_string());
    facade.add_user(summoner("P1", "Ada", 42), vec![]);

    let mut refreshed = summoner("P1", "Ada", 42);
    refreshed.tier = Some("Platinum".to_string());
    refreshed.lp = Some(1);
    facade.summoner_api_worker(&vec![SummonerFetch { summoner: refreshed, games: vec![] }]);

    assert_eq!(facade.store.summoners.len(), 1);
    assert_eq!(facade.store.summoners[0].tier, Some("Platinum".to_string()));
    assert_eq!(facade.store.summoners[0].lp, Some(1));
}
