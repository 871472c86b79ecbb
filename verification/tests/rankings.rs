use std::collections::HashMap;

use sutom_scores::daily::{ordered_daily_scores_by_secs, DailyScores};
use sutom_scores::leaderboard::{scan_message, try_scan_message, Leaderboard};
use sutom_scores::player::{GlobalName, Score, User, UserWithGlobalName};
use sutom_scores::report::{daily_response, pp_daily, pp_times, times_response};
use sutom_scores::scan::{rescan_from, scan_step, Fetched, ScanStep};
use sutom_scores::times::{make_times, order_all_time, times_in};

fn make_fake_user(id: u64, name: &str) -> User {
    User {
        id,
        name: name.to_string(),
    }
}

#[test]
fn it_sorts() {
    let mut scores = DailyScores::new();
    scores.insert(make_fake_user(1, "alice"), Score { tries: 2, secs: 9 });
    scores.insert(make_fake_user(2, "bob"), Score { tries: 1, secs: 10 });
    scores.insert(make_fake_user(3, "charly"), Score { tries: 3, secs: 8 });

    let ordered = ordered_daily_scores_by_secs(&scores);

    let names: Vec<&String> = ordered.iter().map(|x| &x.0.name).collect();
    assert_eq!(names, vec!["charly", "alice", "bob"]);
}

#[test]
fn it_sorts_equal() {
    let mut scores = DailyScores::new();
    scores.insert(make_fake_user(1, "alice"), Score { tries: 2, secs: 9 });
    scores.insert(make_fake_user(2, "alice2"), Score { tries: 1, secs: 9 });
    scores.insert(make_fake_user(3, "bob"), Score { tries: 1, secs: 10 });
    scores.insert(make_fake_user(4, "charly"), Score { tries: 3, secs: 8 });

    let ordered = ordered_daily_scores_by_secs(&scores);

    let names: Vec<&String> = ordered.iter().map(|x| &x.0.name).collect();
    assert_eq!(names, vec!["charly", "alice2", "alice", "bob"]);
}

#[test]
fn equal_scores_are_all_ranked() {
    let mut scores = DailyScores::new();
    for id in 0..20 {
        scores.insert(make_fake_user(id, "x"), Score { tries: 2, secs: 9 });
    }
    scores.insert(make_fake_user(20, "best"), Score { tries: 1, secs: 9 });
    let ordered = ordered_daily_scores_by_secs(&scores);
    assert_eq!(ordered.len(), 21);
    assert_eq!(ordered[0].0.name, "best");
    let mut ids: Vec<u64> = ordered.iter().map(|x| x.0.id).collect();
    ids.sort();
    assert_eq!(ids, (0..21).collect::<Vec<u64>>());
    assert_eq!(ordered_daily_scores_by_secs(&DailyScores::new()).len(), 0);
}

#[test]
fn a_later_score_replaces_an_earlier_one() {
    let mut scores = DailyScores::new();
    scores.insert(make_fake_user(1, "alice"), Score { tries: 2, secs: 9 });
    scores.insert(make_fake_user(1, "alice renamed"), Score { tries: 3, secs: 20 });
    let ordered = ordered_daily_scores_by_secs(&scores);
    assert_eq!(ordered.len(), 1);
    assert_eq!(ordered[0].0.name, "alice");
    assert_eq!(*ordered[0].1, Score { tries: 3, secs: 20 });
}

fn three_days() -> Leaderboard {
    let mut leaderboard = Leaderboard::new();
    leaderboard.record(1, make_fake_user(1, "alice"), Score { tries: 2, secs: 9 });
    leaderboard.record(1, make_fake_user(2, "bob"), Score { tries: 1, secs: 10 });
    leaderboard.record(1, make_fake_user(3, "chary"), Score { tries: 3, secs: 12 });
    leaderboard.record(2, make_fake_user(1, "alice"), Score { tries: 2, secs: 14 });
    leaderboard.record(2, make_fake_user(2, "bob"), Score { tries: 1, secs: 1 });
    leaderboard.record(2, make_fake_user(3, "chary"), Score { tries: 3, secs: 2 });
    leaderboard.record(3, make_fake_user(1, "alice"), Score { tries: 2, secs: 7 });
    leaderboard.record(3, make_fake_user(2, "bob"), Score { tries: 1, secs: 19 });
    leaderboard.record(3, make_fake_user(3, "chary"), Score { tries: 3, secs: 32 });
    leaderboard
}

#[test]
fn it_makes_all_time() {
    let leaderboard = three_days();
    let board = make_times(&leaderboard, 0, 4);
    assert_eq!(
        pp_times(&board, 0, 4, &HashMap::new()),
        "Classement général (temps) depuis toujours:\n\n\
         1. alice 🥇x2 🥈x0 🥉x1\n\
         2. bob 🥇x1 🥈x2 🥉x0\n\
         3. chary 🥇x0 🥈x1 🥉x2\n"
    );
}

#[test]
fn it_makes_1_day() {
    let leaderboard = three_days();
    let board = make_times(&leaderboard, 2, 3);
    assert_eq!(
        pp_times(&board, 2, 3, &HashMap::new()),
        "Classement général (temps) pour les 1 derniers jeux:\n\n\
         1. bob 🥇x1 🥈x0 🥉x0\n\
         2. chary 🥇x0 🥈x1 🥉x0\n\
         3. alice 🥇x0 🥈x0 🥉x1\n"
    );
}

#[test]
fn positions_are_answered() {
    let mut names = HashMap::new();
    names.insert(2, UserWithGlobalName { global_name: Some("Bob".to_string()) });
    assert_eq!(
        times_response(&three_days(), 2, 3, &names),
        "Classement général (temps) pour les 1 derniers jeux:\n\n\
         1. Bob 🥇x1 🥈x0 🥉x0\n\
         2. chary 🥇x0 🥈x1 🥉x0\n\
         3. alice 🥇x0 🥈x0 🥉x1\n"
    );
    assert_eq!(
        times_response(&three_days(), 0, 4, &HashMap::new()),
        "Classement général (temps) depuis toujours:\n\n\
         1. alice 🥇x2 🥈x0 🥉x1\n\
         2. bob 🥇x1 🥈x2 🥉x0\n\
         3. chary 🥇x0 🥈x1 🥉x2\n"
    );
}

#[test]
fn today_and_grids_before_the_first_do_not_count() {
    let leaderboard = three_days();
    assert_eq!(order_all_time(&make_times(&leaderboard, 0, 1)).len(), 0);
    assert_eq!(order_all_time(&make_times(&leaderboard, 4, 10)).len(), 0);
    let board = make_times(&leaderboard, 1, 2);
    let ordered = order_all_time(&board);
    assert_eq!(ordered[0].0.name, "alice");
    assert_eq!(times_in(ordered[0].1, 0), 1);
    assert_eq!(times_in(ordered[0].1, 1), 0);
}

#[test]
fn each_grid_counts_once_for_each_player() {
    let board = make_times(&three_days(), 0, 4);
    for (_, counts) in order_all_time(&board) {
        assert_eq!(counts.values().sum::<usize>(), 3);
    }
}

#[test]
fn more_places_rank_first() {
    let mut leaderboard = Leaderboard::new();
    for (grid, first, second, third) in [(1, 1, 2, 3), (2, 2, 1, 3), (3, 3, 1, 2)] {
        leaderboard.record(grid, make_fake_user(first, "a"), Score { tries: 1, secs: 1 });
        leaderboard.record(grid, make_fake_user(second, "b"), Score { tries: 1, secs: 2 });
        leaderboard.record(grid, make_fake_user(third, "c"), Score { tries: 1, secs: 3 });
    }
    let board = make_times(&leaderboard, 0, 10);
    let ids: Vec<u64> = order_all_time(&board).iter().map(|x| x.0.id).collect();
    assert_eq!(ids, vec![1, 2, 3]);
}

#[test]
fn a_span_can_be_negative() {
    let board = make_times(&Leaderboard::new(), 7, 2);
    assert_eq!(
        pp_times(&board, 7, 2, &HashMap::new()),
        "Classement général (temps) pour les -5 derniers jeux:\n\n"
    );
}

#[test]
fn the_scores_of_a_grid_are_shown() {
    let mut leaderboard = Leaderboard::new();
    leaderboard.record(5, make_fake_user(1, "alice"), Score { tries: 2, secs: 9 });
    leaderboard.record(5, make_fake_user(2, "bob"), Score { tries: 1, secs: 3610 });
    leaderboard.record(5, make_fake_user(3, "chary"), Score { tries: 3, secs: 8 });
    leaderboard.record(5, make_fake_user(4, "dorothy"), Score { tries: 5, secs: 80 });
    leaderboard.record(5, make_fake_user(5, "eve"), Score { tries: 5, secs: 4000 });
    let mut names = HashMap::new();
    names.insert(
        3,
        UserWithGlobalName {
            global_name: Some("Charles".to_string()),
        },
    );
    names.insert(4, UserWithGlobalName { global_name: None });
    let shown = "Meilleurs temps #5\n\
                 1. 🥇 00:08 Charles\n\
                 2. 🥈 00:09 alice\n\
                 3. 🥉 01:20 dorothy\n\
                 4.       1h00:10 bob\n\
                 5.       1h06:40 eve\n";
    assert_eq!(pp_daily(&leaderboard, 5, &names), Ok(shown.to_string()));
    assert_eq!(daily_response(&leaderboard, 5, &names), shown);
    let none = "Pas de temps pour grille #6";
    assert_eq!(pp_daily(&leaderboard, 6, &names), Err(none.to_string()));
    assert_eq!(daily_response(&leaderboard, 6, &names), none);
}

#[test]
fn names_fall_back_to_the_account() {
    let user = make_fake_user(1, "alice");
    assert_eq!(user.global_name(None), "alice");
    let answer = UserWithGlobalName { global_name: None };
    assert_eq!(user.global_name(Some(&answer)), "alice");
    let answer = UserWithGlobalName {
        global_name: Some("Alice L.".to_string()),
    };
    assert_eq!(user.global_name(Some(&answer)), "Alice L.");
}

fn scores_of(leaderboard: &Leaderboard, grid: usize) -> Vec<(u64, Score)> {
    match leaderboard.get(grid) {
        Some(daily) => ordered_daily_scores_by_secs(daily)
            .iter()
            .map(|x| (x.0.id, *x.1))
            .collect(),
        None => Vec::new(),
    }
}

#[test]
fn messages_are_filed() {
    let mut leaderboard = Leaderboard::new();
    scan_message(&mut leaderboard, make_fake_user(1, "alice"), "SUTOM #3 2/6 00:09");
    scan_message(&mut leaderboard, make_fake_user(2, "bob"), "bonjour");
    assert_eq!(scores_of(&leaderboard, 3), vec![(1, Score { tries: 2, secs: 9 })]);
    assert!(leaderboard.get(4).is_none());
    assert_eq!(leaderboard.grids(), vec![3]);
    let unreadable = "SUTOM #99999999999999999999999 5/6 10:56";
    assert!(try_scan_message(&mut leaderboard, make_fake_user(1, "alice"), unreadable).is_err());
    assert_eq!(leaderboard.grids(), vec![3]);
    assert!(
        try_scan_message(&mut leaderboard, make_fake_user(2, "bob"), "SUTOM #3 1/6 00:08").is_ok()
    );
    assert_eq!(
        scores_of(&leaderboard, 3),
        vec![(2, Score { tries: 1, secs: 8 }), (1, Score { tries: 2, secs: 9 })]
    );
}

fn message(id: u64, content: &str, timestamp: i64) -> Option<Fetched> {
    Some(Fetched::Message {
        author: make_fake_user(id, "x"),
        content: content.to_string(),
        timestamp,
    })
}

#[test]
fn a_scan_stops_behind_the_first_older_message() {
    let mut board = Leaderboard::new();
    assert_eq!(
        scan_step(&mut board, message(1, "SUTOM #3 2/6 00:09", 100), 100),
        ScanStep::Continue
    );
    assert_eq!(scan_step(&mut board, Some(Fetched::Failed), 100), ScanStep::Continue);
    assert_eq!(
        scan_step(&mut board, message(2, "SUTOM #3 2/6 00:08", 99), 100),
        ScanStep::Stop
    );
    assert_eq!(
        scores_of(&board, 3),
        vec![(2, Score { tries: 2, secs: 8 }), (1, Score { tries: 2, secs: 9 })]
    );
    assert_eq!(scan_step(&mut board, None, 100), ScanStep::Stop);
    assert_eq!(
        scan_step(&mut board, message(2, "SUTOM #3 2/6 99999999999999999999h00:08", 99), 100),
        ScanStep::Unreadable
    );
    assert_eq!(rescan_from(1_000_000), 827_200);
}

#[test]
fn scanning_again_changes_nothing() {
    let mut board = Leaderboard::new();
    let mut seen = Vec::new();
    for _ in 0..2 {
        for (id, content) in [
            (1, "SUTOM #3 2/6 00:09"),
            (2, "SUTOM #3 2/6 00:10"),
            (1, "SUTOM #3 4/6 00:30"),
            (1, "SUTOM #4 4/6 00:30"),
        ] {
            assert_eq!(scan_step(&mut board, message(id, content, 5), 0), ScanStep::Continue);
        }
        seen.push((scores_of(&board, 3), scores_of(&board, 4)));
    }
    assert_eq!(seen[0], seen[1]);
    assert_eq!(
        seen[0].0,
        vec![(2, Score { tries: 2, secs: 10 }), (1, Score { tries: 4, secs: 30 })]
    );
}
