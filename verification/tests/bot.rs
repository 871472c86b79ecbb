use sutom_scores::bot::{
    can_be_requested, current_grid, message_actions, plan_actions, previous_grid,
    recent_from, try_message_actions, Action, DailyLoop, Handler, REFUSAL,
};
use sutom_scores::clock::{
    grid_from_midnights, pacific_now, sutom_grid_number, sutom_grid_number_at, FIRST_MILLIS,
    LAST_MILLIS,
};

#[test]
fn grid_id() {
    println!("{:?}", sutom_grid_number());
}

#[test]
fn the_grid_of_today_is_known() {
    assert!(sutom_grid_number() > 1000);
    let clock = pacific_now();
    assert!(clock.year >= 2024 && clock.hour < 24 && clock.minute < 60);
}

#[test]
fn grids_change_at_midnight_on_the_pacific_coast() {
    // 2022-01-08, winter time
    assert_eq!(sutom_grid_number_at(1_641_628_799_999), Some(0));
    assert_eq!(sutom_grid_number_at(1_641_628_800_000), Some(1));
    // 2022-03-13 and 2022-03-14, the change to summer time
    assert_eq!(sutom_grid_number_at(1_647_158_400_000), Some(65));
    assert_eq!(sutom_grid_number_at(1_647_241_199_999), Some(65));
    assert_eq!(sutom_grid_number_at(1_647_241_200_000), Some(66));
    // 2022-07-01, summer time
    assert_eq!(sutom_grid_number_at(1_656_658_799_999), Some(174));
    assert_eq!(sutom_grid_number_at(1_656_658_800_000), Some(175));
    // out of range
    assert_eq!(sutom_grid_number_at(FIRST_MILLIS - 1), None);
    assert_eq!(sutom_grid_number_at(LAST_MILLIS + 1), None);
    assert_eq!(sutom_grid_number_at(i64::MAX), None);
    assert_eq!(sutom_grid_number_at(i64::MIN), None);
}

#[test]
fn grids_follow_the_calendar() {
    const HOUR: i64 = 3_600_000;
    const DAY: i64 = 24 * HOUR;
    // from 1970-01-02 to 2110-01-01
    for days in 1..51_134 {
        let grid = days - 18_999;
        assert_eq!(sutom_grid_number_at(days * DAY + 7 * HOUR - 1), Some(grid - 1));
        assert_eq!(sutom_grid_number_at(days * DAY + 8 * HOUR), Some(grid));
        let summer = sutom_grid_number_at(days * DAY + 7 * HOUR);
        assert_eq!(summer, sutom_grid_number_at(days * DAY + 8 * HOUR - 1));
        assert!(summer == Some(grid) || summer == Some(grid - 1));
    }
    // 1969-12-31
    assert_eq!(sutom_grid_number_at(0), Some(-19_000));
    // 2400-02-29, 9999-12-31 and 100000-03-01
    for days in [157113, 2932896, 35804782] {
        let grid = days - 18_999;
        assert_eq!(sutom_grid_number_at(days * DAY + 8 * HOUR - 1), Some(grid - 1));
        assert_eq!(sutom_grid_number_at(days * DAY + 8 * HOUR), Some(grid));
    }
    // 262142-12-31, the last date
    assert_eq!(sutom_grid_number_at(LAST_MILLIS), Some(95007237));
    assert_eq!(sutom_grid_number_at(LAST_MILLIS - 16 * HOUR + 1), Some(95007237));
    assert_eq!(sutom_grid_number_at(LAST_MILLIS - 16 * HOUR), Some(95007236));
}

#[test]
fn days_are_rounded() {
    assert_eq!(grid_from_midnights(0, 0), 1);
    assert_eq!(grid_from_midnights(43_199_999, 0), 1);
    assert_eq!(grid_from_midnights(43_200_000, 0), 2);
    assert_eq!(grid_from_midnights(-43_199_999, 0), 1);
    assert_eq!(grid_from_midnights(-43_200_000, 0), 0);
    assert_eq!(grid_from_midnights(10 * 86_400_000 - 3_600_000, 0), 11);
    assert_eq!(grid_from_midnights(10 * 86_400_000 + 3_600_000, 0), 11);
    for days in [-700i64, -1, 0, 1, 365, 1400] {
        for shift in [-3_600_000i64, 0, 3_600_000] {
            let exact = (((days * 86_400_000 + shift) as f64) / 86_400_000f64).round() as i64 + 1;
            assert_eq!(grid_from_midnights(days * 86_400_000 + shift + 99, 99), exact);
        }
    }
    assert_eq!(grid_from_midnights(i64::MAX, i64::MIN), 213_503_982_336);
}

#[test]
fn own_messages_are_ignored() {
    assert_eq!(message_actions(1, 1, 1, "!scan_all"), vec![]);
    assert_eq!(try_message_actions(1, 1, 2, "!score 99999999999999999999999"), Ok(vec![]));
}

#[test]
fn other_messages_are_scanned() {
    assert_eq!(message_actions(2, 1, 3, "bonjour"), vec![Action::ScanMessage]);
}

#[test]
fn only_the_admin_scans_all() {
    assert_eq!(
        message_actions(3, 1, 3, "!scan_all"),
        vec![Action::ScanAll, Action::ScanMessage]
    );
    assert_eq!(
        message_actions(2, 1, 3, "!scan_all"),
        vec![Action::Refuse, Action::ScanMessage]
    );
    assert_eq!(message_actions(3, 1, 3, "!scan_all "), vec![Action::ScanMessage]);
    assert_eq!(REFUSAL, "ah ah ah you didn't say the magic word");
}

#[test]
fn scores_are_requested() {
    for content in ["!score", "!scores", "alors !scores ?", "!scores #", "!score s 254", "!scores # x254"] {
        assert_eq!(
            message_actions(2, 1, 3, content),
            vec![Action::SendScoresNow, Action::ScanMessage]
        );
    }
    for content in [
        "!score 254",
        "!scores254",
        "!score #254",
        "!scores \t#\n 254 merci",
        "voir !score#254, pas !score 12",
        "!scores #00254",
    ] {
        assert_eq!(
            message_actions(2, 1, 3, content),
            vec![Action::SendScoresForGrid(254), Action::ScanMessage]
        );
    }
    assert_eq!(message_actions(2, 1, 3, "score 254"), vec![Action::ScanMessage]);
}

#[test]
fn positions_are_requested() {
    assert_eq!(
        message_actions(2, 1, 3, "!all_time"),
        vec![Action::SendTimeScores(0), Action::ScanMessage]
    );
    assert_eq!(
        message_actions(2, 1, 3, "!last_30"),
        vec![Action::SendRecentTimeScores, Action::ScanMessage]
    );
    assert_eq!(recent_from(100), 70);
    assert_eq!(recent_from(20), -10i64 as usize);
}

#[test]
fn a_request_without_a_number_is_for_today() {
    for content in ["!score #abc", "!scores # abc", "!score é", "!score ##254", "!score s254", "!scores\u{a0}#\u{3000}é"] {
        assert_eq!(
            message_actions(2, 1, 3, content),
            vec![Action::SendScoresNow, Action::ScanMessage]
        );
    }
}

#[test]
fn the_blanks_of_all_scripts_are_skipped() {
    let blanks = [
        (0x9, 0xd),
        (0x20, 0x20),
        (0x85, 0x85),
        (0xa0, 0xa0),
        (0x1680, 0x1680),
        (0x2000, 0x200a),
        (0x2028, 0x2029),
        (0x202f, 0x202f),
        (0x205f, 0x205f),
        (0x3000, 0x3000),
    ];
    for (first, last) in blanks {
        for (code, skipped) in [(first - 1, false), (first, true), (last, true), (last + 1, false)] {
            let content = format!("!score{}254", char::from_u32(code).unwrap());
            let action = if skipped {
                Action::SendScoresForGrid(254)
            } else {
                Action::SendScoresNow
            };
            assert_eq!(message_actions(2, 1, 3, &content), vec![action, Action::ScanMessage]);
        }
    }
}

#[test]
fn the_digits_of_all_scripts_make_up_numbers() {
    let digits = [
        (0x660, 10), (0x6f0, 10), (0x7c0, 10), (0x966, 10), (0x9e6, 10), (0xa66, 10), (0xae6, 10),
        (0xb66, 10), (0xbe6, 10), (0xc66, 10), (0xce6, 10), (0xd66, 10), (0xde6, 10), (0xe50, 10),
        (0xed0, 10), (0xf20, 10), (0x1040, 10), (0x1090, 10), (0x17e0, 10), (0x1810, 10),
        (0x1946, 10), (0x19d0, 10), (0x1a80, 10), (0x1a90, 10), (0x1b50, 10), (0x1bb0, 10),
        (0x1c40, 10), (0x1c50, 10), (0xa620, 10), (0xa8d0, 10), (0xa900, 10), (0xa9d0, 10),
        (0xa9f0, 10), (0xaa50, 10), (0xabf0, 10), (0xff10, 10), (0x104a0, 10), (0x10d30, 10),
        (0x10d40, 10), (0x11066, 10), (0x110f0, 10), (0x11136, 10), (0x111d0, 10), (0x112f0, 10),
        (0x11450, 10), (0x114d0, 10), (0x11650, 10), (0x116c0, 10), (0x116d0, 20), (0x11730, 10),
        (0x118e0, 10), (0x11950, 10), (0x11bf0, 10), (0x11c50, 10), (0x11d50, 10), (0x11da0, 10),
        (0x11f50, 10), (0x16130, 10), (0x16a60, 10), (0x16ac0, 10), (0x16b50, 10), (0x16d70, 10),
        (0x1ccf0, 10), (0x1d7ce, 50), (0x1e140, 10), (0x1e2f0, 10), (0x1e4f0, 10), (0x1e5f1, 10),
        (0x1e950, 10), (0x1fbf0, 10),
    ];
    for (zero, count) in digits {
        let places = [(zero - 1, true), (zero, false), (zero + count - 1, false), (zero + count, true)];
        for (code, readable) in places {
            let content = format!("!score {}", char::from_u32(code).unwrap());
            assert_eq!(can_be_requested(&content), readable);
        }
    }
}

#[test]
fn a_grid_that_cannot_be_read_is_an_error() {
    for content in ["!score 99999999999999999999999", "!score ٣"] {
        assert!(try_message_actions(2, 1, 3, content).is_err());
        assert!(!can_be_requested(content));
    }
    assert!(can_be_requested("!score 3"));
    assert!(can_be_requested("bonjour"));
    assert_eq!(
        try_message_actions(2, 1, 3, "!score 3"),
        Ok(vec![Action::SendScoresForGrid(3), Action::ScanMessage])
    );
}

#[test]
fn actions_follow_what_was_found() {
    let found = Some(vec![Some("!score 12".to_string()), Some("12".to_string())]);
    assert_eq!(
        plan_actions(2, 1, 3, "!score 12", &found),
        Some(vec![Action::SendScoresForGrid(12), Action::ScanMessage])
    );
    assert_eq!(plan_actions(1, 1, 3, "!score 12", &found), Some(vec![]));
    let found = Some(vec![Some("!score x".to_string()), Some("x".to_string())]);
    assert_eq!(plan_actions(2, 1, 3, "!score x", &found), None);
    assert_eq!(
        plan_actions(2, 1, 3, "!all_time", &None),
        Some(vec![Action::SendTimeScores(0), Action::ScanMessage])
    );
}

#[test]
fn grids_are_numbered() {
    assert_eq!(previous_grid(254), 253);
    assert_eq!(current_grid(254), 254);
}

#[test]
fn the_daily_loop_starts_once() {
    let mut handler = Handler::new();
    assert!(handler.ready());
    assert!(!handler.ready());
    assert!(!handler.ready());
}

#[test]
fn scores_are_sent_once_each_midnight() {
    let mut daily = DailyLoop::new();
    let ticks = [
        (23, 59, false),
        (0, 0, true),
        (0, 0, false),
        (0, 0, false),
        (0, 1, false),
        (12, 0, false),
        (0, 0, true),
        (1, 0, false),
    ];
    for (hour, minute, send) in ticks {
        assert_eq!(daily.tick(hour, minute), send);
    }
    assert!(DailyLoop::new().tick(0, 0));
}
