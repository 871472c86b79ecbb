use sutom_scores::duration::{count_secs, pp_secs};
use sutom_scores::player::Score;
use sutom_scores::share::{
    can_be_read, extract_score, read_score, remove_bars, try_extract_score, UnreadableNumber,
};
use sutom_scores::text::{parse_number, push_decimal, push_signed, push_two_digits};

#[test]
fn it_parses_scores() {
    let message = "SUTOM #254 5/6 10:56";
    assert_eq!(
        extract_score(message),
        Some((
            254,
            Score {
                tries: 5,
                secs: 56 + 60 * 10
            }
        ))
    );
    let message = "SUTOM #254 5/6 2h10:56";
    assert_eq!(
        extract_score(message),
        Some((
            254,
            Score {
                tries: 5,
                secs: 56 + 60 * 10 + 2 * 3600
            }
        ))
    );
    let message = "SUTOM #a 5/6 2h10:56";
    assert_eq!(extract_score(message), None);
    let message = "SUTOM #254 x/6 2h10:56";
    assert_eq!(extract_score(message), None);
    let message = "asSUTOM #254 5/6 10:56asd";
    assert_eq!(
        extract_score(message),
        Some((
            254,
            Score {
                tries: 5,
                secs: 56 + 60 * 10
            }
        ))
    );
    let message = "||SUTOM #254 5/6 10:56||";
    assert_eq!(
        extract_score(message),
        Some((
            254,
            Score {
                tries: 5,
                secs: 56 + 60 * 10
            }
        ))
    );
    let message = "SUTOM #254 5/6 ||10:56||";
    assert_eq!(
        extract_score(message),
        Some((
            254,
            Score {
                tries: 5,
                secs: 56 + 60 * 10
            }
        ))
    );
    let message = "SUTOM #254 5/6 510:56";
    assert_eq!(extract_score(message), None);
    let message = "SUTOM #254 5/6 60:56";
    assert_eq!(extract_score(message), None);
    let message = "SUTOM #254 5/6 10:66";
    assert_eq!(extract_score(message), None);
    let message = "#SUTOM #682 6/6 24h01:38";
    assert_eq!(
        extract_score(message),
        Some((
            682,
            Score {
                tries: 6,
                secs: 24 * 60 * 60 + 1 * 60 + 38 * 60
            }
        ))
    );
}

#[test]
fn a_shown_time_is_read_back() {
    for secs in [0, 1, 59, 60, 656, 3599, 3600, 7856, 86399, 86497, 86499, 359999, 360000] {
        let message = format!("SUTOM #12 3/6 {} bravo", pp_secs(secs));
        assert_eq!(extract_score(&message), Some((12, Score { tries: 3, secs })));
    }
}

#[test]
fn text_around_a_share_makes_no_difference() {
    let score = Score { tries: 4, secs: 62 };
    assert_eq!(
        extract_score("regardez\n#SUTOM #7 4/6 01:02\n\n🟥🟥🟡🟦"),
        Some((7, score))
    );
    assert_eq!(extract_score("SUTOM # SUTOM #7 4/6 01:029"), Some((7, score)));
}

#[test]
fn the_first_share_counts() {
    assert_eq!(
        extract_score("SUTOM #1 2/6 00:10 SUTOM #2 3/6 00:20"),
        Some((1, Score { tries: 2, secs: 10 }))
    );
}

#[test]
fn texts_around_are_ignored() {
    let messages = [
        "SUTOM #254 5/6 10:56",
        "SUTOM # SUTOM #254 5/6 2h10:56|",
        "||SUTOM #254 5/6|| 10:56",
        "SUTOM #12 3/6 00:07 SUTOM #13 4/6 00:08",
    ];
    for message in messages {
        let score = extract_score(message);
        assert!(score.is_some());
        for before in ["", "3", "regardez : #", "h", "\n🟥 ٣"] {
            for after in ["", "9", "|", "||", "|| |", "h10:56", " SUTOM #1 1/6 00:01", "é"] {
                let all = format!("{}{}{}", before, message, after);
                assert_eq!(extract_score(&all), score);
            }
        }
    }
}

#[test]
fn almost_a_share_is_none() {
    assert_eq!(extract_score("SUTOM #é 5/6 10:56"), None);
    assert_eq!(extract_score("SUTOM #5é 5/6 10:56"), None);
    assert_eq!(extract_score(""), None);
    assert_eq!(extract_score("sutom #254 5/6 10:56"), None);
    assert_eq!(extract_score("SUTOM #254 15/6 10:56"), None);
    assert_eq!(extract_score("SUTOM #254 5/6 10:5"), None);
    assert_eq!(extract_score("SUTOM #254 5/6 h10:56"), None);
    assert_eq!(extract_score("SUTOM #254  5/6 10:56"), None);
    assert_eq!(extract_score("SUTOM #254 5|/6 10:56"), None);
}

#[test]
fn leading_zeros_are_read() {
    assert_eq!(
        extract_score("SUTOM #007 0/6 00h00:00"),
        Some((7, Score { tries: 0, secs: 0 }))
    );
}

#[test]
fn numbers_that_cannot_be_read_are_an_error() {
    for message in [
        "SUTOM #٣ 5/6 10:56",
        "SUTOM #254 ٣/6 10:56",
        "SUTOM #99999999999999999999999 5/6 10:56",
        "SUTOM #254 5/6 99999999999999999999999h10:56",
        "SUTOM #254 5/6 5124095576030432h00:00",
    ] {
        assert_eq!(try_extract_score(message), Err(UnreadableNumber));
        assert!(!can_be_read(message));
    }
    assert_eq!(try_extract_score("bonjour"), Ok(None));
    assert_eq!(
        try_extract_score("SUTOM #254 5/6 10:56"),
        Ok(Some((254, Score { tries: 5, secs: 656 })))
    );
    assert!(can_be_read("SUTOM #18446744073709551615 5/6 10:56"));
}

#[test]
fn bars_are_removed_in_pairs() {
    assert_eq!(remove_bars(""), "");
    assert_eq!(remove_bars("|"), "|");
    assert_eq!(remove_bars("||"), "");
    assert_eq!(remove_bars("|||"), "|");
    assert_eq!(remove_bars("a||b|c||||d|"), "ab|cd|");
    assert_eq!(remove_bars("é||🟥"), "é🟥");
    let plain = "SUTOM #254 5/6 10:56";
    for i in 0..=plain.len() {
        let barred = format!("{}||{}", &plain[..i], &plain[i..]);
        assert_eq!(extract_score(&barred), extract_score(plain));
    }
}

#[test]
fn groups_are_read() {
    let group = |s: &str| Some(s.to_string());
    let groups = vec![group("?"), group("254"), group("5"), None, group("10"), group("56")];
    assert_eq!(read_score(&groups), Some((254, Score { tries: 5, secs: 656 })));
    let groups = vec![group("?"), group("254"), group("5"), group("1"), group("00"), group("00")];
    assert_eq!(read_score(&groups), Some((254, Score { tries: 5, secs: 3600 })));
    let groups = vec![group("?"), group("254"), None, None, group("10"), group("56")];
    assert_eq!(read_score(&groups), None);
    assert_eq!(read_score(&vec![group("254")]), None);
}

#[test]
fn times_are_shown() {
    assert_eq!(pp_secs(0), "00:00");
    assert_eq!(pp_secs(59), "00:59");
    assert_eq!(pp_secs(656), "10:56");
    assert_eq!(pp_secs(3599), "59:59");
    assert_eq!(pp_secs(3600), "1h00:00");
    assert_eq!(pp_secs(7856), "2h10:56");
    assert_eq!(pp_secs(86498), "24h01:38");
    assert_eq!(pp_secs(360061), "100h01:01");
}

#[test]
fn times_are_counted() {
    assert_eq!(count_secs(0, 10, 56), Some(656));
    assert_eq!(count_secs(2, 10, 56), Some(7856));
    assert_eq!(count_secs(24, 1, 37), Some(86497));
    assert_eq!(count_secs(24, 1, 38), Some(88740));
    assert_eq!(count_secs(24, 1, 39), Some(86499));
    assert_eq!(count_secs(usize::MAX, 0, 0), None);
    assert_eq!(count_secs(0, usize::MAX, 0), None);
    assert_eq!(count_secs(1, 0, usize::MAX), None);
}

#[test]
fn numerals_are_written_and_read() {
    for n in [0usize, 7, 10, 99, 100, 12345, usize::MAX] {
        let mut out = String::from("n");
        push_decimal(&mut out, n as u64);
        assert_eq!(out, format!("n{}", n));
        assert_eq!(parse_number(&out[1..]), Some(n));
    }
    for n in [0i64, 5, -5, i64::MAX, i64::MIN] {
        let mut out = String::new();
        push_signed(&mut out, n);
        assert_eq!(out, format!("{}", n));
    }
    for n in [0u8, 5, 10, 59, 99] {
        let mut out = String::new();
        push_two_digits(&mut out, n);
        assert_eq!(out, format!("{:02}", n));
    }
    assert_eq!(parse_number(""), None);
    assert_eq!(parse_number("12a"), None);
    assert_eq!(parse_number("-1"), None);
    assert_eq!(parse_number("18446744073709551616"), None);
    assert_eq!(parse_number("007"), Some(7));
}
