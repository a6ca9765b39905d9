use f1_plugin::entities::{Bet, RaceResult, User};
use f1_plugin::errors::SettleError;
use f1_plugin::settlement::process_bets;
use f1_plugin::store::encode_table;

fn monaco_tables() -> (Vec<RaceResult>, Vec<Bet>, Vec<User>) {
    let result = RaceResult {
        event: "Monaco".to_string(),
        first: "HAM".to_string(),
        second: "VER".to_string(),
        third: "LEC".to_string(),
        fourth: "HAM".to_string(),
        processed: "".to_string(),
    };
    let bet = Bet {
        event: "Monaco".to_string(),
        nick: "vtnw".to_string(),
        first: "HAM".to_string(),
        second: "VER".to_string(),
        third: "LEC".to_string(),
        fourth: "HAM".to_string(),
        points: 0,
    };
    let user = User {
        nick: "vtnw".to_string(),
        time_zone: "Europe/Berlin".to_string(),
        points: 0,
        notifications: "".to_string(),
    };
    (vec![result], vec![bet], vec![user])
}

#[test]
fn settlement_credits_a_perfect_prediction() {
    let (mut results, mut bets, mut users) = monaco_tables();
    let r = process_bets("gluon", "gluon", &mut results, &mut bets, &mut users);
    assert!(r.is_ok());
    assert_eq!(bets[0].points, 26);
    assert_eq!(users[0].points, 26);
    assert_eq!(results[0].processed, "Monaco");
}

#[test]
fn settlement_ignores_other_events() {
    let (mut results, mut bets, mut users) = monaco_tables();
    bets[0].event = "Silverstone".to_string();
    let r = process_bets("gluon", "gluon", &mut results, &mut bets, &mut users);
    assert!(r.is_ok());
    assert_eq!(bets[0].points, 0);
    assert_eq!(users[0].points, 0);
    assert_eq!(results[0].processed, "Monaco");
}

#[test]
fn settlement_runs_at_most_once() {
    let (mut results, mut bets, mut users) = monaco_tables();
    let first = process_bets("gluon", "gluon", &mut results, &mut bets, &mut users);
    assert!(first.is_ok());
    let results_text = encode_table(&results);
    let bets_text = encode_table(&bets);
    let users_text = encode_table(&users);
    let second = process_bets("gluon", "gluon", &mut results, &mut bets, &mut users);
    assert_eq!(second, Err(SettleError::AlreadyProcessed));
    assert_eq!(encode_table(&results), results_text);
    assert_eq!(encode_table(&bets), bets_text);
    assert_eq!(encode_table(&users), users_text);
}

#[test]
fn processed_marker_is_case_insensitive() {
    let (mut results, mut bets, mut users) = monaco_tables();
    results[0].processed = "MONACO".to_string();
    assert!(results[0].is_processed());
    let r = process_bets("gluon", "gluon", &mut results, &mut bets, &mut users);
    assert_eq!(r, Err(SettleError::AlreadyProcessed));
    assert_eq!(users[0].points, 0);
    assert_eq!(bets[0].points, 0);
}

#[test]
fn only_the_admin_may_settle() {
    let (mut results, mut bets, mut users) = monaco_tables();
    let r = process_bets("mallory", "gluon", &mut results, &mut bets, &mut users);
    assert_eq!(r, Err(SettleError::Unauthorized));
    assert_eq!(users[0].points, 0);
    assert_eq!(bets[0].points, 0);
    assert_eq!(results[0].processed, "");
}

#[test]
fn the_admin_check_disregards_case() {
    let (mut results, mut bets, mut users) = monaco_tables();
    let r = process_bets("GLUON", "gluon", &mut results, &mut bets, &mut users);
    assert!(r.is_ok());
    assert_eq!(users[0].points, 26);
}

#[test]
fn no_result_on_file() {
    let (_, mut bets, mut users) = monaco_tables();
    let mut results: Vec<RaceResult> = Vec::new();
    let r = process_bets("gluon", "gluon", &mut results, &mut bets, &mut users);
    assert_eq!(r, Err(SettleError::NoResult));
}

#[test]
fn nick_matching_disregards_case() {
    let (mut results, mut bets, mut users) = monaco_tables();
    users[0].nick = "VTNW".to_string();
    let r = process_bets("gluon", "gluon", &mut results, &mut bets, &mut users);
    assert!(r.is_ok());
    assert_eq!(users[0].points, 26);
}

#[test]
fn unmatched_nick_is_not_credited() {
    let (mut results, mut bets, mut users) = monaco_tables();
    users[0].nick = "other".to_string();
    let r = process_bets("gluon", "gluon", &mut results, &mut bets, &mut users);
    assert!(r.is_ok());
    assert_eq!(bets[0].points, 26);
    assert_eq!(users[0].points, 0);
}

#[test]
fn totals_that_would_overflow_are_refused() {
    let (mut results, mut bets, mut users) = monaco_tables();
    users[0].points = u32::MAX - 10;
    let r = process_bets("gluon", "gluon", &mut results, &mut bets, &mut users);
    assert_eq!(r, Err(SettleError::PointsOverflow));
    assert_eq!(users[0].points, u32::MAX - 10);
    assert_eq!(bets[0].points, 0);
    assert_eq!(results[0].processed, "");
}

#[test]
fn two_bets_accumulate_for_one_user() {
    let (mut results, mut bets, mut users) = monaco_tables();
    let mut second_bet = bets[0].clone();
    second_bet.first = "VER".to_string();
    second_bet.second = "XXX".to_string();
    second_bet.third = "YYY".to_string();
    second_bet.fourth = "ZZZ".to_string();
    bets.push(second_bet);
    let r = process_bets("gluon", "gluon", &mut results, &mut bets, &mut users);
    assert!(r.is_ok());
    assert_eq!(bets[0].points, 26);
    // VER picked first: on the podium, wrong slot.
    assert_eq!(bets[1].points, 3);
    assert_eq!(users[0].points, 29);
}

#[test]
fn is_user_matches_nick_up_to_case() {
    let user = User {
        nick: "vtnw".to_string(),
        time_zone: "UTC".to_string(),
        points: 0,
        notifications: "".to_string(),
    };
    let same = vec![User {
        nick: "vtnw".to_string(),
        time_zone: "CET".to_string(),
        points: 5,
        notifications: "on".to_string(),
    }];
    assert!(user.is_user(&same));
    // The nick is an identity key up to letter case.
    let cased = vec![User {
        nick: "VTNW".to_string(),
        time_zone: "CET".to_string(),
        points: 5,
        notifications: "on".to_string(),
    }];
    assert!(user.is_user(&cased));
    let unrelated = vec![User {
        nick: "other".to_string(),
        time_zone: "CET".to_string(),
        points: 5,
        notifications: "on".to_string(),
    }];
    assert!(!user.is_user(&unrelated));
    assert!(!user.is_user(&Vec::new()));
}

#[test]
fn user_new_keeps_its_fields() {
    let u = User::new("vtnw".to_string(), "UTC".to_string(), 3, "on".to_string());
    assert_eq!(u.nick, "vtnw");
    assert_eq!(u.time_zone, "UTC");
    assert_eq!(u.points, 3);
    assert_eq!(u.notifications, "on");
}

#[test]
fn error_messages_are_short_lines() {
    assert_eq!(
        SettleError::AlreadyProcessed.message(),
        "Bets have already been processed for the current event."
    );
    assert_eq!(
        SettleError::Unauthorized.message(),
        "Only the bot admin can use this command."
    );
}
