use f1_plugin::entities::{Bet, RaceResult};
use f1_plugin::scoring::{score, BOOST, CORRECT, FASTEST_LAP, PODIUM};
use f1_plugin::text::eq_ignore_case;

fn bet(event: &str, first: &str, second: &str, third: &str, fourth: &str) -> Bet {
    Bet {
        event: event.to_string(),
        nick: "vtnw".to_string(),
        first: first.to_string(),
        second: second.to_string(),
        third: third.to_string(),
        fourth: fourth.to_string(),
        points: 0,
    }
}

fn result(event: &str) -> RaceResult {
    RaceResult {
        event: event.to_string(),
        first: "HAM".to_string(),
        second: "VER".to_string(),
        third: "LEC".to_string(),
        fourth: "NOR".to_string(),
        processed: "".to_string(),
    }
}

#[test]
fn perfect_podium_scores_25() {
    let b = bet("Monaco", "HAM", "VER", "LEC", "SAI");
    assert_eq!(score(&b, &result("Monaco")), 3 * CORRECT + BOOST);
    assert_eq!(score(&b, &result("Monaco")), 25);
}

#[test]
fn perfect_podium_with_fastest_lap_scores_26() {
    let b = bet("Monaco", "HAM", "VER", "LEC", "NOR");
    assert_eq!(score(&b, &result("Monaco")), 3 * CORRECT + BOOST + FASTEST_LAP);
    assert_eq!(score(&b, &result("Monaco")), 26);
}

#[test]
fn wrong_slot_earns_podium_points() {
    // VER is on the podium, but not in the first slot.
    let b = bet("Monaco", "VER", "XXX", "YYY", "ZZZ");
    assert_eq!(score(&b, &result("Monaco")), PODIUM);
}

#[test]
fn absent_pick_earns_nothing() {
    let b = bet("Monaco", "XXX", "YYY", "ZZZ", "WWW");
    assert_eq!(score(&b, &result("Monaco")), 0);
}

#[test]
fn two_correct_one_wrong_slot() {
    // First and second slots exact; HAM picked third is on the podium but
    // in the wrong slot, so no boost applies.
    let b = bet("Monaco", "HAM", "VER", "HAM", "ZZZ");
    assert_eq!(score(&b, &result("Monaco")), 2 * CORRECT + PODIUM);
}

#[test]
fn fastest_lap_alone_scores_1() {
    let b = bet("Monaco", "XXX", "YYY", "ZZZ", "nor");
    assert_eq!(score(&b, &result("Monaco")), FASTEST_LAP);
}

#[test]
fn other_event_scores_0() {
    let b = bet("Silverstone", "HAM", "VER", "LEC", "NOR");
    assert_eq!(score(&b, &result("Monaco")), 0);
}

#[test]
fn scoring_disregards_case() {
    let lower = bet("monaco", "ham", "ver", "lec", "nor");
    let upper = bet("MONACO", "HAM", "VER", "LEC", "NOR");
    let mixed = bet("Monaco", "Ham", "vEr", "LeC", "noR");
    let r = result("Monaco");
    assert_eq!(score(&lower, &r), 26);
    assert_eq!(score(&upper, &r), 26);
    assert_eq!(score(&mixed, &r), 26);
}

#[test]
fn eq_ignore_case_folds() {
    assert!(eq_ignore_case("HAM", "ham"));
    assert!(eq_ignore_case("Monaco", "mOnAcO"));
    assert!(!eq_ignore_case("HAM", "VER"));
    assert!(eq_ignore_case("", ""));
    assert!(!eq_ignore_case("a", ""));
}
