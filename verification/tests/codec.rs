use f1_plugin::codec::CsvRecord;
use f1_plugin::entities::{Bet, Driver, RaceResult, User};
use f1_plugin::errors::SettleError;
use f1_plugin::num::{parse_u32_or_zero, u32_to_string};
use f1_plugin::store::{decode_table, encode_table};

fn user(nick: &str, tz: &str, points: u32, notifications: &str) -> User {
    User {
        nick: nick.to_string(),
        time_zone: tz.to_string(),
        points,
        notifications: notifications.to_string(),
    }
}

#[test]
fn user_fields_round_trip() {
    let u = user("vtnw", "Europe/Berlin", 42, "on");
    let fields = u.to_fields();
    assert_eq!(fields, vec!["vtnw", "Europe/Berlin", "42", "on"]);
    let back = User::from_fields(&fields).unwrap();
    assert_eq!(back, u);
}

#[test]
fn bet_fields_round_trip() {
    let b = Bet {
        event: "Monaco".to_string(),
        nick: "vtnw".to_string(),
        first: "HAM".to_string(),
        second: "VER".to_string(),
        third: "LEC".to_string(),
        fourth: "HAM".to_string(),
        points: 7,
    };
    let fields = b.to_fields();
    assert_eq!(fields, vec!["Monaco", "vtnw", "HAM", "VER", "LEC", "HAM", "7"]);
    let back = Bet::from_fields(&fields).unwrap();
    assert_eq!(back, b);
}

#[test]
fn race_result_fields_round_trip() {
    let r = RaceResult {
        event: "Monaco".to_string(),
        first: "HAM".to_string(),
        second: "VER".to_string(),
        third: "LEC".to_string(),
        fourth: "HAM".to_string(),
        processed: "".to_string(),
    };
    let fields = r.to_fields();
    assert_eq!(fields, vec!["Monaco", "HAM", "VER", "LEC", "HAM", ""]);
    let back = RaceResult::from_fields(&fields).unwrap();
    assert_eq!(back, r);
}

#[test]
fn driver_fields_round_trip() {
    let d = Driver { number: 44, code: "HAM".to_string(), odds: 3 };
    let fields = d.to_fields();
    assert_eq!(fields, vec!["44", "HAM", "3"]);
    let back = Driver::from_fields(&fields).unwrap();
    assert_eq!(back, d);
}

#[test]
fn wrong_arity_is_malformed() {
    let fields = vec!["only".to_string(), "three".to_string(), "fields".to_string()];
    assert!(matches!(User::from_fields(&fields), Err(SettleError::MalformedRecord)));
    assert!(matches!(Bet::from_fields(&fields), Err(SettleError::MalformedRecord)));
    assert!(matches!(RaceResult::from_fields(&fields), Err(SettleError::MalformedRecord)));
    let fields4 = vec![String::new(), String::new(), String::new(), String::new()];
    assert!(matches!(Driver::from_fields(&fields4), Err(SettleError::MalformedRecord)));
}

#[test]
fn numeric_field_is_tolerant() {
    let fields = vec![
        "vtnw".to_string(),
        "UTC".to_string(),
        "not-a-number".to_string(),
        "".to_string(),
    ];
    let u = User::from_fields(&fields).unwrap();
    assert_eq!(u.points, 0);
    let fields = vec![
        "vtnw".to_string(),
        "UTC".to_string(),
        "99999999999999".to_string(),
        "".to_string(),
    ];
    let u = User::from_fields(&fields).unwrap();
    assert_eq!(u.points, 0);
}

#[test]
fn parse_u32_or_zero_values() {
    assert_eq!(parse_u32_or_zero("0"), 0);
    assert_eq!(parse_u32_or_zero("26"), 26);
    assert_eq!(parse_u32_or_zero("007"), 7);
    assert_eq!(parse_u32_or_zero("+15"), 15);
    assert_eq!(parse_u32_or_zero("4294967295"), u32::MAX);
    assert_eq!(parse_u32_or_zero("4294967296"), 0);
    assert_eq!(parse_u32_or_zero(""), 0);
    assert_eq!(parse_u32_or_zero("+"), 0);
    assert_eq!(parse_u32_or_zero("-3"), 0);
    assert_eq!(parse_u32_or_zero(" 5"), 0);
    assert_eq!(parse_u32_or_zero("1 2"), 0);
}

#[test]
fn u32_to_string_values() {
    assert_eq!(u32_to_string(0), "0");
    assert_eq!(u32_to_string(9), "9");
    assert_eq!(u32_to_string(10), "10");
    assert_eq!(u32_to_string(12345), "12345");
    assert_eq!(u32_to_string(u32::MAX), "4294967295");
}

#[test]
fn table_round_trip() {
    let users = vec![user("alice", "UTC", 10, "on"), user("bob", "CET", 0, "")];
    let text = encode_table(&users);
    assert_eq!(text, "alice,UTC,10,on\nbob,CET,0,\n");
    let back: Vec<User> = decode_table(&text).unwrap();
    assert_eq!(back, users);
}

#[test]
fn empty_table_round_trip() {
    let users: Vec<User> = Vec::new();
    let text = encode_table(&users);
    assert_eq!(text, "");
    let back: Vec<User> = decode_table(&text).unwrap();
    assert!(back.is_empty());
}

#[test]
fn decode_without_final_line_break() {
    let back: Vec<User> = decode_table("alice,UTC,10,on").unwrap();
    assert_eq!(back, vec![user("alice", "UTC", 10, "on")]);
}

#[test]
fn decode_malformed_line() {
    let r: Result<Vec<User>, SettleError> = decode_table("alice,UTC,10,on\nshort,line\n");
    assert!(matches!(r, Err(SettleError::MalformedRecord)));
}
