use diceroll::command::CommandOption;
use diceroll::decimal::{decimal_string, parse_u128};
use diceroll::Roll;

fn text(name: &str, value: &str) -> CommandOption {
    CommandOption::Text { name: name.to_string(), value: value.to_string() }
}

fn integer(name: &str, value: i64) -> CommandOption {
    CommandOption::Integer { name: name.to_string(), value }
}

fn boolean(name: &str, value: bool) -> CommandOption {
    CommandOption::Boolean { name: name.to_string(), value }
}

fn roll_of(id: u64, dice: &str, modifier: Option<i64>, gm: Option<bool>) -> Roll {
    let mut options = vec![text("dice", dice)];
    if let Some(m) = modifier {
        options.push(integer("modifier", m));
    }
    if let Some(g) = gm {
        options.push(boolean("gm", g));
    }
    Roll::from_command(id, &options).unwrap()
}

#[test]
fn anonymous_token_of_one_d20() {
    let roll = roll_of(0, "1d20", None, Some(false));
    assert_eq!(roll.to_custom_id(), "9728");
}

#[test]
fn decoded_token_keeps_its_bit_layout() {
    let fresh = roll_of(0, "1d20", None, None);
    let decoded = Roll::from_custom_id("9728".to_string()).unwrap();
    assert_eq!(decoded.to_custom_id(), fresh.to_custom_id());
    assert!(!decoded.ephemeral());
    assert!(decoded.is_from(0));
}

#[test]
fn identity_token_layout() {
    let roll = roll_of(5, "4d8", Some(3), Some(true));
    let expected: u128 = (5u128 << 16) + (7 << 9) + (3 << 5) + (3 << 1) + 1;
    assert_eq!(roll.to_custom_id(), expected.to_string());
}

#[test]
fn token_round_trip_over_fields() {
    let ids = [0u64, 1, 42, 80351110224678912, u64::MAX];
    let dice = ["1d4", "8d120", "3d6", "2d100", "d20", "7D13"];
    for id in ids {
        for d in dice {
            for m in [None, Some(1), Some(8)] {
                for gm in [false, true] {
                    let roll = roll_of(id, d, m, Some(gm));
                    let token = roll.to_custom_id();
                    let back = Roll::from_custom_id(token.clone()).unwrap();
                    assert_eq!(back.to_custom_id(), token);
                    assert!(back.is_from(id));
                    assert_eq!(back.ephemeral(), gm);
                }
            }
        }
    }
}

#[test]
fn largest_requester_id_round_trips() {
    let roll = roll_of(u64::MAX, "8d120", Some(8), Some(true));
    let back = Roll::from_custom_id(roll.to_custom_id()).unwrap();
    assert!(back.is_from(u64::MAX));
    assert!(!back.is_from(0));
}

#[test]
fn token_that_is_not_a_number_is_refused() {
    assert!(Roll::from_custom_id(String::new()).is_none());
    assert!(Roll::from_custom_id("abc".to_string()).is_none());
    assert!(Roll::from_custom_id("-1".to_string()).is_none());
    assert!(Roll::from_custom_id("12 3".to_string()).is_none());
    assert!(Roll::from_custom_id("340282366920938463463374607431768211456".to_string()).is_none());
    assert!(Roll::from_custom_id("340282366920938463463374607431768211455".to_string()).is_some());
}

#[test]
fn decimal_text_both_ways() {
    assert_eq!(decimal_string(0), "0");
    assert_eq!(decimal_string(9728), "9728");
    assert_eq!(decimal_string(u128::MAX), u128::MAX.to_string());
    assert_eq!(parse_u128("0"), Some(0));
    assert_eq!(parse_u128("007"), Some(7));
    assert_eq!(parse_u128(&u128::MAX.to_string()), Some(u128::MAX));
    assert_eq!(parse_u128("+7"), None);
    assert_eq!(parse_u128(""), None);
}
