use diceroll::command::CommandOption;
use diceroll::Roll;

fn roll_of(dice: &str, modifier: Option<i64>, gm: bool) -> Roll {
    let mut options = vec![CommandOption::Text { name: "dice".to_string(), value: dice.to_string() }];
    if let Some(m) = modifier {
        options.push(CommandOption::Integer { name: "modifier".to_string(), value: m });
    }
    options.push(CommandOption::Boolean { name: "gm".to_string(), value: gm });
    Roll::from_command(7, &options).unwrap()
}

fn bold_part(s: &str) -> &str {
    s.strip_suffix("**").unwrap()
}

#[test]
fn one_d20_without_modifier() {
    let roll = roll_of("1d20", None, false);
    assert!(!roll.ephemeral());
    for _ in 0..200 {
        let text = roll.to_string();
        let n: u32 = bold_part(text.strip_prefix("Your result is **").unwrap()).parse().unwrap();
        assert!((1..=20).contains(&n));
    }
}

#[test]
fn four_d8_plus_three_for_the_gm() {
    let roll = roll_of("4d8", Some(3), true);
    assert!(roll.ephemeral());
    for _ in 0..200 {
        let text = roll.to_string();
        let inner = bold_part(text.strip_prefix("Your results are **(").unwrap());
        let (terms, total) = inner.split_once(") *+ 3* = ").unwrap();
        let terms: Vec<u32> = terms.split(" + ").map(|t| t.parse().unwrap()).collect();
        assert_eq!(terms.len(), 4);
        assert!(terms.iter().all(|t| (1..=8).contains(t)));
        let total: u32 = total.parse().unwrap();
        assert_eq!(total, terms.iter().sum::<u32>() + 3);
    }
}

#[test]
fn roll_gives_count_samples_in_range() {
    for (dice, count, faces) in [("1d4", 1usize, 4u16), ("8d120", 8, 120), ("3d6", 3, 6)] {
        for m in [None, Some(5)] {
            let roll = roll_of(dice, m, false);
            for _ in 0..100 {
                let o = roll.roll();
                assert_eq!(o.samples.len(), count);
                assert!(o.samples.iter().all(|s| *s >= 1 && *s <= faces));
                let sum: u32 = o.samples.iter().map(|s| *s as u32).sum();
                assert_eq!(o.total, sum + m.unwrap_or(0) as u32);
                assert_eq!(o.modifier as i64, m.unwrap_or(0));
            }
        }
    }
}

#[test]
fn rolls_vary() {
    let roll = roll_of("8d120", None, false);
    let first = roll.roll().samples;
    assert!((0..50).any(|_| roll.roll().samples != first));
}

#[test]
fn outcome_texts() {
    let one = roll_of("1d20", None, false);
    assert_eq!(one.outcome(vec![5]).unwrap().describe(), "Your result is **5**");
    let one_plus = roll_of("d20", Some(3), false);
    assert_eq!(one_plus.outcome(vec![17]).unwrap().describe(), "Your result is **17 *+ 3* = 20**");
    let four = roll_of("4d8", Some(3), true);
    let o = four.outcome(vec![1, 2, 3, 8]).unwrap();
    assert!(o.ephemeral);
    assert_eq!(o.total, 17);
    assert_eq!(o.describe(), "Your results are **(1 + 2 + 3 + 8) *+ 3* = 17**");
    let two = roll_of("2d6", None, false);
    assert_eq!(two.outcome(vec![2, 6]).unwrap().describe(), "Your results are **(2 + 6) = 8**");
}

#[test]
fn outcome_refuses_samples_that_cannot_be() {
    let two = roll_of("2d6", None, false);
    assert!(two.outcome(vec![1]).is_none());
    assert!(two.outcome(vec![1, 2, 3]).is_none());
    assert!(two.outcome(vec![0, 2]).is_none());
    assert!(two.outcome(vec![7, 2]).is_none());
    assert!(two.outcome(vec![6, 1]).is_some());
}
