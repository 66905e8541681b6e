use countlogger::aggregate::{is_valid_num, observe, tally, Message, Observation};
use countlogger::date::Date;

// 2024-05-10T12:00:00Z
const NOON: i64 = 1_715_342_400;

fn message(id: u64, body: &str, timestamp: i64) -> Message {
    Message { id, from_bot: false, content: body.to_string(), timestamp }
}

fn run(bodies: &[&str]) -> Vec<Message> {
    let mut out = Vec::new();
    let mut id = 1;
    for b in bodies {
        out.push(message(id, b, NOON + id as i64));
        id += 1;
    }
    out
}

#[test]
fn invalid_skip_policy() {
    let t = tally(&run(&["5", "6", "7", "cat", "9"]), 0);
    let day = Date::new(2024, 5, 10);
    assert_eq!(t.counts.len(), 1);
    assert_eq!(t.counts.get(&day), Some(&7));
    assert_eq!(t.invalid, 1);
    assert_eq!(t.first_value, Some(5));
    assert_eq!(t.last_value, Some(9));
}

#[test]
fn one_anomaly_does_not_cascade() {
    // 9 breaks the sequence and is left out, yet 10 follows it and is valid
    let t = tally(&run(&["5", "6", "9", "10", "11"]), 0);
    let day = Date::new(2024, 5, 10);
    assert_eq!(t.counts.get(&day), Some(&11));
    assert_eq!(t.invalid, 1);
}

#[test]
fn the_first_count_is_valid_whatever_it_is() {
    let t = tally(&run(&["hello", "500"]), 0);
    assert_eq!(t.counts.get(&Date::new(2024, 5, 10)), Some(&500));
    assert_eq!(t.invalid, 0);
    let zero = tally(&run(&["0", "5"]), 0);
    assert_eq!(zero.counts.get(&Date::new(2024, 5, 10)), Some(&0));
    assert_eq!(zero.invalid, 1);
}

#[test]
fn bots_and_words_are_skipped_without_a_tally() {
    let mut msgs = run(&["1", "2", "3", "nope", "4"]);
    msgs[2].from_bot = true;
    let t = tally(&msgs, 0);
    // the bot's 3 is not read, so 4 does not follow 2
    assert_eq!(t.counts.get(&Date::new(2024, 5, 10)), Some(&2));
    assert_eq!(t.invalid, 1);
    assert_eq!(t.last_value, Some(4));
}

#[test]
fn nothing_to_aggregate() {
    let t = tally(&Vec::new(), 0);
    assert_eq!(t.counts.len(), 0);
    assert_eq!(t.invalid, 0);
    assert_eq!(t.first_value, None);
    assert_eq!(t.last_value, None);
    let words = tally(&run(&["a", "b"]), 0);
    assert_eq!(words.counts.len(), 0);
    assert_eq!(words.invalid, 0);
}

#[test]
fn counts_fall_on_the_day_of_the_guild() {
    let day = 86_400;
    let msgs = vec![
        message(1, "1", NOON),
        message(2, "2", NOON + 11 * 3600),
        message(3, "3", NOON + 13 * 3600),
        message(4, "4", NOON + day),
    ];
    let utc = tally(&msgs, 0);
    assert_eq!(utc.counts.len(), 2);
    assert_eq!(utc.counts.get(&Date::new(2024, 5, 10)), Some(&2));
    assert_eq!(utc.counts.get(&Date::new(2024, 5, 11)), Some(&4));
    let east = tally(&msgs, 2);
    assert_eq!(east.counts.get(&Date::new(2024, 5, 10)), Some(&1));
    assert_eq!(east.counts.get(&Date::new(2024, 5, 11)), Some(&4));
}

#[test]
fn a_day_keeps_its_maximum_when_counts_restart() {
    // the sequence restarts: 1 breaks it, 2 and 3 continue it, the day keeps 8
    let t = tally(&run(&["7", "8", "1", "2", "3"]), 0);
    assert_eq!(t.counts.get(&Date::new(2024, 5, 10)), Some(&8));
    assert_eq!(t.invalid, 1);
}

#[test]
fn observe_reads_value_and_date() {
    assert_eq!(
        observe(&message(1, "42", NOON), 0),
        Some(Observation { value: 42, date: Date::new(2024, 5, 10) })
    );
    assert_eq!(observe(&message(1, "x", NOON), 0), None);
    assert_eq!(observe(&message(1, "42", i64::MAX), 0), None);
    let mut bot = message(1, "42", NOON);
    bot.from_bot = true;
    assert_eq!(observe(&bot, 0), None);
}

#[test]
fn validity_is_one_more_than_the_last() {
    assert!(is_valid_num(5, 6));
    assert!(!is_valid_num(5, 7));
    assert!(!is_valid_num(5, 5));
    assert!(is_valid_num(-1, 0));
    assert!(!is_valid_num(i64::MAX, i64::MIN));
}
