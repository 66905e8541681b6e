use countlogger::counts::{merge_counts, merge_max, DailyCounts};
use countlogger::date::{local_date, Date};
use countlogger::sorted_map::{SortKey, SortedMap};

#[test]
fn local_date_at_utc() {
    // 2024-01-01T00:00:00Z
    assert_eq!(local_date(1_704_067_200, 0), Some(Date::new(2024, 1, 1)));
    // 1970-01-01T00:00:00Z
    assert_eq!(local_date(0, 0), Some(Date::new(1970, 1, 1)));
    // 2024-02-29T23:59:59Z
    assert_eq!(local_date(1_709_251_199, 0), Some(Date::new(2024, 2, 29)));
}

#[test]
fn local_date_moves_with_the_offset() {
    assert_eq!(local_date(1_704_067_200, -5), Some(Date::new(2023, 12, 31)));
    assert_eq!(local_date(1_704_067_200, 14), Some(Date::new(2024, 1, 1)));
    assert_eq!(local_date(1_709_251_199, 1), Some(Date::new(2024, 3, 1)));
    // 2024-06-15T11:00:00Z: thirteen hours east is the next day
    assert_eq!(local_date(1_718_449_200, 13), Some(Date::new(2024, 6, 16)));
    assert_eq!(local_date(1_718_449_200, -12), Some(Date::new(2024, 6, 14)));
}

#[test]
fn local_date_clamps_the_offset() {
    assert_eq!(local_date(1_718_449_200, 100), local_date(1_718_449_200, 14));
    assert_eq!(local_date(1_718_449_200, -100), local_date(1_718_449_200, -12));
}

#[test]
fn local_date_out_of_range() {
    assert_eq!(local_date(i64::MAX, 0), None);
    assert_eq!(local_date(i64::MIN, 0), None);
}

#[test]
fn dates_order_by_year_month_day() {
    let a = Date::new(2023, 12, 31);
    let b = Date::new(2024, 1, 1);
    let c = Date::new(2024, 1, 2);
    let d = Date::new(2024, 2, 1);
    assert!(a.precedes(&b));
    assert!(b.precedes(&c));
    assert!(c.precedes(&d));
    assert!(!b.precedes(&a));
    assert!(!b.precedes(&b));
    assert!(Date::new(-1, 12, 31).precedes(&Date::new(0, 1, 1)));
}

#[test]
fn sorted_map_keeps_key_order() {
    let mut m: SortedMap<i64, u64> = SortedMap::new();
    m.insert(3, 30);
    m.insert(1, 10);
    m.insert(2, 20);
    assert_eq!(m.len(), 3);
    assert_eq!(m.key_at(0), 1);
    assert_eq!(m.key_at(1), 2);
    assert_eq!(m.key_at(2), 3);
    assert_eq!(*m.value_at(1), 20);
    assert_eq!(m.get(&2), Some(&20));
    assert_eq!(m.get(&4), None);
    assert_eq!(m.find(&3), Some(2));
    assert!(m.contains_key(&1));
    assert!(!m.contains_key(&0));
}

#[test]
fn sorted_map_insert_replaces() {
    let mut m: SortedMap<i64, u64> = SortedMap::new();
    m.insert(1, 10);
    m.insert(1, 11);
    assert_eq!(m.len(), 1);
    assert_eq!(m.get(&1), Some(&11));
}

#[test]
fn sorted_map_remove_and_duplicate() {
    let mut m: SortedMap<i64, u64> = SortedMap::new();
    m.insert(1, 10);
    m.insert(2, 20);
    m.append(5, 50);
    let copy = m.duplicate();
    m.remove(&2);
    m.remove(&9);
    assert_eq!(m.len(), 2);
    assert_eq!(m.get(&2), None);
    assert_eq!(m.key_at(1), 5);
    assert_eq!(copy.len(), 3);
    assert_eq!(copy.get(&2), Some(&20));
}

#[test]
fn merge_max_keeps_the_larger_count() {
    let day = Date::new(2024, 3, 1);
    let mut counts: DailyCounts = SortedMap::new();
    merge_max(&mut counts, day, 10);
    assert_eq!(counts.get(&day), Some(&10));
    merge_max(&mut counts, day, 7);
    assert_eq!(counts.get(&day), Some(&10));
    merge_max(&mut counts, day, 12);
    assert_eq!(counts.get(&day), Some(&12));
    merge_max(&mut counts, day, 12);
    assert_eq!(counts.get(&day), Some(&12));
    assert_eq!(counts.len(), 1);
}

#[test]
fn merge_counts_is_the_maximum_across_syncs() {
    let d1 = Date::new(2024, 3, 1);
    let d2 = Date::new(2024, 3, 2);
    let d3 = Date::new(2024, 3, 3);
    let mut stored: DailyCounts = SortedMap::new();
    stored.insert(d1, 10);
    stored.insert(d2, 20);
    let mut first: DailyCounts = SortedMap::new();
    first.insert(d2, 25);
    first.insert(d3, 30);
    let mut second: DailyCounts = SortedMap::new();
    second.insert(d1, 5);
    second.insert(d2, 22);
    second.insert(d3, 31);
    merge_counts(&mut stored, &first);
    merge_counts(&mut stored, &second);
    // overlapping ranges, in any order: the largest value of each day stays
    assert_eq!(stored.get(&d1), Some(&10));
    assert_eq!(stored.get(&d2), Some(&25));
    assert_eq!(stored.get(&d3), Some(&31));
    let again = second.duplicate();
    merge_counts(&mut stored, &again);
    assert_eq!(stored.get(&d1), Some(&10));
    assert_eq!(stored.get(&d2), Some(&25));
    assert_eq!(stored.get(&d3), Some(&31));
    assert_eq!(stored.len(), 3);
}

#[test]
fn dates_as_text() {
    assert_eq!(Date::new(2024, 1, 5).to_iso(), "2024-01-05");
    assert_eq!(Date::new(987, 12, 31).to_iso(), "0987-12-31");
    assert_eq!(Date::new(0, 1, 1).to_iso(), "0000-01-01");
    assert_eq!(Date::new(12345, 1, 1).to_iso(), "+12345-01-01");
    assert_eq!(Date::new(-44, 3, 15).to_iso(), "-0044-03-15");
}

#[test]
fn dates_from_text() {
    assert_eq!(Date::from_iso("2024-01-05"), Some(Date::new(2024, 1, 5)));
    assert_eq!(Date::from_iso("0987-12-31"), Some(Date::new(987, 12, 31)));
    assert_eq!(Date::from_iso("2024-1-5"), None);
    assert_eq!(Date::from_iso("2024-01-05 "), None);
    assert_eq!(Date::from_iso("2024/01/05"), None);
    assert_eq!(Date::from_iso("20x4-01-05"), None);
    assert_eq!(Date::from_iso("2024-01-0x"), None);
    assert_eq!(Date::from_iso("+12345-01-01"), None);
    assert_eq!(Date::from_iso(""), None);
    for (y, m, d) in [(2024, 2, 29), (1970, 1, 1), (9999, 12, 31), (0, 1, 1)] {
        let date = Date::new(y, m, d);
        assert_eq!(Date::from_iso(&date.to_iso()), Some(date));
    }
}

#[test]
fn maps_built_by_their_methods_are_in_order() {
    let mut m: SortedMap<i64, u64> = SortedMap::new();
    assert!(m.is_ordered());
    for k in [5, 1, 9, 3, 3, 7] {
        m.insert(k, 0);
        assert!(m.is_ordered());
    }
    m.remove(&1);
    assert!(m.is_ordered());
    let mut g = countlogger::data::GuildData::default();
    assert!(g.is_well_formed());
    g.daily_counts.insert(Date::new(2024, 1, 2), 2);
    g.daily_counts.insert(Date::new(2024, 1, 1), 1);
    assert!(g.is_well_formed());
}
