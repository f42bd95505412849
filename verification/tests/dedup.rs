use modem_scraper::FixedSizeSortedHashSet;
use modem_scraper::codec::log_line::{Level, LogEntry};
use modem_scraper::codec::timestamp::Timestamp;
use modem_scraper::dedup::DedupKey;

fn entry(secs: i64, message: &str) -> LogEntry {
    LogEntry {
        timestamp: Timestamp { secs, nanos: 0 },
        level: Level::Info,
        message: message.to_string(),
    }
}

#[test]
fn new_set_has_no_members() {
    let mut set: FixedSizeSortedHashSet<u64> = FixedSizeSortedHashSet::with_capacity(4);
    assert!(!set.contains(&1));
    assert_eq!(set.pop_front(), None);
}

#[test]
fn set_keeps_one_item_less_than_its_capacity() {
    let mut set: FixedSizeSortedHashSet<u64> = FixedSizeSortedHashSet::with_capacity(3);
    assert_eq!(set.insert(1), None);
    assert_eq!(set.insert(2), None);
    assert_eq!(set.insert(3), Some(1));
    assert_eq!(set.insert(4), Some(2));
    assert!(!set.contains(&1));
    assert!(!set.contains(&2));
    assert!(set.contains(&3));
    assert!(set.contains(&4));
    assert_eq!(set.pop_front(), Some(3));
    assert_eq!(set.pop_front(), Some(4));
    assert_eq!(set.pop_front(), None);
}

#[test]
fn insert_on_a_full_set_returns_the_oldest_item() {
    let capacity: u64 = 30;
    let mut set: FixedSizeSortedHashSet<u64> = FixedSizeSortedHashSet::with_capacity(30);
    for item in 0..capacity + 1 {
        let evicted = set.insert(item);
        if item + 1 >= capacity {
            assert_eq!(evicted, Some(item + 1 - capacity));
        } else {
            assert_eq!(evicted, None);
        }
    }
    for item in 0..capacity + 1 {
        assert_eq!(set.contains(&item), item >= 2);
    }
    let mut order = Vec::new();
    while let Some(item) = set.pop_front() {
        order.push(item);
    }
    assert_eq!(order, (2..capacity + 1).collect::<Vec<u64>>());
}

#[test]
fn set_of_capacity_one_holds_the_last_item() {
    let mut set: FixedSizeSortedHashSet<u64> = FixedSizeSortedHashSet::with_capacity(1);
    assert_eq!(set.insert(7), None);
    assert_eq!(set.insert(8), Some(7));
    assert!(set.contains(&8));
    assert!(!set.contains(&7));
    let mut none: FixedSizeSortedHashSet<u64> = FixedSizeSortedHashSet::with_capacity(0);
    assert_eq!(none.insert(7), None);
    assert!(none.contains(&7));
    assert_eq!(none.insert(8), Some(7));
    assert!(none.contains(&8));
}

#[test]
fn inserting_a_member_again_puts_it_in_the_queue_twice() {
    let mut set: FixedSizeSortedHashSet<u64> = FixedSizeSortedHashSet::with_capacity(10);
    assert_eq!(set.insert(1), None);
    assert_eq!(set.insert(2), None);
    assert_eq!(set.insert(1), None);
    assert!(set.contains(&1));
    assert_eq!(set.pop_front(), Some(1));
    assert!(!set.contains(&1));
    assert_eq!(set.pop_front(), Some(2));
}

#[test]
fn members_and_queue_stay_in_step() {
    let mut set: FixedSizeSortedHashSet<u64> = FixedSizeSortedHashSet::with_capacity(5);
    let mut model: Vec<u64> = Vec::new();
    for step in 0..200u64 {
        let item = (step * 7919) % 23;
        if set.contains(&item) {
            assert!(model.contains(&item));
            continue;
        }
        assert!(!model.contains(&item));
        let evicted = set.insert(item);
        if model.len() + 1 >= 5 {
            assert_eq!(evicted, Some(model.remove(0)));
        } else {
            assert_eq!(evicted, None);
        }
        model.push(item);
        assert!(model.len() <= 4);
        for candidate in 0..23u64 {
            assert_eq!(set.contains(&candidate), model.contains(&candidate));
        }
    }
}

#[test]
fn log_records_are_members_by_value() {
    let mut set: FixedSizeSortedHashSet<LogEntry> = FixedSizeSortedHashSet::with_capacity(3);
    assert_eq!(set.insert(entry(1, "a")), None);
    assert!(set.contains(&entry(1, "a")));
    assert!(!set.contains(&entry(1, "b")));
    assert!(!set.contains(&entry(2, "a")));
    let mut warn = entry(1, "a");
    warn.level = Level::Warn;
    assert!(!set.contains(&warn));
    assert_eq!(set.insert(entry(2, "b")), None);
    assert_eq!(set.insert(entry(3, "c")), Some(entry(1, "a")));
    assert!(!set.contains(&entry(1, "a")));
}

#[test]
fn digest_depends_on_every_field() {
    let base = entry(1, "a");
    assert_eq!(base.digest(), entry(1, "a").digest());
    assert!(base.same(&entry(1, "a")));
    assert_eq!(base.duplicate(), base);
    assert_ne!(base.digest(), entry(2, "a").digest());
    assert_ne!(base.digest(), entry(1, "b").digest());
    assert_ne!(base.digest(), entry(1, "aa").digest());
    let mut other = entry(1, "a");
    other.timestamp.nanos = 1;
    assert_ne!(base.digest(), other.digest());
    assert!(!base.same(&other));
    assert_eq!(5u64.digest(), 5);
    assert!(5u64.same(&5));
    assert_eq!(5u64.duplicate(), 5);
}
