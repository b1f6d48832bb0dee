//! Chance and new ids.

use petphrase::clock::{rand_ticks, ticks_of, uid, uid_of};

#[test]
fn ticks_from_nanoseconds() {
    assert_eq!(ticks_of(0), 90);
    assert_eq!(ticks_of(240), 330);
    assert_eq!(ticks_of(241), 90);
    assert_eq!(ticks_of(999_999_999), 90 + 999_999_999 % 241);
    assert_eq!(ticks_of(u32::MAX), 90 + (u32::MAX % 241) as i32);
}

#[test]
fn chance_stays_in_its_limits() {
    let mut seen = std::collections::HashSet::new();
    for _ in 0..20_000 {
        let t = rand_ticks();
        assert!((90..=330).contains(&t));
        seen.insert(t);
    }
    assert!(seen.len() > 1, "the clock moves on");
}

#[test]
fn ids_from_time_and_count() {
    assert_eq!(uid_of(0, 0), "p-0-0");
    assert_eq!(uid_of(255, 10), "p-ff-10");
    assert_eq!(uid_of(1_700_000_000_123, 7), format!("p-{:x}-7", 1_700_000_000_123u128));
    assert_eq!(uid_of(u128::MAX, u64::MAX), format!("p-{:x}-{}", u128::MAX, u64::MAX));
}

#[test]
fn ids_of_one_run_differ() {
    let mut count = 0;
    let mut seen = std::collections::HashSet::new();
    for n in 0..1000 {
        let before = std::time::SystemTime::now()
            .duration_since(std::time::UNIX_EPOCH)
            .unwrap()
            .as_millis();
        let id = uid(&mut count);
        let after = std::time::SystemTime::now()
            .duration_since(std::time::UNIX_EPOCH)
            .unwrap()
            .as_millis();
        let parts: Vec<&str> = id.split('-').collect();
        assert_eq!((parts.len(), parts[0]), (3, "p"));
        let t = u128::from_str_radix(parts[1], 16).unwrap();
        assert!(before <= t && t <= after);
        assert_eq!(parts[2], format!("{}", n));
        assert!(seen.insert(id));
    }
    assert_eq!(count, 1000);
}

#[test]
fn the_count_wraps() {
    let mut count = u64::MAX;
    assert!(uid(&mut count).ends_with(&format!("-{}", u64::MAX)));
    assert_eq!(count, 0);
}
