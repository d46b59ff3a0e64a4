use routing::member_info::{AgeCounter, MIN_AGE, MIN_AGE_COUNTER_VALUE};

#[test]
fn min_age_counter_agrees_with_min_age() {
    assert_eq!(AgeCounter(MIN_AGE_COUNTER_VALUE).age(), MIN_AGE);
}

#[test]
fn age_counter_to_age() {
    let max_age = 16;
    let mut age_counter = AgeCounter::default();

    for age in MIN_AGE..max_age {
        for _ in 0..2u32.pow(u32::from(age)) - 1 {
            assert_eq!(age_counter.age(), age);
            assert!(!age_counter.increment());
        }

        assert!(age_counter.increment());
    }

    assert_eq!(age_counter.age(), max_age);
}

#[test]
fn from_age_raises_to_min_age_and_saturates() {
    assert_eq!(AgeCounter::from_age(0).0, 16);
    assert_eq!(AgeCounter::from_age(5).0, 32);
    assert_eq!(AgeCounter::from_age(31).0, 1 << 31);
    assert_eq!(AgeCounter::from_age(40).0, u32::MAX);
    assert_eq!(AgeCounter::from_age(7).age(), 7);
}

#[test]
fn increment_stops_at_max() {
    let mut c = AgeCounter(u32::MAX);
    assert!(!c.increment());
    assert_eq!(c.0, u32::MAX);
    let mut c = AgeCounter(31);
    assert!(c.increment());
    assert_eq!(c.age(), 5);
}
