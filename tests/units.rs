use isolate::{Space, Time};

#[test]
fn space_conversions() {
    assert_eq!(Space::from_byte(5).as_bytes(), 5);
    assert_eq!(Space::from_kib(3).as_bytes(), 3072);
    assert_eq!(Space::from_mib(2).as_bytes(), 2 * 1024 * 1024);
    assert_eq!(Space::from_byte(5000).as_kib(), 4);
    assert_eq!(Space::from_byte(3 * 1024 * 1024 + 5).as_mib(), 3);
    assert_eq!(Space::try_from_kib(10).unwrap().as_bytes(), 10240);
    assert!(Space::try_from_kib(-1).is_none());
    assert!(Space::try_from_kib(i64::MAX).is_none());
}

#[test]
fn time_conversions() {
    assert_eq!(Time::from_secs(2).as_micros(), 2_000_000);
    assert_eq!(Time::from_millis(1500).as_micros(), 1_500_000);
    assert_eq!(Time::from_micros(1_234_567).as_secs(), 1);
    assert_eq!(Time::from_micros(1_234_567).as_millis(), 1234);
    assert_eq!(Time::from_micros(1_234_567).subsec_micros(), 234_567);
    assert_eq!(Time::try_from_micros(42).unwrap().as_micros(), 42);
    assert!(Time::try_from_micros(u128::from(u64::MAX) + 1).is_none());
    assert_eq!(Time::try_from_timeval(3, 250).unwrap().as_micros(), 3_000_250);
    assert!(Time::try_from_timeval(-1, 0).is_none());
    assert!(Time::try_from_timeval(0, -1).is_none());
    assert!(Time::try_from_timeval(i64::MAX, 0).is_none());
}

#[test]
fn time_comparison() {
    assert!(Time::from_millis(1100).exceeds(&Time::from_secs(1)));
    assert!(!Time::from_millis(1000).exceeds(&Time::from_secs(1)));
    assert!(Time::from_millis(1) < Time::from_millis(2));
    assert_eq!(Space::from_kib(1), Space::from_byte(1024));
}
