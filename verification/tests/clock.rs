use netanvil::controller::clock::{reading, system_clock, Clock, TestClock};

#[test]
fn test_clock_moves_when_told() {
    let mut c = TestClock::new();
    let start = c.now();
    c.advance(1_500);
    assert_eq!(c.now(), start + 1_500);
    assert_eq!(c.elapsed_since(start), 1_500);
    assert_eq!(c.elapsed_since(start + 9_000), 0);
}

#[test]
fn system_clock_never_goes_back() {
    let c = system_clock();
    let first = c.now();
    let mut last = first;
    for _ in 0..1000 {
        let now = c.now();
        assert!(now >= last);
        last = now;
    }
    while c.now() == first {}
    assert!(c.elapsed_since(first) > 0);
}

#[test]
fn readings_are_cut_off() {
    assert_eq!(reading(0), 0);
    assert_eq!(reading(1_500), 1_500);
    assert_eq!(reading(u64::MAX as u128), u64::MAX);
    assert_eq!(reading(u64::MAX as u128 + 1), u64::MAX);
}

#[test]
fn time_ahead_has_not_elapsed() {
    let c = system_clock();
    assert_eq!(c.elapsed_since(u64::MAX), 0);
}
