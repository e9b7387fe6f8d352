use netanvil::in_flight::InFlightLimit;

#[test]
fn unlimited_always_acquires() {
    let mut limit = InFlightLimit::new(0);
    for _ in 0..10000 {
        assert!(limit.try_acquire().is_some());
    }
}

#[test]
fn respects_capacity() {
    let mut limit = InFlightLimit::new(3);
    let _p1 = limit.try_acquire().unwrap();
    let _p2 = limit.try_acquire().unwrap();
    let _p3 = limit.try_acquire().unwrap();
    assert_eq!(limit.in_flight(), 3);

    // At capacity: nothing is given out.
    assert!(limit.try_acquire().is_none());
    assert_eq!(limit.in_flight(), 3);
}

#[test]
fn releases_on_drop() {
    let mut limit = InFlightLimit::new(2);
    let p1 = limit.try_acquire().unwrap();
    let _p2 = limit.try_acquire().unwrap();
    assert!(limit.try_acquire().is_none());

    limit.release(p1);
    assert_eq!(limit.in_flight(), 1);
    assert!(limit.try_acquire().is_some());
}

#[test]
fn capacity_reports_correctly() {
    let mut limit = InFlightLimit::new(512);
    assert_eq!(limit.capacity(), 512);
    assert_eq!(limit.in_flight(), 0);

    let _p = limit.try_acquire().unwrap();
    assert_eq!(limit.in_flight(), 1);
}

#[test]
fn permit_is_send_not_required() {
    let mut limit = InFlightLimit::new(10);
    let permit = limit.try_acquire().unwrap();
    assert_eq!(limit.in_flight(), 1);
    limit.release(permit);
    assert_eq!(limit.in_flight(), 0);
}
