use load_shedding::interval::{intersection, interval, Interval};

fn intvl(now: u64, start_hours: u64, end_hours: u64) -> Interval {
    interval(now + start_hours * 3600, now + end_hours * 3600).unwrap()
}

#[test]
fn interval_tests() {
    let now: u64 = 1_000_000_000;
    assert_eq!(intersection(intvl(now, 0, 2), intvl(now, 2, 4)), None);
    assert_eq!(
        intersection(intvl(now, 0, 2), intvl(now, 1, 3)),
        Some(intvl(now, 1, 2))
    );
}

#[test]
fn interval_rejects_empty_ranges() {
    assert_eq!(interval(10, 10), None);
    assert_eq!(interval(11, 10), None);
    assert_eq!(
        interval(10, 11),
        Some(Interval { start: 10, end: 11 })
    );
}

#[test]
fn intersection_is_commutative() {
    let now: u64 = 500_000;
    let cases = [
        (intvl(now, 0, 2), intvl(now, 1, 5)),
        (intvl(now, 0, 2), intvl(now, 2, 4)),
        (intvl(now, 3, 9), intvl(now, 4, 5)),
        (intvl(now, 0, 1), intvl(now, 5, 6)),
    ];
    for (a, b) in cases {
        assert_eq!(intersection(a, b), intersection(b, a));
    }
}
