use repo_fetch::progress::{checkout_phase, percent, transfer_phase, GitPhase};

#[test]
fn percent_is_clamped_and_exact() {
    assert_eq!(percent(0, 0), 0);
    assert_eq!(percent(5, 0), 0);
    assert_eq!(percent(0, 10), 0);
    assert_eq!(percent(50, 200), 25);
    assert_eq!(percent(1, 3), 33);
    assert_eq!(percent(100, 100), 100);
    // A total revised below the current counter still displays at most 100.
    assert_eq!(percent(7, 3), 100);
    assert_eq!(percent(usize::MAX, 1), 100);
}

#[test]
fn percent_is_monotonic_for_fixed_total() {
    let total = 37;
    let mut last = 0;
    for current in 0..=total {
        let p = percent(current, total);
        assert!(p >= last);
        assert!(p <= 100);
        last = p;
    }
    assert_eq!(last, 100);
}

#[test]
fn transfer_reports_fetch_until_deltas_appear() {
    assert_eq!(transfer_phase(12, 90, 0, 0), GitPhase::Fetch(12, 90));
    assert_eq!(transfer_phase(90, 90, 4, 20), GitPhase::DeltaResolve(4, 20));
}

#[test]
fn checkout_reports_its_counters() {
    assert_eq!(checkout_phase(3, 9), GitPhase::Checkout(3, 9));
}
