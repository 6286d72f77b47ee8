use super_matte_bros::timer::{milliseconds, Timer};

#[test]
fn milliseconds_counts_whole_milliseconds() {
    assert_eq!(milliseconds(0, 0), 0);
    assert_eq!(milliseconds(3, 4_500_000), 3_004);
    assert_eq!(milliseconds(0, 999_999), 0);
    assert_eq!(milliseconds(0, 1_000_000), 1);
    assert_eq!(milliseconds(1, 0), 1_000);
    assert_eq!(milliseconds(12, 999_999_999), 12_999);
}

#[test]
fn milliseconds_stops_at_the_largest_u64() {
    assert_eq!(milliseconds(18_446_744_073_709_551, 614_999_999), u64::MAX - 1);
    assert_eq!(milliseconds(18_446_744_073_709_551, 615_000_000), u64::MAX);
    assert_eq!(milliseconds(18_446_744_073_709_551, 616_000_000), u64::MAX);
    assert_eq!(milliseconds(u64::MAX, 0), u64::MAX);
    assert_eq!(milliseconds(u64::MAX, u32::MAX), u64::MAX);
}

#[test]
fn a_timer_starts_near_zero_and_never_runs_backwards() {
    let timer = Timer::new();
    let first = timer.current_time();
    assert!(first < 60_000);
    let mut last = first;
    for _ in 0..1_000 {
        let now = timer.current_time();
        assert!(now >= last);
        last = now;
    }
}

#[test]
fn a_timer_sees_time_pass() {
    let timer = Timer::new();
    let start = timer.current_time();
    let mut now = start;
    let mut spins: u64 = 0;
    while now < start + 2 && spins < 2_000_000_000 {
        now = timer.current_time();
        spins += 1;
    }
    assert!(now >= start + 2);
}
