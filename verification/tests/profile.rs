use k9_console::profile::{integer_root, ProfileSet};

fn set(runs: &[u64]) -> ProfileSet {
    let mut set = ProfileSet::new();
    for run in runs {
        set.record(*run as u128);
    }
    set
}

#[test]
fn a_new_set_is_empty() {
    let set = ProfileSet::new();
    assert_eq!(set.run_count(), 0);
    assert_eq!(set.last(), None);
}

#[test]
fn runs_are_counted_and_the_latest_is_kept() {
    let mut set = set(&[5, 7]);
    assert_eq!(set.run_count(), 2);
    assert_eq!(set.last(), Some(7));
    set.clear();
    assert_eq!(set.run_count(), 0);
    assert_eq!(set.last(), None);
}

#[test]
fn stopping_without_a_start_adds_nothing() {
    let mut set = ProfileSet::new();
    set.stop();
    assert_eq!(set.run_count(), 0);
    set.start();
    set.stop();
    set.stop();
    assert_eq!(set.run_count(), 1);
    set.start();
    set.clear();
    set.stop();
    assert_eq!(set.run_count(), 0);
}

#[test]
fn a_scoped_run_is_timed_and_returns_its_result() {
    let mut set = ProfileSet::new();
    let answer = set.scoped_run(|| 6 * 7);
    assert_eq!(answer, 42);
    assert_eq!(set.run_count(), 1);
    let text = set.scoped_run(|| "done".to_string());
    assert_eq!(text, "done");
    assert_eq!(set.run_count(), 2);
    assert!(set.last().is_some());
}

#[test]
fn the_mean_is_rounded_down() {
    assert_eq!(set(&[10]).mean(), 10);
    assert_eq!(set(&[1, 2]).mean(), 1);
    assert_eq!(set(&[1000, 2000, 3000, 4001]).mean(), 2500);
    assert_eq!(set(&[u64::MAX, u64::MAX, u64::MAX]).mean(), u64::MAX);
}

#[test]
fn the_median_is_the_entry_in_the_middle() {
    assert_eq!(set(&[9]).median(), 9);
    assert_eq!(set(&[9, 1]).median(), 1);
    assert_eq!(set(&[9, 1, 5]).median(), 1);
    assert_eq!(set(&[9, 1, 5, 3]).median(), 5);
}

#[test]
fn variance_and_deviation_are_taken_in_microseconds() {
    let runs = set(&[2_000, 4_000, 4_000, 4_000, 5_000, 5_000, 7_000, 9_000]);
    assert_eq!(runs.mean(), 5_000);
    assert_eq!(runs.variance(), 32 / 7);
    assert_eq!(runs.std_dev(), 2);
    let wide = set(&[1_000_000, 3_000_000]);
    assert_eq!(wide.variance(), 2_000_000);
    assert_eq!(wide.std_dev(), 1414);
    let sub = set(&[1_999, 2_000, 2_999]);
    assert_eq!(sub.mean(), 2_332);
    assert_eq!(sub.variance(), 0);
    assert_eq!(sub.std_dev(), 0);
}

#[test]
fn the_root_is_rounded_down() {
    let cases: [(u128, u64); 12] = [
        (0, 0),
        (1, 1),
        (2, 1),
        (3, 1),
        (4, 2),
        (8, 2),
        (9, 3),
        (99, 9),
        (100, 10),
        (1 << 64, 1 << 32),
        ((1 << 64) - 1, (1 << 32) - 1),
        (u128::MAX, u64::MAX),
    ];
    for (n, root) in cases {
        assert_eq!(integer_root(n), root, "{}", n);
    }
}

#[test]
fn a_run_beyond_the_range_is_recorded_as_the_longest() {
    let mut set = ProfileSet::new();
    set.record(7);
    set.record(u64::MAX as u128);
    assert_eq!(set.last(), Some(u64::MAX));
    set.record(u64::MAX as u128 + 1);
    assert_eq!(set.last(), Some(u64::MAX));
    set.record(u128::MAX);
    assert_eq!(set.last(), Some(u64::MAX));
    assert_eq!(set.run_count(), 4);
    set.start();
    set.record(3);
    set.stop();
    assert_eq!(set.run_count(), 6);
    assert_ne!(set.last(), None);
}

#[test]
fn the_checked_figures_are_the_figures_or_none() {
    assert_eq!(ProfileSet::new().checked_variance(), None);
    assert_eq!(set(&[5]).checked_variance(), None);
    assert_eq!(set(&[5]).checked_std_dev(), None);
    let runs = set(&[2_000, 4_000, 4_000, 4_000, 5_000, 5_000, 7_000, 9_000]);
    assert_eq!(runs.checked_variance(), Some(runs.variance()));
    assert_eq!(runs.checked_variance(), Some(32 / 7));
    assert_eq!(runs.checked_std_dev(), Some(2));
    let wide = set(&[1_000_000, 3_000_000]);
    assert_eq!(wide.checked_variance(), Some(2_000_000));
    assert_eq!(wide.checked_std_dev(), Some(1414));
    let far = set(&[0, u64::MAX]);
    let half = (u64::MAX / 2 / 1000) as u128;
    let other = (u64::MAX / 1000) as u128 - half;
    assert_eq!(far.checked_variance(), Some(half * half + other * other));
    let mut many = ProfileSet::new();
    for i in 0..5_000_000u32 {
        many.record(if i % 2 == 0 { 0 } else { u64::MAX as u128 });
    }
    assert_eq!(many.checked_variance(), None);
    assert_eq!(many.checked_std_dev(), None);
}
