// Stability detection scenarios, on fixed-point readings in hundredths of
// a unit (100.0 units == 10000).

use stability_trigger::detector::StabilityVerdict;
use stability_trigger::detector::Threshold;
use stability_trigger::detector::detect;
use stability_trigger::detector::is_stable_resistance;
use stability_trigger::detector::signal_is_stable;
use stability_trigger::index;
use stability_trigger::smoothing::smooth_series;

fn default_threshold() -> Threshold {
    Threshold::default_value()
}

#[test]
fn test_stable_resistance() {
    let stable: Vec<i64> = vec![10000, 10010, 9990, 10005];
    assert!(is_stable_resistance(&stable, &default_threshold()));
}

#[test]
fn test_unstable_resistance() {
    let unstable: Vec<i64> = vec![10000, 11000, 12000, 13000];
    assert!(!is_stable_resistance(&unstable, &default_threshold()));
}

#[test]
fn test_empty_input() {
    let empty: Vec<i64> = vec![];
    assert!(!is_stable_resistance(&empty, &default_threshold()));
}

#[test]
fn test_insufficient_samples() {
    let short: Vec<i64> = vec![10000, 10100];
    assert!(!is_stable_resistance(&short, &default_threshold()));
}

#[test]
fn zero_baseline_is_never_stable() {
    // A zero first value (the exact analogue of "within epsilon of zero")
    // blocks the relative judgment even for a perfectly flat tail.
    let zero_first: Vec<i64> = vec![0, 5, 5, 5];
    assert!(!is_stable_resistance(&zero_first, &default_threshold()));
}

#[test]
fn constant_series_is_stable() {
    let flat: Vec<i64> = vec![10000, 10000, 10000, 10000, 10000];
    assert!(is_stable_resistance(&flat, &default_threshold()));
}

#[test]
fn three_samples_suffice() {
    let three: Vec<i64> = vec![10000, 10001, 10002];
    assert!(is_stable_resistance(&three, &default_threshold()));
}

#[test]
fn detection_is_idempotent() {
    // The filter and detector are pure: two runs over the same ordered
    // input yield the identical verdict.
    let input: Vec<i64> = vec![10000, 10010, 9990, 10005];
    let t = default_threshold();
    let first_run = is_stable_resistance(&input, &t);
    let second_run = is_stable_resistance(&input, &t);
    assert_eq!(first_run, second_run);
    let trending: Vec<i64> = vec![10000, 11000, 12000, 13000];
    assert_eq!(
        is_stable_resistance(&trending, &t),
        is_stable_resistance(&trending, &t)
    );
}

#[test]
fn verdict_reports_exact_derivative() {
    // For [10000, 11000, 12000, 13000] the last smoothed value is
    // (11000 + 12000 + 13000) / 3 and the first is 10000 / 1, so the
    // window derivative is (36000*1 - 10000*3) / (1*3*4) = 6000 / 12.
    let trending: Vec<i64> = vec![10000, 11000, 12000, 13000];
    let series = smooth_series(&trending, 3);
    let v: StabilityVerdict = detect(&series, &default_threshold());
    assert!(!v.is_stable);
    assert_eq!(v.deriv_num, 6000);
    assert_eq!(v.deriv_den, 12);
}

#[test]
fn short_series_verdict_is_not_stable() {
    let short: Vec<i64> = vec![10000, 10100];
    let series = smooth_series(&short, 3);
    let v = detect(&series, &default_threshold());
    assert!(!v.is_stable);
    assert_eq!(v.deriv_num, 0);
    assert_eq!(v.deriv_den, 1);
}

#[test]
fn threshold_is_strict() {
    // With threshold 0 nothing is stable: the comparison is strict.
    let flat: Vec<i64> = vec![10000, 10000, 10000];
    let zero = Threshold::new(0, 1);
    assert!(!is_stable_resistance(&flat, &zero));
}

#[test]
fn wider_smoothing_window_changes_the_endpoints() {
    // With width 5 the last smoothed value of a 5-element series averages
    // all of it, flattening the endpoint slope a trending window shows.
    let drifting: Vec<i64> = vec![10000, 10200, 10400, 10600, 10800];
    let t = Threshold::new(1, 100);
    assert!(!signal_is_stable(&drifting, 3, &t));
    assert!(signal_is_stable(&drifting, 5, &t));
}

#[test]
fn verdict_is_scale_invariant() {
    // The same readings in a finer fixed-point unit get the same verdict.
    let t = default_threshold();
    let hundredths: Vec<i64> = vec![10000, 10010, 9990, 10005];
    let finer: Vec<i64> = hundredths.iter().map(|v| v * 100).collect();
    assert_eq!(
        is_stable_resistance(&hundredths, &t),
        is_stable_resistance(&finer, &t)
    );
    let trending: Vec<i64> = vec![10000, 11000, 12000, 13000];
    let finer_trending: Vec<i64> = trending.iter().map(|v| v * 100).collect();
    assert_eq!(
        is_stable_resistance(&trending, &t),
        is_stable_resistance(&finer_trending, &t)
    );
}

#[test]
fn index_greets() {
    assert_eq!(index(), "Hello, world!");
}
