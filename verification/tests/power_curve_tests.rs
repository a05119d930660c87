use power_curve::curve::PowerCurveEntry;
use power_curve::curve::best_window_sum;
use power_curve::curve::calculate_power_curve;
use power_curve::curve::curve_entry;
use power_curve::staircase::get_power_curve_buckets;
use power_curve::staircase::staircase_entry_at;
use power_curve::structures::ValueWithUnit;
use power_curve::structures::WorkoutType;

fn average(e: &PowerCurveEntry) -> f32 {
    e.best_total as f32 / e.duration as f32
}

#[test]
fn four_rising_samples() {
    let samples: Vec<u64> = vec![100, 200, 300, 400];
    let curve = calculate_power_curve(&samples);
    assert_eq!(curve.len(), 4);
    let durations: Vec<usize> = curve.iter().map(|e| e.duration).collect();
    assert_eq!(durations, vec![1, 2, 3, 4]);
    assert_eq!(curve[0].best_total, 400);
    assert_eq!(curve[1].best_total, 700);
    assert_eq!(curve[2].best_total, 900);
    assert_eq!(curve[3].best_total, 1000);
    assert_eq!(average(&curve[0]), 400.0);
    assert_eq!(average(&curve[1]), 350.0);
    assert_eq!(average(&curve[2]), 300.0);
    assert_eq!(average(&curve[3]), 250.0);
}

#[test]
fn constant_samples_310() {
    let samples: Vec<u64> = vec![150; 310];
    let curve = calculate_power_curve(&samples);
    // Candidates: 1..=300 second by second, then 310; 301..309 are skipped.
    assert_eq!(curve.len(), 301);
    for (k, entry) in curve.iter().enumerate().take(300) {
        assert_eq!(entry.duration, k + 1);
        assert_eq!(entry.best_total, 150 * (k as u128 + 1));
        assert_eq!(average(entry), 150.0);
    }
    assert_eq!(curve[300].duration, 310);
    assert_eq!(curve[300].best_total, 150 * 310);
    assert_eq!(average(&curve[300]), 150.0);
}

#[test]
fn empty_recording_gives_empty_curve() {
    let samples: Vec<u64> = Vec::new();
    let curve = calculate_power_curve(&samples);
    assert!(curve.is_empty());
}

#[test]
fn engine_is_idempotent() {
    let samples: Vec<u64> = vec![7, 0, 13, 260, 260, 1, 999, 42];
    let first = calculate_power_curve(&samples);
    let second = calculate_power_curve(&samples);
    assert_eq!(first, second);
}

#[test]
fn durations_are_ascending_and_within_recording() {
    let samples: Vec<u64> = (0..350).map(|i| (i * 37) % 500).collect();
    let curve = calculate_power_curve(&samples);
    // Staircase entries at most 350: all of 1..=300 plus 310, 320, 330, 340, 350.
    assert_eq!(curve.len(), 305);
    for entry in &curve {
        assert!(1 <= entry.duration && entry.duration <= samples.len());
    }
    for pair in curve.windows(2) {
        assert!(pair[0].duration < pair[1].duration);
    }
}

#[test]
fn best_dominates_every_window() {
    let samples: Vec<u64> = vec![10, 50, 20, 80];
    let d = 2;
    let best = best_window_sum(&samples, d);
    for window in samples.windows(d) {
        let total: u128 = window.iter().map(|&x| x as u128).sum();
        assert!(best >= total);
    }
    assert_eq!(best, 100);
    assert_eq!(best as f32 / d as f32, 50.0);
}

#[test]
fn non_increasing_input_has_non_increasing_averages() {
    let samples: Vec<u64> = vec![400, 300, 200, 100];
    let curve = calculate_power_curve(&samples);
    assert_eq!(curve.len(), 4);
    for pair in curve.windows(2) {
        // Exact comparison of the two averages by cross-multiplication.
        assert!(
            pair[0].best_total * pair[1].duration as u128
                >= pair[1].best_total * pair[0].duration as u128
        );
        assert!(average(&pair[0]) >= average(&pair[1]));
    }
}

#[test]
fn single_entry_via_curve_entry() {
    let samples: Vec<u64> = vec![5, 0];
    let e1 = curve_entry(&samples, 1);
    assert_eq!(e1.duration, 1);
    assert_eq!(e1.best_total, 5);
    let e2 = curve_entry(&samples, 2);
    assert_eq!(e2.duration, 2);
    assert_eq!(e2.best_total, 5);
    assert_eq!(average(&e2), 2.5);
}

#[test]
fn buckets_empty_for_empty_recording() {
    assert!(get_power_curve_buckets(0).is_empty());
}

#[test]
fn buckets_one_second_recording() {
    assert_eq!(get_power_curve_buckets(1), vec![1]);
}

#[test]
fn buckets_boundaries() {
    let b300 = get_power_curve_buckets(300);
    assert_eq!(b300.len(), 300);
    assert_eq!(*b300.last().unwrap(), 300);

    // Between 300 and 310 nothing new appears.
    let b305 = get_power_curve_buckets(305);
    assert_eq!(b305.len(), 300);

    let b310 = get_power_curve_buckets(310);
    assert_eq!(b310.len(), 301);
    assert_eq!(*b310.last().unwrap(), 310);

    let b3600 = get_power_curve_buckets(3600);
    assert_eq!(b3600.len(), 630);
    assert_eq!(*b3600.last().unwrap(), 3600);

    // Between 3600 and 3700 nothing new appears.
    let b3650 = get_power_curve_buckets(3650);
    assert_eq!(b3650.len(), 630);

    let b3700 = get_power_curve_buckets(3700);
    assert_eq!(b3700.len(), 631);
    assert_eq!(*b3700.last().unwrap(), 3700);
}

#[test]
fn buckets_cap_at_one_day() {
    let full = get_power_curve_buckets(86400);
    assert_eq!(full.len(), 3387);
    assert_eq!(*full.last().unwrap(), 86380);

    // A recording longer than a day evaluates the same candidate set.
    let longer = get_power_curve_buckets(10_000_000);
    assert_eq!(longer, full);
}

#[test]
fn staircase_entries_match_schedule() {
    assert_eq!(staircase_entry_at(0), 1);
    assert_eq!(staircase_entry_at(299), 300);
    assert_eq!(staircase_entry_at(300), 310);
    assert_eq!(staircase_entry_at(301), 320);
    assert_eq!(staircase_entry_at(629), 3600);
    assert_eq!(staircase_entry_at(630), 3700);
    assert_eq!(staircase_entry_at(631), 3730);
    assert_eq!(staircase_entry_at(3386), 86380);
}

#[test]
fn value_with_unit_holds_fields() {
    let v = ValueWithUnit::new(250u16, String::from("W"));
    assert_eq!(v.value, 250);
    assert_eq!(v.units, "W");
}

#[test]
fn workout_type_variants_are_distinct() {
    assert_ne!(WorkoutType::Cycling, WorkoutType::Run);
    assert_ne!(WorkoutType::Run, WorkoutType::WeightTraining);
    assert_eq!(WorkoutType::Cycling, WorkoutType::Cycling);
}
