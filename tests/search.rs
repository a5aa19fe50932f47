use ab_av1::search::{CrfSearch, Decision, SearchError};
use ab_av1::sample::{Sample, SampleOutput, SearchConfig, StdoutFormat};
use ab_av1::lerp::vmaf_lerp_crf;

fn config(min_crf: u8, max_crf: u8) -> SearchConfig {
    SearchConfig {
        preset: 8,
        min_vmaf: 95_000,
        max_encoded_percent: 80_000,
        min_crf,
        max_crf,
        samples: 3,
    }
}

fn out(vmaf: u64, percent: u64) -> SampleOutput {
    SampleOutput {
        vmaf,
        predicted_encode_size: 1_000_000,
        predicted_encode_percent: percent,
        predicted_encode_time_ms: 60_000,
    }
}

fn sample(crf: u8, vmaf: u64) -> Sample {
    Sample { crf, samples: 1, enc: out(vmaf, 50_000) }
}

#[test]
fn invalid_range_is_refused() {
    assert!(matches!(CrfSearch::new(config(40, 30)), Err(SearchError::InvalidCrfRange)));
}

#[test]
fn search_starts_at_midpoint_with_one_sample() {
    let s = CrfSearch::new(config(10, 55)).unwrap();
    assert_eq!(s.crf(), 32);
    assert_eq!(s.samples(), 1);
    assert_eq!(s.run(), 1);
    assert!(!s.quick_3rd_run());
    assert!(!s.is_finished());
    assert!(s.attempts().is_empty());
}

#[test]
fn single_crf_range_is_accepted() {
    let mut s = CrfSearch::new(config(30, 30)).unwrap();
    assert_eq!(s.crf(), 30);
    let d = s.record(out(96_000, 50_000));
    assert_eq!(d, Decision::Found(Sample { crf: 30, samples: 1, enc: out(96_000, 50_000) }));
    assert!(s.is_finished());
}

#[test]
fn good_first_sample_moves_to_upper_midpoint() {
    let mut s = CrfSearch::new(config(10, 55)).unwrap();
    assert_eq!(s.crf(), 32);
    assert_eq!(s.record(out(97_000, 60_000)), Decision::Next(43));
    assert_eq!(s.crf(), 43);
    assert_eq!(s.run(), 2);
    assert_eq!(s.attempts().len(), 1);
    assert_eq!(s.attempts()[0].crf, 32);
}

#[test]
fn lerp_between_bracketing_samples() {
    assert_eq!(vmaf_lerp_crf(95_000, &sample(20, 92_000), &sample(10, 98_000)), 15);
}

#[test]
fn lerp_rounds_half_up_and_clamps() {
    // 20 - 10 * (1 / 4) = 17.5
    assert_eq!(vmaf_lerp_crf(93_000, &sample(20, 92_000), &sample(10, 96_000)), 18);
    // the line reaches the target at crf 10 itself, one above is returned
    assert_eq!(vmaf_lerp_crf(96_000, &sample(20, 92_000), &sample(10, 96_000)), 11);
    // worse already at the target
    assert_eq!(vmaf_lerp_crf(92_000, &sample(20, 92_000), &sample(10, 96_000)), 20);
}

#[test]
fn bad_sample_interpolates_towards_lower_neighbour() {
    let mut s = CrfSearch::new(config(0, 20)).unwrap();
    assert_eq!(s.crf(), 10);
    assert_eq!(s.record(out(98_000, 50_000)), Decision::Next(15));
    assert_eq!(s.record(out(97_000, 50_000)), Decision::Next(20));
    assert_eq!(s.crf(), 20);
    assert_eq!(s.samples(), 1);
    assert!(s.quick_3rd_run());
    // between (20, 92) and (15, 97): 20 - 5 * 0.6 = 17
    assert_eq!(s.record(out(92_000, 50_000)), Decision::Next(17));
    assert_eq!(s.samples(), 3);
    assert_eq!(s.run(), 4);
}

#[test]
fn bad_sample_at_min_crf_with_large_size_fails() {
    let mut s = CrfSearch::new(config(10, 55)).unwrap();
    assert_eq!(s.record(out(90_000, 50_000)), Decision::Next(21));
    assert_eq!(s.record(out(91_000, 50_000)), Decision::Next(10));
    assert_eq!(s.crf(), 10);
    assert_eq!(s.samples(), 1);
    assert!(s.quick_3rd_run());
    let d = s.record(out(93_000, 85_000));
    assert_eq!(d, Decision::Failed(Sample { crf: 10, samples: 1, enc: out(93_000, 85_000) }));
    assert!(s.is_finished());
    assert_eq!(s.attempts().len(), 3);
}

#[test]
fn bad_sample_over_size_budget_fails() {
    let mut s = CrfSearch::new(config(10, 55)).unwrap();
    let d = s.record(out(90_000, 81_000));
    assert_eq!(d, Decision::Failed(Sample { crf: 32, samples: 1, enc: out(90_000, 81_000) }));
}

#[test]
fn adjacent_lower_neighbour_is_the_answer() {
    let mut s = CrfSearch::new(config(10, 55)).unwrap();
    assert_eq!(s.record(out(97_000, 50_000)), Decision::Next(43));
    // (43, 90) and (32, 97): 43 - 11 * 5 / 7 = 35.14
    assert_eq!(s.record(out(90_000, 50_000)), Decision::Next(35));
    assert_eq!(s.samples(), 3);
    // (35, 94) and (32, 97): 35 - 3 / 3 = 34
    assert_eq!(s.record(out(94_000, 50_000)), Decision::Next(34));
    // (34, 93) and (32, 97): 34 - 2 * 2 / 4 = 33
    let d = s.record(out(93_000, 50_000));
    assert_eq!(d, Decision::Next(33));
    let d = s.record(out(94_000, 50_000));
    assert_eq!(d, Decision::Found(Sample { crf: 32, samples: 1, enc: out(97_000, 50_000) }));
    assert!(s.is_finished());
}

#[test]
fn adjacent_upper_neighbour_ends_with_current() {
    let mut s = CrfSearch::new(config(10, 55)).unwrap();
    assert_eq!(s.record(out(97_000, 50_000)), Decision::Next(43));
    assert_eq!(s.record(out(90_000, 50_000)), Decision::Next(35));
    // met, far above the tolerance, no convergence shortcut
    // (43, 90) and (35, 99): 43 - 8 * 5 / 9 = 38.56
    assert_eq!(s.record(out(99_000, 50_000)), Decision::Next(39));
    // 43 - 4 * 5 / 9 = 40.78
    assert_eq!(s.record(out(99_000, 50_000)), Decision::Next(41));
    // 43 - 2 * 5 / 9 = 41.89
    assert_eq!(s.record(out(99_000, 50_000)), Decision::Next(42));
    let d = s.record(out(99_500, 50_000));
    assert_eq!(d, Decision::Found(Sample { crf: 42, samples: 3, enc: out(99_500, 50_000) }));
}

#[test]
fn close_enough_sample_is_accepted_from_third_run() {
    let mut s = CrfSearch::new(config(10, 55)).unwrap();
    assert_eq!(s.record(out(97_000, 50_000)), Decision::Next(43));
    assert_eq!(s.record(out(90_000, 50_000)), Decision::Next(35));
    // within 0.2 * 3 = 0.6 of the target
    let d = s.record(out(95_500, 50_000));
    assert_eq!(d, Decision::Found(Sample { crf: 35, samples: 3, enc: out(95_500, 50_000) }));
}

#[test]
fn good_sample_at_max_crf_is_accepted() {
    let mut s = CrfSearch::new(config(10, 55)).unwrap();
    assert_eq!(s.record(out(99_000, 50_000)), Decision::Next(43));
    assert_eq!(s.record(out(98_000, 50_000)), Decision::Next(55));
    assert!(s.quick_3rd_run());
    let d = s.record(out(99_000, 50_000));
    assert_eq!(d, Decision::Found(Sample { crf: 55, samples: 1, enc: out(99_000, 50_000) }));
}

#[test]
fn target_met_exactly_counts_as_met() {
    let mut s = CrfSearch::new(config(10, 55)).unwrap();
    assert_eq!(s.record(out(95_000, 50_000)), Decision::Next(43));
}

#[test]
fn widest_crf_range_does_not_overflow() {
    let mut s = CrfSearch::new(config(0, 255)).unwrap();
    assert_eq!(s.crf(), 127);
    assert_eq!(s.record(out(99_000, 50_000)), Decision::Next(191));
    assert_eq!(s.record(out(99_000, 50_000)), Decision::Next(255));
    assert_eq!(s.record(out(99_000, 50_000)), Decision::Found(Sample { crf: 255, samples: 1, enc: out(99_000, 50_000) }));
}

#[test]
fn sample_checks() {
    let s = Sample { crf: 30, samples: 1, enc: out(95_000, 80_000) };
    assert!(s.meets_vmaf(95_000));
    assert!(!s.meets_vmaf(95_001));
    assert!(!s.exceeds_size(80_000));
    assert!(s.exceeds_size(79_999));
    assert_eq!(StdoutFormat::Human, StdoutFormat::Human);
}
