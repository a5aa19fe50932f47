use ab_av1::progress::{guess_progress, sample_fraction, BAR_LEN};
use ab_av1::search::CrfSearch;
use ab_av1::sample::{SampleOutput, SearchConfig};

#[test]
fn progress_exact_values() {
    assert_eq!(guess_progress(1, 0, false), 0);
    assert_eq!(guess_progress(1, 500, false), 62);
    assert_eq!(guess_progress(2, 0, false), 125);
    assert_eq!(guess_progress(3, 0, false), 250);
    assert_eq!(guess_progress(3, 1000, false), 625);
    assert_eq!(guess_progress(4, 1000, false), BAR_LEN);
    assert_eq!(guess_progress(3, 1000, true), 500);
    assert_eq!(guess_progress(4, 1000, true), BAR_LEN);
    assert_eq!(guess_progress(5, 0, true), 666);
    assert_eq!(guess_progress(5, 0, false), 727);
    assert_eq!(guess_progress(5, 1000, false), BAR_LEN);
}

#[test]
fn progress_never_goes_back_within_a_run() {
    for run in 1..12u64 {
        for quick in [false, true] {
            let mut last = 0;
            for f in 0..=1000u64 {
                let p = guess_progress(run, f, quick);
                assert!(p >= last);
                assert!(p <= BAR_LEN);
                last = p;
            }
        }
    }
}

#[test]
fn sample_fraction_values() {
    assert_eq!(sample_fraction(0, 0), 0);
    assert_eq!(sample_fraction(1, 3), 333);
    assert_eq!(sample_fraction(7, 7), 1000);
    assert_eq!(sample_fraction(u64::MAX, u64::MAX), 1000);
}

#[test]
fn search_progress_follows_its_run() {
    let cfg = SearchConfig {
        preset: 8,
        min_vmaf: 95_000,
        max_encoded_percent: 80_000,
        min_crf: 10,
        max_crf: 55,
        samples: 3,
    };
    let mut s = CrfSearch::new(cfg).unwrap();
    assert_eq!(s.progress(500), 62);
    s.record(SampleOutput {
        vmaf: 97_000,
        predicted_encode_size: 1,
        predicted_encode_percent: 60_000,
        predicted_encode_time_ms: 1,
    });
    assert_eq!(s.progress(0), 125);
}
