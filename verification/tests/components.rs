use compresstimator::ratio::ratio_of_counts;
use compresstimator::sample::sample_size;
use compresstimator::{Compresstimator, Confidence, Ratio, WriteCount};

#[test]
fn z_scores_match_the_enumeration() {
    assert_eq!(Confidence::C80.z_score_x100(), 128);
    assert_eq!(Confidence::C85.z_score_x100(), 144);
    assert_eq!(Confidence::C90.z_score_x100(), 165);
    assert_eq!(Confidence::C95.z_score_x100(), 196);
    assert_eq!(Confidence::C99.z_score_x100(), 258);
}

#[test]
fn sample_size_empty_population_is_zero() {
    assert_eq!(sample_size(0, 100, Confidence::C95), 0);
}

#[test]
fn sample_size_single_block_is_one() {
    assert_eq!(sample_size(1, 100, Confidence::C95), 1);
}

#[test]
fn sample_size_default_config_ten_mib() {
    // 10 MiB in 4096-byte blocks is a population of 2560
    assert_eq!(sample_size(2560, 100, Confidence::C95), 93);
}

#[test]
fn sample_size_never_exceeds_population() {
    for pop in [0u64, 1, 2, 10, 1000, 1 << 40] {
        let n = sample_size(pop, 100, Confidence::C95);
        assert!(n <= pop);
        if pop >= 1 {
            assert!(n >= 1);
        }
    }
}

#[test]
fn sample_size_margin_antitone() {
    // fixed population and confidence: a wider margin never needs more samples
    assert_eq!(sample_size(10000, 50, Confidence::C95), 370);
    assert_eq!(sample_size(10000, 100, Confidence::C95), 96);
    assert_eq!(sample_size(10000, 200, Confidence::C95), 24);
}

#[test]
fn sample_size_confidence_monotone() {
    // fixed population and margin: higher confidence never needs fewer samples
    assert_eq!(sample_size(10000, 100, Confidence::C80), 41);
    assert_eq!(sample_size(10000, 100, Confidence::C95), 96);
    assert_eq!(sample_size(10000, 100, Confidence::C99), 164);
}

#[test]
fn ratio_of_counts_clamps() {
    assert_eq!(ratio_of_counts(5, 10), Ratio { num: 5, den: 10 });
    assert_eq!(ratio_of_counts(0, 10), Ratio { num: 0, den: 10 });
    assert_eq!(ratio_of_counts(20, 10), Ratio { num: 10, den: 10 });
    assert_eq!(ratio_of_counts(5, 0), Ratio { num: 1, den: 1 });
}

#[test]
fn ratio_is_one_checks_equality() {
    assert!(ratio_of_counts(10, 10).is_one());
    assert!(ratio_of_counts(17, 3).is_one());
    assert!(!ratio_of_counts(9, 10).is_one());
}

#[test]
fn write_count_accumulates_lengths() {
    let mut sink = WriteCount::default();
    assert_eq!(sink.written(), 0);
    assert_eq!(sink.write(&[1, 2, 3]), 3);
    assert_eq!(sink.written(), 3);
    assert_eq!(sink.write(&[]), 0);
    sink.flush();
    assert_eq!(sink.written(), 3);
    assert_eq!(sink.write(&[9; 100]), 100);
    assert_eq!(sink.written(), 103);
}

#[test]
fn default_configuration() {
    let est = Compresstimator::default();
    assert_eq!(est.block, 4096);
    assert_eq!(est.margin_per_mille, 100);
    assert_eq!(est.confidence, Confidence::C95);
    let est2 = Compresstimator::new();
    assert_eq!(est2.block, 4096);
    assert_eq!(est2.margin_per_mille, 100);
}

#[test]
fn with_block_size_keeps_other_defaults() {
    let est = Compresstimator::with_block_size(1024);
    assert_eq!(est.block, 1024);
    assert_eq!(est.margin_per_mille, 100);
    assert_eq!(est.confidence, Confidence::C95);
}

#[test]
fn builder_mutators_update_in_place() {
    let mut est = Compresstimator::default();
    est.block_size(8192);
    assert_eq!(est.block, 8192);
    est.error_margin(150);
    assert_eq!(est.margin_per_mille, 150);
    est.confidence_level(Confidence::C99);
    assert_eq!(est.confidence, Confidence::C99);
    assert_eq!(est.block, 8192);
}

#[test]
fn margin_out_of_range_fails_fast() {
    // a margin of 1.5 (1500 per-mille) is a precondition violation: the
    // mutator rejects it before any estimation, leaving the config intact
    let mut est = Compresstimator::default();
    assert!(!est.try_error_margin(1500));
    assert_eq!(est.margin_per_mille, 100);
    assert!(!est.try_error_margin(0));
    assert_eq!(est.margin_per_mille, 100);
    assert!(!est.try_error_margin(1000));
    assert_eq!(est.margin_per_mille, 100);
    assert!(est.try_error_margin(250));
    assert_eq!(est.margin_per_mille, 250);
}
