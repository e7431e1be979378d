use compresstimator::{Compresstimator, EstimError, Ratio, SamplePlan};

#[test]
fn empty_input_is_exactly_one() {
    let est = Compresstimator::default();
    let empty: Vec<u8> = vec![];
    assert_eq!(est.compresstimate(&empty).unwrap(), Ratio { num: 1, den: 1 });
    assert_eq!(est.compresstimate_len(&empty, 0).unwrap(), Ratio { num: 1, den: 1 });
    assert_eq!(est.base_truth(&empty).unwrap(), Ratio { num: 1, den: 1 });
}

#[test]
fn zero_declared_length_is_exactly_one() {
    let est = Compresstimator::default();
    let data = vec![7u8; 100000];
    assert_eq!(est.compresstimate_len(&data, 0).unwrap(), Ratio { num: 1, den: 1 });
}

#[test]
fn ratio_is_always_clamped() {
    let est = Compresstimator::default();
    let inputs: Vec<Vec<u8>> = vec![
        vec![],
        vec![0u8; 1],
        vec![0u8; 100],
        (0..=255u8).collect(),
        vec![0xAA; 1 << 20],
    ];
    for data in &inputs {
        let sampled = est.compresstimate(data).unwrap();
        assert!(sampled.num <= sampled.den);
        assert!(sampled.den >= 1);
        let exact = est.base_truth(data).unwrap();
        assert!(exact.num <= exact.den);
        assert!(exact.den >= 1);
    }
}

#[test]
fn estimate_is_deterministic() {
    let est = Compresstimator::default();
    let data = vec![0u8; 10 * 1024 * 1024];
    let first = est.compresstimate(&data).unwrap();
    let second = est.compresstimate(&data).unwrap();
    assert_eq!(first, second);
    let mut state: u64 = 42;
    let mut noisy = Vec::with_capacity(1 << 20);
    for _ in 0..(1 << 20) {
        state = state.wrapping_mul(6364136223846793005).wrapping_add(1442695040888963407);
        noisy.push((state >> 56) as u8);
    }
    let third = est.compresstimate(&noisy).unwrap();
    let fourth = est.compresstimate(&noisy).unwrap();
    assert_eq!(third, fourth);
}

#[test]
fn hundred_byte_file_reads_everything() {
    // 100 bytes with 4096-byte blocks: zero whole blocks, zero samples, so
    // the sampler reads the entire input and the estimate is exact
    let est = Compresstimator::default();
    let data: Vec<u8> = (0..100u8).collect();
    assert_eq!(est.sampling_plan(100), SamplePlan::All);
    assert_eq!(est.compresstimate(&data).unwrap(), est.base_truth(&data).unwrap());
}

#[test]
fn below_threshold_matches_exhaustive() {
    // 1 MiB has 256 whole blocks and wants 71 samples, but sampling would
    // touch more than a quarter of the input, so everything is read and the
    // sampled ratio equals the exhaustive one exactly
    let est = Compresstimator::default();
    let data = vec![0xABu8; 1 << 20];
    assert_eq!(est.sampling_plan(1 << 20), SamplePlan::All);
    assert_eq!(est.compresstimate(&data).unwrap(), est.base_truth(&data).unwrap());
}

#[test]
fn sampling_plan_for_ten_mib() {
    let est = Compresstimator::default();
    let plan = est.sampling_plan(10 * 1024 * 1024);
    assert_eq!(plan, SamplePlan::Strided { samples: 93, step: 110592 });
}

#[test]
fn repeated_bytes_compress_well() {
    // 4 MiB of one repeated byte: sampled (strided) and exhaustive ratios
    // are both far below one
    let est = Compresstimator::default();
    let data = vec![0xAAu8; 4 * 1024 * 1024];
    assert_eq!(est.sampling_plan(4 * 1024 * 1024), SamplePlan::Strided { samples: 88, step: 45056 });
    let sampled = est.compresstimate(&data).unwrap();
    assert!((sampled.num as f32) / (sampled.den as f32) < 0.1);
    let exact = est.base_truth(&data).unwrap();
    assert!((exact.num as f32) / (exact.den as f32) < 0.1);
}

#[test]
fn high_entropy_bytes_do_not_compress() {
    let mut state: u64 = 7;
    let mut data = Vec::with_capacity(4 * 1024 * 1024);
    for _ in 0..4 * 1024 * 1024 {
        state = state.wrapping_mul(6364136223846793005).wrapping_add(1442695040888963407);
        data.push((state >> 56) as u8);
    }
    let est = Compresstimator::default();
    let sampled = est.compresstimate(&data).unwrap();
    assert!((sampled.num as f32) / (sampled.den as f32) >= 0.99);
    let exact = est.base_truth(&data).unwrap();
    assert!((exact.num as f32) / (exact.den as f32) >= 0.99);
}

#[test]
fn ten_mib_of_zeros_estimate_matches_exhaustive() {
    // block size 4096, margin 10%, confidence 95%: the sampled ratio is far
    // below one and within the margin of the exhaustive ratio
    let est = Compresstimator::default();
    let data = vec![0u8; 10 * 1024 * 1024];
    let sampled = est.compresstimate(&data).unwrap();
    let exact = est.base_truth(&data).unwrap();
    let sampled_f = (sampled.num as f32) / (sampled.den as f32);
    let exact_f = (exact.num as f32) / (exact.den as f32);
    assert!(sampled_f < 0.1);
    assert!(exact_f < 0.1);
    assert!((sampled_f - exact_f).abs() <= 0.1);
}

#[test]
fn overstated_length_is_a_short_read() {
    // claiming 10 MiB of a 1 MiB input sends a sampled block past the end
    let est = Compresstimator::default();
    let data = vec![0u8; 1 << 20];
    let r = est.compresstimate_len(&data, 10 * 1024 * 1024);
    assert!(matches!(r, Err(EstimError::ShortRead)));
}

#[test]
fn understated_length_reads_only_that_prefix() {
    let est = Compresstimator::default();
    let data: Vec<u8> = (0..200u32).map(|i| (i % 251) as u8).collect();
    let prefix: Vec<u8> = data[..100].to_vec();
    assert_eq!(est.compresstimate_len(&data, 100).unwrap(), est.base_truth(&prefix).unwrap());
}

#[test]
fn short_read_boundary_is_exact() {
    // for a claimed 10 MiB the last sampled block ends at byte 10178560:
    // exactly that many available bytes succeed, one fewer is a short read
    let est = Compresstimator::default();
    let enough = vec![0u8; 110592 * 92 + 4096];
    assert!(est.compresstimate_len(&enough, 10 * 1024 * 1024).is_ok());
    let one_short = vec![0u8; 110592 * 92 + 4095];
    let r = est.compresstimate_len(&one_short, 10 * 1024 * 1024);
    assert!(matches!(r, Err(EstimError::ShortRead)));
}

#[test]
fn block_size_one_reads_everything_on_small_input() {
    // 100 one-byte blocks want 50 samples, which is more than a quarter of
    // the input, so the threshold rule reads the whole input
    let est = Compresstimator::with_block_size(1);
    let data: Vec<u8> = (0..100u8).collect();
    assert_eq!(est.sampling_plan(100), SamplePlan::All);
    assert_eq!(est.compresstimate(&data).unwrap(), est.base_truth(&data).unwrap());
}

#[test]
fn custom_block_size_still_exact_in_full_read_regime() {
    let est = Compresstimator::with_block_size(1024);
    let data = vec![0x55u8; 4096];
    assert_eq!(est.compresstimate(&data).unwrap(), est.base_truth(&data).unwrap());
}
