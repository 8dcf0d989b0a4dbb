use rnla::bench::{is_measured, total_iterations, BenchOptions};
use rnla::rng::RNG;

#[test]
fn rand_i64_sequence_from_seed_one() {
    let mut rng = RNG::new(1);
    let expected: Vec<i64> = vec![
        1015568748, 1586005467, 2165703038, 3027450565, 217083232, 1587069247, 3327581586,
        2388811721, 70837908, 2745540835,
    ];
    for e in expected {
        assert_eq!(rng.rand_i64(), e);
    }
}

#[test]
fn rand_fraction_sequence_from_seed_one() {
    let mut rng = RNG::new(1);
    let expected: Vec<(i64, i64)> = vec![
        (1499, 4096),
        (15045, 16384),
        (0, 1),
        (1, 4),
        (3, 16),
        (13, 64),
    ];
    for e in expected {
        assert_eq!(rng.rand_fraction(), e);
    }
}

#[test]
fn unit_samples_from_seed_one_are_bit_for_bit_reproducible() {
    // The quotients are dyadic rationals with denominator at most 2^15, so
    // forming them in f64 is exact: the sequence is identical across runs.
    let expected: Vec<f64> = vec![
        0.365966796875,
        0.91827392578125,
        0.0,
        0.25,
        0.1875,
        0.203125,
    ];
    let mut first: Vec<f64> = Vec::new();
    let mut rng = RNG::new(1);
    for _ in 0..expected.len() {
        let (num, den) = rng.rand_fraction();
        first.push(num as f64 / den as f64);
    }
    let mut second: Vec<f64> = Vec::new();
    let mut rng = RNG::new(1);
    for _ in 0..expected.len() {
        let (num, den) = rng.rand_fraction();
        second.push(num as f64 / den as f64);
    }
    for k in 0..expected.len() {
        assert_eq!(first[k].to_bits(), expected[k].to_bits());
        assert_eq!(first[k].to_bits(), second[k].to_bits());
    }
}

#[test]
fn fractions_stay_in_unit_interval() {
    let mut rng = RNG::new(42);
    for _ in 0..100 {
        let (num, den) = rng.rand_fraction();
        assert!(0 <= num && num < den);
        assert!(den <= 32768);
        assert_eq!(32768 % den, 0);
    }
}

#[test]
fn time_seeded_generator_draws() {
    let mut rng = RNG::new_time_seed();
    let r = rng.rand_i64();
    assert!(0 <= r && r < 4294967296);
}

#[test]
fn bench_schedule_counts_iterations() {
    // With three warmup iterations and five trials the harness runs the
    // startup producer and the critical section exactly eight times and
    // measures only the last five.
    let opts = BenchOptions { warmup: 3, trial_count: 5 };
    let total = total_iterations(&opts);
    assert_eq!(total, 8);
    let mut runs: usize = 0;
    let mut measured: usize = 0;
    for i in 0..total {
        runs += 1;
        if is_measured(&opts, i) {
            measured += 1;
        }
    }
    assert_eq!(runs, 8);
    assert_eq!(measured, 5);
    assert!(!is_measured(&opts, 0));
    assert!(!is_measured(&opts, 2));
    assert!(is_measured(&opts, 3));
    assert!(is_measured(&opts, 7));
}
