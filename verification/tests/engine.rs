use promoter_core::engine::sga_engine;
use promoter_core::queue::EventQueue;
use promoter_core::signature::{calculate_signature, MorphogeneticSignature};

#[test]
fn engine_with_zero_seed_gives_primes() {
    assert_eq!(sga_engine(0, 20), vec![2, 3, 5, 7, 11, 13, 17, 19]);
}

#[test]
fn engine_known_runs() {
    assert_eq!(
        sga_engine(7, 30),
        vec![2, 3, 4, 6, 7, 9, 11, 12, 13, 14, 15, 16, 18, 21, 22, 23, 24, 25, 27, 28, 29, 31]
    );
    assert_eq!(
        sga_engine(12345, 40),
        vec![
            2, 3, 4, 6, 7, 8, 11, 12, 13, 14, 16, 18, 19, 20, 22, 23, 24, 25, 27, 28, 29, 30, 31,
            32, 33, 35, 36, 37, 38, 40
        ]
    );
}

#[test]
fn engine_with_no_steps_is_empty() {
    assert_eq!(sga_engine(99, 0), Vec::<u64>::new());
}

#[test]
fn engine_first_promoter_is_two() {
    for seed in [0u64, 1, 65467, u64::MAX] {
        assert_eq!(sga_engine(seed, 1), vec![2]);
        assert_eq!(sga_engine(seed, 50)[0], 2);
    }
}

#[test]
fn engine_is_deterministic() {
    let a = sga_engine(65467, 5000);
    let b = sga_engine(65467, 5000);
    assert_eq!(a, b);
    assert!(a.len() <= 5000);
    assert!(a.windows(2).all(|w| w[0] < w[1]));
}

#[test]
fn engine_long_run_is_known() {
    let run = sga_engine(65467, 1_000_000);
    assert_eq!(run.len(), 989763);
    assert_eq!(&run[..10], &[2, 3, 4, 6, 7, 9, 12, 13, 14, 15]);
    assert_eq!(&run[run.len() - 3..], &[999999, 1000000, 1000001]);
}

#[test]
fn queue_pops_in_order() {
    let mut q = EventQueue::new();
    assert!(q.is_empty());
    assert_eq!(q.peek(), None);
    assert_eq!(q.pop(), None);
    for e in [(5u64, 1u64), (3, 9), (3, 2), (8, 0), (1, 7), (3, 2), (0, 0)] {
        q.push(e);
    }
    assert_eq!(q.len(), 7);
    assert_eq!(q.peek(), Some((0, 0)));
    let mut out = Vec::new();
    while let Some(e) = q.pop() {
        out.push(e);
    }
    assert_eq!(out, vec![(0, 0), (1, 7), (3, 2), (3, 2), (3, 9), (5, 1), (8, 0)]);
    assert!(q.is_empty());
}

#[test]
fn signature_of_empty_is_zero() {
    assert_eq!(
        calculate_signature(&[]),
        MorphogeneticSignature { delta: 0, nu: 0, phi: 0, rho: 0, omega: 0 }
    );
}

#[test]
fn signature_of_constant_sequence() {
    let s = calculate_signature(&[42, 42, 42]);
    assert_eq!(s.rho, 0);
    assert_eq!(s.nu, 1);
    assert_eq!(s, MorphogeneticSignature { delta: 3, nu: 1, phi: 42, rho: 0, omega: 126 });
}

#[test]
fn signature_known_values() {
    assert_eq!(
        calculate_signature(&[5, 3, 9, 3]),
        MorphogeneticSignature { delta: 4, nu: 3, phi: 9, rho: 6, omega: 20 }
    );
}

#[test]
fn signature_sum_does_not_wrap() {
    assert_eq!(
        calculate_signature(&[u64::MAX, u64::MAX]),
        MorphogeneticSignature { delta: 2, nu: 1, phi: u64::MAX, rho: 0, omega: 709002903 }
    );
}

#[test]
fn signature_sum_is_reduced() {
    let s = calculate_signature(&[999_999_937, 5]);
    assert_eq!(s.omega, 5);
    assert_eq!(s.rho, 999_999_932);
}
