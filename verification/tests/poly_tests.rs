use stark_prover::field::fe_small;
use stark_prover::poly::{fft_round_trip, poly_add, poly_div_linear, poly_eval_at,
    poly_even_odd, poly_scale, poly_sub_const};
use stark_prover::prover::round_0_transcript_initialization;
use stark_prover::transcript::{challenge_fe, challenge_index};

use lambdaworks_crypto::fiat_shamir::default_transcript::DefaultTranscript;
use lambdaworks_crypto::fiat_shamir::is_transcript::IsTranscript;
use lambdaworks_math::field::fields::fft_friendly::stark_252_prime_field::Stark252PrimeField;

#[test]
fn evaluation_is_exact() {
    // 3 + 5 x + 2 x^2 at x = 2 is 21
    let p = vec![fe_small(3), fe_small(5), fe_small(2)];
    assert_eq!(poly_eval_at(&p, &fe_small(2)), fe_small(21));
    // the empty polynomial evaluates to zero
    let empty = Vec::new();
    assert_eq!(poly_eval_at(&empty, &fe_small(9)), fe_small(0));
}

#[test]
fn addition_and_scaling_are_exact() {
    let a = vec![fe_small(1), fe_small(2)];
    let b = vec![fe_small(3), fe_small(4), fe_small(5)];
    assert_eq!(poly_add(&a, &b), vec![fe_small(4), fe_small(6), fe_small(5)]);
    assert_eq!(
        poly_scale(&fe_small(3), &b),
        vec![fe_small(9), fe_small(12), fe_small(15)]
    );
}

#[test]
fn division_by_a_linear_factor_is_exact() {
    // x^2 + x = (x + 1) * x, so dividing by (x - 0) gives x + 1
    let p = vec![fe_small(0), fe_small(1), fe_small(1)];
    assert_eq!(poly_div_linear(&p, &fe_small(0)), vec![fe_small(1), fe_small(1)]);
}

#[test]
fn subtracting_a_constant_changes_only_the_low_coefficient() {
    let p = vec![fe_small(5), fe_small(1)];
    assert_eq!(poly_sub_const(&p, &fe_small(3)), vec![fe_small(2), fe_small(1)]);
}

#[test]
fn even_odd_split_interleaves_back() {
    let p = vec![fe_small(1), fe_small(2), fe_small(3), fe_small(4), fe_small(5)];
    let (even, odd) = poly_even_odd(&p);
    assert_eq!(even, vec![fe_small(1), fe_small(3), fe_small(5)]);
    assert_eq!(odd, vec![fe_small(2), fe_small(4)]);
}

#[test]
fn lde_round_trip_returns_the_polynomial() {
    // a degree-3 polynomial on a coset of size 8 with offset 3
    let p = vec![fe_small(7), fe_small(0), fe_small(5), fe_small(1)];
    let r = fft_round_trip(&p, &fe_small(3), 3, 8);
    assert!(r.len() <= 8);
    for i in 0..8 {
        let expected = if i < p.len() { p[i] } else { fe_small(0) };
        let got = if i < r.len() { r[i] } else { fe_small(0) };
        assert_eq!(got, expected);
    }
}

#[test]
fn challenges_are_deterministic() {
    let mut t1 = round_0_transcript_initialization();
    let mut t2 = round_0_transcript_initialization();
    assert_eq!(challenge_fe(&mut t1), challenge_fe(&mut t2));
    let i1 = challenge_index(&mut t1, 16);
    let i2 = challenge_index(&mut t2, 16);
    assert_eq!(i1, i2);
    assert!(i1 < 16);
}

#[test]
fn transcript_is_sensitive_to_absorbed_bits() {
    // The Fiat-Shamir transcript the prover relies on: flipping one bit of
    // an absorbed root changes every subsequent challenge.
    let root = [0xabu8; 32];
    let mut flipped = root;
    flipped[7] ^= 0x01;

    let mut t1 = DefaultTranscript::<Stark252PrimeField>::new(&[]);
    let mut t2 = DefaultTranscript::<Stark252PrimeField>::new(&[]);
    t1.append_bytes(&root);
    t2.append_bytes(&flipped);
    for _ in 0..4 {
        assert_ne!(t1.sample(), t2.sample());
    }
}
