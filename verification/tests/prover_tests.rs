use stark_prover::air::{FibonacciAir, ProofOptions, TraceTable};
use stark_prover::domain::Domain;
use stark_prover::errors::ProverError;
use stark_prover::field::{fe_eq, fe_small, Fe};
use stark_prover::prover::{commit_original_trace, evaluate_polynomial_on_lde_domain, prove};

use lambdaworks_math::field::element::FieldElement;
use lambdaworks_math::field::fields::fft_friendly::stark_252_prime_field::Stark252PrimeField;
use lambdaworks_math::field::traits::IsFFTField;
use lambdaworks_math::traits::ByteConversion;

type FE = FieldElement<Stark252PrimeField>;

fn fe_of_lw(e: &FE) -> Fe {
    let bytes: [u8; 32] = e.to_bytes_be().try_into().unwrap();
    Fe { bytes }
}

fn fibonacci_trace(first: u8, second: u8, length: usize) -> Vec<Vec<Fe>> {
    let mut col: Vec<u64> = vec![first as u64, second as u64];
    while col.len() < length {
        let next = col[col.len() - 1] + col[col.len() - 2];
        col.push(next);
    }
    vec![col.iter().map(|x| fe_small(*x as u8)).collect()]
}

fn fibonacci_air(trace_length: usize, blowup_factor: u8, queries: usize,
    coset_offset: u64) -> FibonacciAir {
    let options = ProofOptions {
        blowup_factor,
        fri_number_of_queries: queries,
        coset_offset,
    };
    FibonacciAir::new(trace_length, options, fe_small(1), fe_small(1))
}

#[test]
fn test_domain_constructor() {
    let trace = fibonacci_trace(1, 1, 8);
    let trace_length = trace[0].len();
    let trace_table = TraceTable::new_from_cols(trace);
    let coset_offset: u64 = 3;
    let blowup_factor: u8 = 2;
    assert_eq!(trace_table.columns.len(), 1);

    let air = fibonacci_air(trace_length, blowup_factor, 1, coset_offset);
    let domain = Domain::new(&air).unwrap();
    assert_eq!(domain.blowup_factor, 2);
    assert_eq!(domain.interpolation_domain_size, trace_length);
    assert_eq!(domain.root_order, trace_length.trailing_zeros());
    assert_eq!(
        domain.lde_root_order,
        (trace_length * blowup_factor as usize).trailing_zeros()
    );
    assert_eq!(domain.coset_offset, fe_small(coset_offset as u8));

    let primitive_root = Stark252PrimeField::get_primitive_root_of_unity(
        (trace_length * blowup_factor as usize).trailing_zeros() as u64,
    )
    .unwrap();

    assert_eq!(
        domain.trace_primitive_root,
        fe_of_lw(&primitive_root.pow(blowup_factor as u64))
    );
    for i in 0..(trace_length * blowup_factor as usize) {
        assert_eq!(
            domain.lde_roots_of_unity_coset[i],
            fe_of_lw(&(FE::from(coset_offset) * primitive_root.pow(i)))
        );
    }
}

#[test]
fn test_evaluate_polynomial_on_lde_domain() {
    let trace = fibonacci_trace(1, 1, 8);
    let trace_length = trace[0].len();
    let trace_table = TraceTable::new_from_cols(trace);
    let coset_offset: u64 = 3;
    let blowup_factor: u8 = 2;

    let air = fibonacci_air(trace_length, blowup_factor, 1, coset_offset);
    let domain = Domain::new(&air).unwrap();
    let round1 = commit_original_trace(&trace_table, &domain);
    let primitive_root = Stark252PrimeField::get_primitive_root_of_unity(
        (trace_length * blowup_factor as usize).trailing_zeros() as u64,
    )
    .unwrap();

    for poly in round1.trace_polys.iter() {
        let lde_evaluation = evaluate_polynomial_on_lde_domain(poly, &domain);
        assert_eq!(lde_evaluation.len(), trace_length * blowup_factor as usize);
        for i in 0..domain.interpolation_domain_size {
            let x = fe_of_lw(&(FE::from(coset_offset) * primitive_root.pow(i)));
            let direct = stark_prover::poly::poly_eval_at(poly, &x);
            assert_eq!(lde_evaluation[i], direct);
        }
    }
}

#[test]
fn fibonacci_proof_is_produced() {
    let trace = TraceTable::new_from_cols(fibonacci_trace(1, 1, 8));
    let air = fibonacci_air(8, 2, 1, 3);
    let domain = Domain::new(&air).unwrap();
    assert_eq!(domain.lde_roots_of_unity_coset.len(), 16);
    assert_eq!(domain.lde_roots_of_unity_coset[0], fe_small(3));

    let proof = prove(&trace, &air).unwrap();
    assert_eq!(proof.lde_trace_merkle_roots.len(), 1);
    assert_eq!(proof.composition_poly_roots.len(), 2);
    assert_eq!(proof.fri_layers_merkle_roots.len(), 4);
    assert_eq!(proof.composition_poly_ood_evaluations.len(), 2);
    assert_eq!(proof.trace_ood_frame_evaluations.len(), 3);
    assert_eq!(proof.trace_ood_frame_evaluations[0].len(), 1);
    assert_eq!(proof.query_list.len(), 1);
    assert_eq!(proof.query_list[0].layers_evaluations_sym.len(), 4);
    assert_eq!(proof.deep_consistency_check.lde_trace_evaluations.len(), 1);
    assert_eq!(
        proof.deep_consistency_check.lde_composition_poly_evaluations.len(),
        2
    );
}

#[test]
fn tampered_trace_changes_the_proof() {
    let honest = TraceTable::new_from_cols(fibonacci_trace(1, 1, 8));
    let mut cols = fibonacci_trace(1, 1, 8);
    cols[0][5] = fe_small(9);
    let tampered = TraceTable::new_from_cols(cols);
    let air = fibonacci_air(8, 2, 1, 3);

    let honest_proof = prove(&honest, &air).unwrap();
    let tampered_proof = prove(&tampered, &air).unwrap();
    assert_ne!(honest_proof, tampered_proof);
    assert_ne!(
        honest_proof.lde_trace_merkle_roots[0],
        tampered_proof.lde_trace_merkle_roots[0]
    );
}

#[test]
fn proving_twice_gives_byte_equal_proofs() {
    let trace = TraceTable::new_from_cols(fibonacci_trace(1, 1, 8));
    let air = fibonacci_air(8, 2, 1, 3);

    let first = prove(&trace, &air).unwrap();
    let second = prove(&trace, &air).unwrap();
    assert_eq!(first, second);
    assert_eq!(
        first.fri_last_value.to_bytes(),
        second.fri_last_value.to_bytes()
    );
}

#[test]
fn non_power_of_two_trace_is_rejected() {
    let mut cols = fibonacci_trace(1, 1, 8);
    cols[0].truncate(6);
    let trace = TraceTable::new_from_cols(cols);
    let air = fibonacci_air(6, 2, 1, 3);
    assert_eq!(prove(&trace, &air), Err(ProverError::Configuration));
}

#[test]
fn non_power_of_two_blowup_is_rejected() {
    let trace = TraceTable::new_from_cols(fibonacci_trace(1, 1, 8));
    let air = fibonacci_air(8, 3, 1, 3);
    assert_eq!(prove(&trace, &air), Err(ProverError::Configuration));
}

#[test]
fn zero_coset_offset_is_rejected() {
    let trace = TraceTable::new_from_cols(fibonacci_trace(1, 1, 8));
    let air = fibonacci_air(8, 2, 1, 0);
    assert_eq!(prove(&trace, &air), Err(ProverError::Configuration));
}

#[test]
fn zero_queries_are_rejected() {
    let trace = TraceTable::new_from_cols(fibonacci_trace(1, 1, 8));
    let air = fibonacci_air(8, 2, 0, 3);
    assert_eq!(prove(&trace, &air), Err(ProverError::Configuration));
}

#[test]
fn mismatched_trace_width_is_rejected() {
    let mut cols = fibonacci_trace(1, 1, 8);
    cols.push(cols[0].clone());
    let trace = TraceTable::new_from_cols(cols);
    let air = fibonacci_air(8, 2, 1, 3);
    assert_eq!(prove(&trace, &air), Err(ProverError::Configuration));
}

#[test]
fn field_equality_follows_values() {
    assert!(fe_eq(&fe_small(7), &fe_small(7)));
    assert!(!fe_eq(&fe_small(7), &fe_small(8)));
}
