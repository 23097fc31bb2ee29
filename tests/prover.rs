use plonk_prover::error::ProveError;
use plonk_prover::extension::{check_opening_point, eval_poly, QuadraticExtension};
use plonk_prover::field::{
    batch_multiplicative_inverse, exp_power_of_2, field_add, field_inverse, field_mul, field_pow,
    field_sub, primitive_root_of_unity, P,
};
use plonk_prover::opening::OpeningSet;
use plonk_prover::permutation::{
    all_wires_permutation_partial_products, partial_products_and_z_gx, quotient_chunk_products,
    transpose, wires_permutation_partial_products_and_zs, zs_then_partial_products, MatrixWitness,
    PermutationData,
};
use plonk_prover::prover::{ProvingSession, Round};
use plonk_prover::quotient::{
    check_degree_factor, compute_quotient_values, log2_ceil, next_row_index, quotient_domain,
    reduce_terms, split_quotient_polys, trim_to_len, ZeroPolyOnCoset,
};

fn mulmod(a: u64, b: u64) -> u64 {
    ((a as u128 * b as u128) % P as u128) as u64
}

fn addmod(a: u64, b: u64) -> u64 {
    ((a as u128 + b as u128) % P as u128) as u64
}

fn subgroup4() -> Vec<u64> {
    let w = primitive_root_of_unity(2);
    let mut xs = vec![1u64];
    for i in 1..4 {
        xs.push(mulmod(xs[i - 1], w));
    }
    xs
}

/// One routed wire over a subgroup of order 4, with rows 0 and 1 of that wire
/// swapped by the permutation.
fn swap_circuit(qdf: usize) -> PermutationData {
    let xs = subgroup4();
    PermutationData {
        subgroup: xs.clone(),
        sigmas: vec![vec![xs[1]], vec![xs[0]], vec![xs[2]], vec![xs[3]]],
        k_is: vec![1],
        num_routed_wires: 1,
        quotient_degree_factor: qdf,
    }
}

#[test]
fn field_arithmetic_wraps_modulo_p() {
    assert_eq!(field_add(P - 1, 2), 1);
    assert_eq!(field_sub(1, 2), P - 1);
    assert_eq!(field_mul(P - 1, P - 1), 1);
    assert_eq!(field_mul(1 << 32, 1 << 32), 0xFFFF_FFFF);
    assert_eq!(field_pow(3, 5), 243);
    assert_eq!(field_pow(5, 0), 1);
}

#[test]
fn inverse_times_value_is_one() {
    for a in [1u64, 2, 7, 12345, P - 1, 0xDEAD_BEEF] {
        assert_eq!(mulmod(a, field_inverse(a)), 1);
    }
    assert_eq!(field_inverse(0), 0);
    let invs = batch_multiplicative_inverse(&vec![2, 3, 5]);
    assert_eq!(invs.len(), 3);
    assert_eq!(mulmod(invs[0], 2), 1);
    assert_eq!(mulmod(invs[1], 3), 1);
    assert_eq!(mulmod(invs[2], 5), 1);
}

#[test]
fn roots_of_unity_have_exact_order() {
    let w = primitive_root_of_unity(2);
    assert_ne!(mulmod(w, w), 1);
    assert_eq!(exp_power_of_2(w, 2), 1);
    assert_eq!(primitive_root_of_unity(1), P - 1);
    assert_eq!(primitive_root_of_unity(0), 1);
    assert_eq!(exp_power_of_2(3, 3), 6561);
}

#[test]
fn chunk_products_cover_a_short_last_chunk() {
    assert_eq!(quotient_chunk_products(&vec![2, 3, 5, 7, 11], 2), vec![6, 35, 11]);
    assert_eq!(quotient_chunk_products(&vec![2, 3, 5], 3), vec![30]);
    assert_eq!(quotient_chunk_products(&vec![], 2), Vec::<u64>::new());
}

#[test]
fn partial_products_start_from_z() {
    assert_eq!(partial_products_and_z_gx(2, &vec![3, 5, 7]), vec![6, 30, 210]);
}

#[test]
fn transpose_swaps_indices() {
    let m = vec![vec![1, 2, 3], vec![4, 5, 6]];
    assert_eq!(transpose(&m), vec![vec![1, 4], vec![2, 5], vec![3, 6]]);
}

#[test]
fn grand_product_of_single_wire_circuit_matches_hand_computation() {
    let data = swap_circuit(1);
    let xs = data.subgroup.clone();
    let a = 9u64;
    let witness = MatrixWitness { wire_values: vec![vec![a, a, 4, 5]] };
    let polys = wires_permutation_partial_products_and_zs(&witness, 1, 1, &data).unwrap();
    // One routed wire, one chunk: no partial products, only Z.
    assert_eq!(polys.len(), 1);
    let z = &polys[0];
    assert_eq!(z.len(), 4);
    assert_eq!(z[0], 1);
    // Z(x1) = (a + x0 + 1) / (a + x1 + 1).
    assert_eq!(mulmod(z[1], addmod(addmod(a, xs[1]), 1)), addmod(addmod(a, xs[0]), 1));
    assert_eq!(z[2], 1);
    assert_eq!(z[3], 1);
}

#[test]
fn identity_permutation_gives_constant_grand_product() {
    let xs = subgroup4();
    let data = PermutationData {
        subgroup: xs.clone(),
        sigmas: vec![vec![xs[0], xs[0]], vec![xs[1], xs[1]], vec![xs[2], xs[2]], vec![
            xs[3], xs[3],
        ]],
        k_is: vec![1, 1],
        num_routed_wires: 2,
        quotient_degree_factor: 1,
    };
    let witness = MatrixWitness { wire_values: vec![vec![3, 1, 4, 1], vec![5, 9, 2, 6]] };
    let polys = wires_permutation_partial_products_and_zs(&witness, 11, 13, &data).unwrap();
    // Two chunks of one ratio each: one partial product, then Z.
    assert_eq!(polys, vec![vec![1, 1, 1, 1], vec![1, 1, 1, 1]]);
}

#[test]
fn copy_constraint_violation_fails_telescoping() {
    let data = swap_circuit(1);
    let witness = MatrixWitness { wire_values: vec![vec![9, 10, 4, 5]] };
    assert_eq!(
        wires_permutation_partial_products_and_zs(&witness, 1, 1, &data),
        Err(ProveError::GrandProductMismatch)
    );
    let again = wires_permutation_partial_products_and_zs(&witness, 1, 1, &data);
    assert_eq!(again, Err(ProveError::GrandProductMismatch));
}

#[test]
fn all_instances_fail_when_one_does() {
    let data = swap_circuit(1);
    let good = MatrixWitness { wire_values: vec![vec![9, 9, 4, 5]] };
    let all = all_wires_permutation_partial_products(&good, &vec![1, 2], &vec![3, 4], &data, 2)
        .unwrap();
    assert_eq!(all.len(), 2);
    let bad = MatrixWitness { wire_values: vec![vec![9, 8, 4, 5]] };
    assert_eq!(
        all_wires_permutation_partial_products(&bad, &vec![1, 2], &vec![3, 4], &data, 2),
        Err(ProveError::GrandProductMismatch)
    );
}

#[test]
fn zs_come_first_in_the_commitment_layout() {
    let instances = vec![
        vec![vec![1], vec![2], vec![3]],
        vec![vec![4], vec![5], vec![6]],
    ];
    assert_eq!(
        zs_then_partial_products(&instances, 3),
        vec![vec![3], vec![6], vec![1], vec![2], vec![4], vec![5]]
    );
}

#[test]
fn degree_factor_equal_to_routed_wires_is_rejected_eagerly() {
    assert_eq!(check_degree_factor(3, 3), Err(ProveError::DegreeFactorNotBelowRoutedWires));
    assert_eq!(check_degree_factor(2, 3), Ok(()));
    assert!(matches!(
        ProvingSession::new(2, 8, 8),
        Err(ProveError::DegreeFactorNotBelowRoutedWires)
    ));
}

#[test]
fn log2_ceil_values() {
    assert_eq!(log2_ceil(0), 0);
    assert_eq!(log2_ceil(1), 0);
    assert_eq!(log2_ceil(2), 1);
    assert_eq!(log2_ceil(3), 2);
    assert_eq!(log2_ceil(8), 3);
    assert_eq!(log2_ceil(9), 4);
}

#[test]
fn quotient_domain_steps() {
    let d = quotient_domain(4, 8, 3).unwrap();
    assert_eq!(d.quotient_degree_bits, 3);
    assert_eq!(d.step, 1);
    assert_eq!(d.next_step, 8);
    assert_eq!(d.lde_size, 128);
    let d = quotient_domain(4, 3, 3).unwrap();
    assert_eq!(d.quotient_degree_bits, 2);
    assert_eq!(d.step, 2);
    assert_eq!(d.next_step, 4);
    assert_eq!(d.lde_size, 64);
    assert_eq!(quotient_domain(4, 9, 3), Err(ProveError::ConstraintDegreeAboveRate));
}

#[test]
fn next_row_wraps_around_the_domain() {
    assert_eq!(next_row_index(3, 8, 64), 11);
    assert_eq!(next_row_index(60, 8, 64), 4);
    assert_eq!(next_row_index(56, 8, 64), 0);
}

#[test]
fn vanishing_polynomial_on_coset() {
    let z = ZeroPolyOnCoset::new(2, 1);
    // 7^4 = 2401; the subgroup of order 2 is {1, -1}.
    assert_eq!(z.evals, vec![2400, P - 2402]);
    assert_eq!(mulmod(z.eval_inverse(0), 2400), 1);
    assert_eq!(mulmod(z.eval_inverse(3), P - 2402), 1);
    assert_eq!(z.eval_inverse(2), z.eval_inverse(0));
}

#[test]
fn terms_are_combined_by_powers_of_alpha() {
    assert_eq!(reduce_terms(&vec![1, 2, 3], 10), 321);
    assert_eq!(reduce_terms(&vec![], 10), 0);
}

#[test]
fn quotient_values_divide_by_vanishing_polynomial() {
    let z = ZeroPolyOnCoset::new(2, 1);
    let terms = vec![vec![2400, 0], vec![P - 2402, 0]];
    let r = compute_quotient_values(&terms, &vec![5], &z, 32);
    assert_eq!(r, vec![vec![1], vec![1]]);
}

#[test]
fn quotient_values_do_not_depend_on_batch_size() {
    let z = ZeroPolyOnCoset::new(3, 2);
    let mut terms = Vec::new();
    for i in 0..70u64 {
        terms.push(vec![i * 31 + 1, i * i + 7, 1000 - i]);
    }
    let alphas = vec![3, 17];
    let r32 = compute_quotient_values(&terms, &alphas, &z, 32);
    let r1 = compute_quotient_values(&terms, &alphas, &z, 1);
    let r1000 = compute_quotient_values(&terms, &alphas, &z, 1000);
    assert_eq!(r32.len(), 70);
    assert_eq!(r32, r1);
    assert_eq!(r32, r1000);
}

#[test]
fn trim_requires_zero_tail() {
    assert_eq!(trim_to_len(&vec![1, 2, 0, 0], 2), Ok(vec![1, 2]));
    assert_eq!(trim_to_len(&vec![1, 2, 0, 3], 2), Err(ProveError::QuotientNotDivisible));
    assert_eq!(trim_to_len(&vec![1, 2], 2), Ok(vec![1, 2]));
}

#[test]
fn quotient_split_into_degree_chunks() {
    let polys = vec![vec![1, 2, 3, 4, 0, 0], vec![5, 6, 7, 8, 0, 0]];
    assert_eq!(
        split_quotient_polys(&polys, 4, 2),
        Ok(vec![vec![1, 2], vec![3, 4], vec![5, 6], vec![7, 8]])
    );
    let bad = vec![vec![1, 2, 3, 4, 0, 9]];
    assert_eq!(split_quotient_polys(&bad, 4, 2), Err(ProveError::QuotientNotDivisible));
}

#[test]
fn opening_point_in_subgroup_is_rejected() {
    let one = QuadraticExtension { c0: 1, c1: 0 };
    assert_eq!(check_opening_point(one, 3), Err(ProveError::OpeningPointInSubgroup));
    let minus_one = QuadraticExtension { c0: P - 1, c1: 0 };
    assert_eq!(check_opening_point(minus_one, 1), Err(ProveError::OpeningPointInSubgroup));
    assert_eq!(check_opening_point(minus_one, 0), Ok(()));
    let x = QuadraticExtension { c0: 0, c1: 1 };
    assert_eq!(check_opening_point(x, 2), Ok(()));
}

#[test]
fn polynomial_evaluated_at_extension_point() {
    let coeffs = vec![1, 2, 3];
    assert_eq!(eval_poly(&coeffs, QuadraticExtension { c0: 2, c1: 0 }), QuadraticExtension {
        c0: 17,
        c1: 0,
    });
    // X^2 = 7: 1 + 2X + 3 * 7.
    assert_eq!(eval_poly(&coeffs, QuadraticExtension { c0: 0, c1: 1 }), QuadraticExtension {
        c0: 22,
        c1: 2,
    });
}

#[test]
fn opening_set_evaluates_zs_at_both_points() {
    let zeta = QuadraticExtension { c0: 3, c1: 0 };
    let constants_sigmas = vec![vec![1], vec![2, 1], vec![0, 0, 1]];
    let wires = vec![vec![4, 1]];
    let zs_pp = vec![vec![1, 1], vec![0, 2]];
    let quotient = vec![vec![5]];
    let set = OpeningSet::new(zeta, 2, &constants_sigmas, &wires, &zs_pp, &quotient, 1, 2, 1);
    let e = |c0: u64| QuadraticExtension { c0, c1: 0 };
    assert_eq!(set.constants, vec![e(1)]);
    assert_eq!(set.plonk_sigmas, vec![e(5), e(9)]);
    assert_eq!(set.wires, vec![e(7)]);
    assert_eq!(set.plonk_zs, vec![e(4)]);
    assert_eq!(set.plonk_zs_next, vec![e(7)]);
    assert_eq!(set.partial_products, vec![e(6)]);
    assert_eq!(set.quotient_polys, vec![e(5)]);
}

#[test]
fn session_rounds_run_in_order() {
    let mut s = ProvingSession::new(1, 2, 3).unwrap();
    assert_eq!(s.round, Round::Witness);
    assert_eq!(s.permutation_committed(vec![1]), Err(ProveError::RoundOutOfOrder));
    assert_eq!(s.wires_committed(vec![1, 2], vec![3]), Err(ProveError::InvalidParameters));
    assert_eq!(s.wires_committed(vec![1], vec![3]), Ok(()));
    assert_eq!(s.round, Round::Permutation);
    assert_eq!(s.permutation_committed(vec![5]), Ok(()));
    assert_eq!(s.round, Round::Quotient);
    assert_eq!(s.openings_proved(), Err(ProveError::RoundOutOfOrder));
    assert_eq!(s.quotient_committed(QuadraticExtension { c0: 3, c1: 1 }, 4), Ok(()));
    assert_eq!(s.round, Round::Opening);
    assert_eq!(s.openings_proved(), Ok(()));
    assert_eq!(s.round, Round::Complete);
    assert_eq!(s.betas, vec![1]);
    assert_eq!(s.gammas, vec![3]);
    assert_eq!(s.alphas, vec![5]);
}

#[test]
fn session_fails_on_degenerate_opening_point() {
    let mut s = ProvingSession::new(1, 2, 3).unwrap();
    s.wires_committed(vec![1], vec![3]).unwrap();
    s.permutation_committed(vec![5]).unwrap();
    let one = QuadraticExtension { c0: 1, c1: 0 };
    assert_eq!(s.quotient_committed(one, 4), Err(ProveError::OpeningPointInSubgroup));
    assert_eq!(s.round, Round::Failed);
    assert_eq!(s.openings_proved(), Err(ProveError::RoundOutOfOrder));
}

use plonk_prover::constraints::{
    permutation_terms_at, vanishing_terms_at, PermutationChallenges, PointOpenings,
};
use plonk_prover::evaluator::{compute_quotient_polys, point_openings_at, LdeRows};
use plonk_prover::field::MULTIPLICATIVE_GROUP_GENERATOR;
use plonk_prover::interpolation::coset_ifft;

fn ext(c0: u64) -> QuadraticExtension {
    QuadraticExtension { c0, c1: 0 }
}

/// The coset `shift * <w>` of size `2^bits`.
fn coset(bits: usize) -> Vec<u64> {
    let w = primitive_root_of_unity(bits);
    let mut x = MULTIPLICATIVE_GROUP_GENERATOR;
    let mut xs = Vec::new();
    for _ in 0..(1usize << bits) {
        xs.push(x);
        x = mulmod(x, w);
    }
    xs
}

#[test]
fn coset_ifft_of_constant_is_constant_polynomial() {
    let coeffs = coset_ifft(&vec![9, 9, 9, 9], 2, MULTIPLICATIVE_GROUP_GENERATOR);
    assert_eq!(coeffs, vec![9, 0, 0, 0]);
}

#[test]
fn coset_ifft_round_trips_through_evaluation() {
    let poly = vec![3u64, 1, 4, 1, 5, 9, 2, 6];
    let xs = coset(3);
    let values: Vec<u64> = xs.iter().map(|&x| eval_poly(&poly, ext(x)).c0).collect();
    assert_eq!(coset_ifft(&values, 3, MULTIPLICATIVE_GROUP_GENERATOR), poly);
}

#[test]
fn quotient_coefficients_reproduce_constraint_values() {
    // Constraint values on the coset divided by the vanishing polynomial, then
    // interpolated, re-evaluated and multiplied back.
    let z = ZeroPolyOnCoset::new(1, 1);
    let xs = coset(2);
    let combined = vec![11u64, 22, 33, 44];
    let terms: Vec<Vec<u64>> = combined.iter().map(|&v| vec![v]).collect();
    let values = compute_quotient_values(&terms, &vec![1], &z, 32);
    let column: Vec<u64> = values.iter().map(|v| v[0]).collect();
    let coeffs = coset_ifft(&column, 2, MULTIPLICATIVE_GROUP_GENERATOR);
    for i in 0..4 {
        let q = eval_poly(&coeffs, ext(xs[i])).c0;
        let z_h = field_sub(mulmod(xs[i], xs[i]), 1);
        assert_eq!(mulmod(q, z_h), combined[i]);
    }
}

fn challenges(betas: Vec<u64>, gammas: Vec<u64>, m: usize, qdf: usize) -> PermutationChallenges {
    PermutationChallenges {
        betas,
        gammas,
        k_is: vec![1, 7, 49][..m].to_vec(),
        num_routed_wires: m,
        quotient_degree_factor: qdf,
    }
}

#[test]
fn permutation_terms_vanish_on_consistent_values() {
    // Two routed wires in one chunk of two; sigmas equal to the identity terms.
    let x = 5u64;
    let p = PointOpenings {
        x,
        l_0_x: 3,
        wires: vec![10, 20, 30],
        s_sigmas: vec![x, mulmod(7, x)],
        local_zs: vec![1],
        next_zs: vec![1],
        partial_products: vec![],
    };
    let ch = challenges(vec![2], vec![3], 2, 2);
    assert_eq!(permutation_terms_at(&p, &ch), vec![0, 0]);
    let all = vanishing_terms_at(&p, &ch, &vec![8, 9]);
    assert_eq!(all, vec![0, 0, 8, 9]);
}

#[test]
fn permutation_terms_exact_values() {
    // One routed wire, one chunk: terms are L_0(x) (Z(x) - 1) and
    // Z(x) (w + beta x + gamma) - Z(g x) (w + beta sigma + gamma).
    let p = PointOpenings {
        x: 2,
        l_0_x: 3,
        wires: vec![10],
        s_sigmas: vec![4],
        local_zs: vec![5],
        next_zs: vec![6],
        partial_products: vec![],
    };
    let ch = challenges(vec![1], vec![1], 1, 1);
    // 3 * 4 = 12; 5 * 13 - 6 * 15 = -25.
    assert_eq!(permutation_terms_at(&p, &ch), vec![12, P - 25]);
}

#[test]
fn partial_product_checks_use_running_products() {
    // Two routed wires in chunks of one: Z(x), one partial product, Z(g x).
    let p = PointOpenings {
        x: 1,
        l_0_x: 0,
        wires: vec![0, 0],
        s_sigmas: vec![1, 1],
        local_zs: vec![2],
        next_zs: vec![3],
        partial_products: vec![4],
    };
    let ch = challenges(vec![1], vec![0], 2, 1);
    // Numerators 1 and 7, denominators 1 and 1:
    // 2 * 1 - 4 * 1 = -2; 4 * 7 - 3 * 1 = 25.
    assert_eq!(permutation_terms_at(&p, &ch), vec![0, P - 2, 25]);
}

#[test]
fn point_openings_take_next_z_from_next_row() {
    let z = ZeroPolyOnCoset::new(1, 1);
    let rows = LdeRows {
        constants_sigmas: vec![vec![0, 1], vec![0, 2], vec![0, 3], vec![0, 4]],
        wires: vec![vec![5], vec![6], vec![7], vec![8]],
        zs_partial_products: vec![vec![11], vec![12], vec![13], vec![14]],
    };
    let ch = challenges(vec![1], vec![1], 1, 1);
    let p = point_openings_at(&rows, &ch, &z, 2, 2, 1, 3);
    assert_eq!(p.x, coset(2)[3]);
    assert_eq!(p.wires, vec![8]);
    assert_eq!(p.s_sigmas, vec![4]);
    assert_eq!(p.local_zs, vec![14]);
    assert_eq!(p.next_zs, vec![12]);
    assert_eq!(p.partial_products, Vec::<u64>::new());
    assert_eq!(p.l_0_x, z.eval_l_0(3, p.x));
}

#[test]
fn satisfied_constraints_give_zero_quotient() {
    // A subgroup of order 2, extended by 2: one routed wire holding 5, sigma
    // equal to the identity X, and Z constant one.
    let z = ZeroPolyOnCoset::new(1, 1);
    let xs = coset(2);
    let rows = LdeRows {
        constants_sigmas: xs.iter().map(|&x| vec![x]).collect(),
        wires: vec![vec![5]; 4],
        zs_partial_products: vec![vec![1]; 4],
    };
    let ch = challenges(vec![3], vec![4], 1, 1);
    let gate = vec![vec![0]; 4];
    let q = compute_quotient_polys(&rows, &gate, &ch, &vec![9], &z, 2, 2, 0, 32);
    assert_eq!(q, vec![vec![0, 0, 0, 0]]);
    assert_eq!(split_quotient_polys(&q, 2, 2), Ok(vec![vec![0, 0]]));
}

#[test]
fn violated_gate_constraint_is_not_divisible() {
    let z = ZeroPolyOnCoset::new(1, 1);
    let xs = coset(2);
    let rows = LdeRows {
        constants_sigmas: xs.iter().map(|&x| vec![x]).collect(),
        wires: vec![vec![5]; 4],
        zs_partial_products: vec![vec![1]; 4],
    };
    let ch = challenges(vec![3], vec![4], 1, 1);
    // A gate term that is 1 everywhere: the constant 1 is no multiple of X^2 - 1.
    let gate = vec![vec![1]; 4];
    let q = compute_quotient_polys(&rows, &gate, &ch, &vec![9], &z, 2, 2, 0, 32);
    assert_eq!(split_quotient_polys(&q, 2, 2), Err(ProveError::QuotientNotDivisible));
}

use plonk_prover::arena::ArenaPlan;

#[test]
fn arena_regions_follow_each_other() {
    let plan = ArenaPlan::plan(&vec![4, 0, 3, 5]).unwrap();
    assert_eq!(plan.offsets, vec![0, 4, 4, 7]);
    assert_eq!(plan.total, 12);
    assert_eq!(plan.region(0), (0, 4));
    assert_eq!(plan.region(2), (4, 7));
    assert_eq!(plan.region(3), (7, 12));
}

#[test]
fn arena_that_does_not_fit_is_refused() {
    assert!(ArenaPlan::plan(&vec![usize::MAX, 1]).is_none());
    let empty = ArenaPlan::plan(&vec![]).unwrap();
    assert_eq!(empty.total, 0);
}

use plonk_prover::evaluator::compute_quotient_chunks;

#[test]
fn permutation_round_puts_zs_first() {
    let xs = subgroup4();
    let data = PermutationData {
        subgroup: xs.clone(),
        sigmas: vec![vec![xs[0], xs[0]], vec![xs[1], xs[1]], vec![xs[2], xs[2]], vec![
            xs[3], xs[3],
        ]],
        k_is: vec![1, 1],
        num_routed_wires: 2,
        quotient_degree_factor: 1,
    };
    let witness = MatrixWitness { wire_values: vec![vec![3, 1, 4, 1], vec![5, 9, 2, 6]] };
    // Two instances, each with Z and one partial product.
    let mut s = ProvingSession::new(2, 1, 2).unwrap();
    s.wires_committed(vec![1, 2], vec![3, 4]).unwrap();
    let polys = s.permutation_round(&witness, &data).unwrap();
    assert_eq!(polys.len(), 4);
    for p in &polys {
        assert_eq!(p, &vec![1, 1, 1, 1]);
    }
}

#[test]
fn permutation_round_rejects_copy_violation() {
    let data = swap_circuit(1);
    let witness = MatrixWitness { wire_values: vec![vec![9, 10, 4, 5]] };
    let mut s = ProvingSession::new(1, 0, 1).unwrap();
    s.wires_committed(vec![1], vec![1]).unwrap();
    assert_eq!(s.permutation_round(&witness, &data), Err(ProveError::GrandProductMismatch));
}

#[test]
fn quotient_chunks_of_satisfied_constraints() {
    let z = ZeroPolyOnCoset::new(1, 1);
    let xs = coset(2);
    let rows = LdeRows {
        constants_sigmas: xs.iter().map(|&x| vec![x]).collect(),
        wires: vec![vec![5]; 4],
        zs_partial_products: vec![vec![1]; 4],
    };
    let ch = challenges(vec![3], vec![4], 1, 1);
    let gate = vec![vec![0]; 4];
    let r = compute_quotient_chunks(&rows, &gate, &ch, &vec![9], &z, 2, 2, 0, 1, 4, 2);
    assert_eq!(r, Ok(vec![vec![0, 0], vec![0, 0]]));
    let bad_gate = vec![vec![1]; 4];
    let r = compute_quotient_chunks(&rows, &bad_gate, &ch, &vec![9], &z, 2, 2, 0, 1, 2, 2);
    assert_eq!(r, Err(ProveError::QuotientNotDivisible));
}
