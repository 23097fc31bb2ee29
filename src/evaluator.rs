//! The quotient polynomials: constraint terms gathered at every point of the
//! quotient's domain, combined, divided by the vanishing polynomial, and
//! interpolated back to coefficients, one polynomial per challenge instance.
use crate::constraints::{
    constraint_inputs_wf, permutation_terms_of, vanishing_terms_at, PermutationChallenges,
    PointOpenings,
};
use crate::field::{all_canonical, ints, MULTIPLICATIVE_GROUP_GENERATOR, P, TWO_ADICITY};
use crate::interpolation::{coset_ifft, coset_ifft_coeff};
use crate::permutation::{num_chunks, transpose};
use crate::error::ProveError;
use crate::quotient::{split_quotient_polys,
    are_quotient_values, compute_quotient_values, coset_point, coset_point_at, l_0_eval,
    next_row_index, quotient_value, rows_canonical, ZeroPolyOnCoset,
};
use vstd::arithmetic::power2::pow2;
use vstd::prelude::*;

verus! {

/// The values of the committed batches on the quotient's domain: row `i` holds every
/// polynomial of the batch at point `i`.
pub struct LdeRows {
    /// The constant polynomials, then the sigmas of the routed wires.
    pub constants_sigmas: Vec<Vec<u64>>,
    pub wires: Vec<Vec<u64>>,
    /// The `Z` of every instance, then the partial products of each instance.
    pub zs_partial_products: Vec<Vec<u64>>,
}

/// The shapes of the rows agree with the circuit and the challenges.
pub open spec fn lde_rows_wf(
    rows: &LdeRows,
    ch: &PermutationChallenges,
    num_constants: nat,
    lde_size: nat,
) -> bool {
    let m = ch.num_routed_wires as nat;
    let nc = ch.betas@.len();
    let np = num_chunks(m, ch.quotient_degree_factor as nat) - 1;
    &&& rows.constants_sigmas@.len() == lde_size
    &&& rows.wires@.len() == lde_size
    &&& rows.zs_partial_products@.len() == lde_size
    &&& rows_canonical(rows.constants_sigmas@)
    &&& rows_canonical(rows.wires@)
    &&& rows_canonical(rows.zs_partial_products@)
    &&& forall|i: int|
        0 <= i < lde_size ==> num_constants + m <= (#[trigger] rows.constants_sigmas@[i])@.len()
    &&& forall|i: int| 0 <= i < lde_size ==> m <= (#[trigger] rows.wires@[i])@.len()
    &&& forall|i: int|
        0 <= i < lde_size ==> (#[trigger] rows.zs_partial_products@[i])@.len() == nc + nc * np
}

/// The challenges are consistent and in canonical form.
pub open spec fn challenges_wf(ch: &PermutationChallenges) -> bool {
    let m = ch.num_routed_wires;
    let nc = ch.betas@.len();
    &&& m >= 1
    &&& ch.quotient_degree_factor >= 1
    &&& ch.k_is@.len() >= m
    &&& ch.gammas@.len() == nc
    &&& all_canonical(ch.k_is@)
    &&& all_canonical(ch.betas@)
    &&& all_canonical(ch.gammas@)
    &&& nc * (num_chunks(m as nat, ch.quotient_degree_factor as nat) + 1) <= usize::MAX
}

/// The constraint terms at point `i`: the permutation terms read from the rows
/// at `i` (and `Z` at the next row), then the terms from gate constraints.
pub open spec fn terms_at_point(
    rows: &LdeRows,
    gate_terms: Seq<Vec<u64>>,
    ch: &PermutationChallenges,
    z_h: &ZeroPolyOnCoset,
    lde_bits: nat,
    next_step: int,
    num_constants: int,
    i: int,
) -> Seq<int> {
    let nc = ch.betas@.len() as int;
    let m = ch.num_routed_wires as int;
    let lde_size = pow2(lde_bits) as int;
    let x = coset_point(lde_bits, i as nat);
    let zs_pp = rows.zs_partial_products@[i]@;
    permutation_terms_of(
        x,
        l_0_eval(z_h, i, x),
        rows.wires@[i]@,
        rows.constants_sigmas@[i]@.subrange(num_constants, num_constants + m),
        zs_pp.subrange(0, nc),
        rows.zs_partial_products@[(i + next_step) % lde_size]@.subrange(0, nc),
        zs_pp.subrange(nc, zs_pp.len() as int),
        ch,
    ) + ints(gate_terms[i]@)
}

/// `v@[lo..hi]` as a vector.
fn sub_vec(v: &Vec<u64>, lo: usize, hi: usize) -> (r: Vec<u64>)
    requires
        lo <= hi <= v@.len(),
    ensures
        r@ == v@.subrange(lo as int, hi as int),
{
    let mut r: Vec<u64> = Vec::with_capacity(hi - lo);
    let mut k: usize = lo;
    while k < hi
        invariant
            lo <= k <= hi <= v@.len(),
            r@ == v@.subrange(lo as int, k as int),
        decreases hi - k,
    {
        r.push(v[k]);
        k = k + 1;
        proof {
            assert(r@ =~= v@.subrange(lo as int, k as int));
        }
    }
    r
}

/// Gathers the values at point `i` of the domain that the permutation
/// constraints read; `Z(g x)` comes from the row `next_step` points further on.
pub fn point_openings_at(
    rows: &LdeRows,
    ch: &PermutationChallenges,
    z_h: &ZeroPolyOnCoset,
    lde_bits: usize,
    next_step: u64,
    num_constants: usize,
    i: usize,
) -> (r: PointOpenings)
    requires
        lde_bits <= TWO_ADICITY,
        lde_rows_wf(rows, ch, num_constants as nat, pow2(lde_bits as nat)),
        challenges_wf(ch),
        z_h.wf(),
        z_h.n_log <= TWO_ADICITY,
        next_step <= pow2(lde_bits as nat),
        i < pow2(lde_bits as nat),
    ensures
        constraint_inputs_wf(&r, ch),
        ({
            let nc = ch.betas@.len() as int;
            let m = ch.num_routed_wires as int;
            let lde_size = pow2(lde_bits as nat) as int;
            let zs_pp = rows.zs_partial_products@[i as int]@;
            &&& r.x == coset_point(lde_bits as nat, i as nat)
            &&& r.l_0_x == l_0_eval(z_h, i as int, r.x as int)
            &&& r.wires@ == rows.wires@[i as int]@
            &&& r.s_sigmas@ == rows.constants_sigmas@[i as int]@.subrange(
                num_constants as int,
                num_constants + m,
            )
            &&& r.local_zs@ == zs_pp.subrange(0, nc)
            &&& r.next_zs@ == rows.zs_partial_products@[(i + next_step) % lde_size]@.subrange(
                0,
                nc,
            )
            &&& r.partial_products@ == zs_pp.subrange(nc, zs_pp.len() as int)
        }),
{
    let nc = ch.betas.len();
    let m = ch.num_routed_wires;
    let lde_size: u64 = crate::quotient::pow2_u64(lde_bits);
    let x = coset_point_at(lde_bits, i as u64);
    let l_0_x = z_h.eval_l_0(i, x);
    let n_rows = rows.zs_partial_products.len();
    let i_next_u64 = next_row_index(i as u64, next_step, lde_size);
    assert(i_next_u64 < n_rows);
    let i_next = i_next_u64 as usize;
    let cs = &rows.constants_sigmas[i];
    let zs_pp = &rows.zs_partial_products[i];
    let next_zs_pp = &rows.zs_partial_products[i_next];
    let cs_len = cs.len();
    proof {
        assert(num_constants + m <= cs_len);
        crate::permutation::lemma_num_chunks_positive(m as nat, ch.quotient_degree_factor as nat);
        assert(rows.constants_sigmas@[i as int]@.len() >= num_constants + m);
        assert(rows.wires@[i as int]@.len() >= m);
        assert(zs_pp@.len() == nc + nc * (num_chunks(
            m as nat,
            ch.quotient_degree_factor as nat,
        ) - 1));
        assert(next_zs_pp@.len() == zs_pp@.len());
        assert(nc <= zs_pp@.len()) by (nonlinear_arith)
            requires
                zs_pp@.len() == nc + nc * (num_chunks(m as nat, ch.quotient_degree_factor as nat)
                    - 1),
                num_chunks(m as nat, ch.quotient_degree_factor as nat) >= 1,
        {
        }
    }
    let r = PointOpenings {
        x,
        l_0_x,
        wires: rows.wires[i].clone(),
        s_sigmas: sub_vec(cs, num_constants, num_constants + m),
        local_zs: sub_vec(zs_pp, 0, nc),
        next_zs: sub_vec(next_zs_pp, 0, nc),
        partial_products: sub_vec(zs_pp, nc, zs_pp.len()),
    };
    proof {
        assert(all_canonical(rows.wires@[i as int]@));
        assert(all_canonical(cs@));
        assert(all_canonical(zs_pp@));
        assert(all_canonical(next_zs_pp@));
    }
    r
}

/// The quotient's values at every point of the domain for one challenge
/// instance with combining challenge `alpha`.
pub open spec fn quotient_column(
    rows: &LdeRows,
    gate_terms: Seq<Vec<u64>>,
    ch: &PermutationChallenges,
    alpha: int,
    z_h: &ZeroPolyOnCoset,
    lde_bits: nat,
    next_step: int,
    num_constants: int,
) -> Seq<int> {
    Seq::new(
        pow2(lde_bits),
        |i: int|
            quotient_value(
                terms_at_point(rows, gate_terms, ch, z_h, lde_bits, next_step, num_constants, i),
                alpha,
                z_h,
                i,
            ),
    )
}

/// Computes the quotient polynomial of every challenge instance, in coefficient
/// form: the constraint terms at each point of the domain of size
/// `2^lde_bits` (gathered from `rows`, with the terms from gate constraints in
/// `gate_terms`) are combined by powers of that instance's alpha, divided by
/// the vanishing polynomial, and interpolated over the coset. Points are
/// processed in batches of `batch_size`.
pub fn compute_quotient_polys(
    rows: &LdeRows,
    gate_terms: &Vec<Vec<u64>>,
    ch: &PermutationChallenges,
    alphas: &Vec<u64>,
    z_h: &ZeroPolyOnCoset,
    lde_bits: usize,
    next_step: u64,
    num_constants: usize,
    batch_size: usize,
) -> (r: Vec<Vec<u64>>)
    requires
        lde_bits <= TWO_ADICITY,
        lde_rows_wf(rows, ch, num_constants as nat, pow2(lde_bits as nat)),
        challenges_wf(ch),
        z_h.wf(),
        z_h.n_log <= TWO_ADICITY,
        next_step <= pow2(lde_bits as nat),
        gate_terms@.len() == pow2(lde_bits as nat),
        rows_canonical(gate_terms@),
        alphas@.len() >= 1,
        all_canonical(alphas@),
        batch_size >= 1,
    ensures
        r@.len() == alphas@.len(),
        forall|c: int| 0 <= c < r@.len() ==> #[trigger] r@[c]@.len() == pow2(lde_bits as nat),
        forall|c: int, k: int|
            0 <= c < r@.len() && 0 <= k < pow2(lde_bits as nat) ==> #[trigger] r@[c]@[k]
                == coset_ifft_coeff(
                quotient_column(
                    rows,
                    gate_terms@,
                    ch,
                    alphas@[c] as int,
                    z_h,
                    lde_bits as nat,
                    next_step as int,
                    num_constants as int,
                ),
                lde_bits as nat,
                MULTIPLICATIVE_GROUP_GENERATOR as int,
                k as nat,
            ),
{
    let n = gate_terms.len();
    let mut terms: Vec<Vec<u64>> = Vec::with_capacity(n);
    let mut i: usize = 0;
    while i < n
        invariant
            n == gate_terms@.len(),
            n == pow2(lde_bits as nat),
            lde_bits <= TWO_ADICITY,
            lde_rows_wf(rows, ch, num_constants as nat, pow2(lde_bits as nat)),
            challenges_wf(ch),
            z_h.wf(),
            z_h.n_log <= TWO_ADICITY,
            next_step <= pow2(lde_bits as nat),
            rows_canonical(gate_terms@),
            i <= n,
            terms@.len() == i,
            rows_canonical(terms@),
            forall|k: int|
                0 <= k < i ==> ints(#[trigger] terms@[k]@) == terms_at_point(
                    rows,
                    gate_terms@,
                    ch,
                    z_h,
                    lde_bits as nat,
                    next_step as int,
                    num_constants as int,
                    k,
                ),
        decreases n - i,
    {
        let p = point_openings_at(rows, ch, z_h, lde_bits, next_step, num_constants, i);
        proof {
            assert(all_canonical(gate_terms@[i as int]@));
        }
        let t = vanishing_terms_at(&p, ch, &gate_terms[i]);
        terms.push(t);
        i = i + 1;
    }
    let values = compute_quotient_values(&terms, alphas, z_h, batch_size);
    proof {
        vstd::arithmetic::power2::lemma_pow2_pos(lde_bits as nat);
        assert(values@[0]@.len() == alphas@.len());
    }
    let columns = transpose(&values);
    let mut r: Vec<Vec<u64>> = Vec::with_capacity(columns.len());
    let mut c: usize = 0;
    while c < columns.len()
        invariant
            columns@.len() == alphas@.len(),
            values@.len() == n,
            n == pow2(lde_bits as nat),
            lde_bits <= TWO_ADICITY,
            are_quotient_values(terms@, alphas@, z_h, values@),
            forall|j: int| 0 <= j < columns@.len() ==> #[trigger] columns@[j]@.len() == n,
            forall|k: int, j: int|
                0 <= k < n && 0 <= j < columns@.len() ==> columns@[j]@[k] == values@[k]@[j],
            forall|k: int|
                0 <= k < n ==> ints(#[trigger] terms@[k]@) == terms_at_point(
                    rows,
                    gate_terms@,
                    ch,
                    z_h,
                    lde_bits as nat,
                    next_step as int,
                    num_constants as int,
                    k,
                ),
            c <= columns@.len(),
            r@.len() == c,
            forall|j: int| 0 <= j < c ==> #[trigger] r@[j]@.len() == n,
            forall|j: int, k: int|
                0 <= j < c && 0 <= k < n ==> #[trigger] r@[j]@[k] == coset_ifft_coeff(
                    quotient_column(
                        rows,
                        gate_terms@,
                        ch,
                        alphas@[j] as int,
                        z_h,
                        lde_bits as nat,
                        next_step as int,
                        num_constants as int,
                    ),
                    lde_bits as nat,
                    MULTIPLICATIVE_GROUP_GENERATOR as int,
                    k as nat,
                ),
        decreases columns@.len() - c,
    {
        let ghost col = quotient_column(
            rows,
            gate_terms@,
            ch,
            alphas@[c as int] as int,
            z_h,
            lde_bits as nat,
            next_step as int,
            num_constants as int,
        );
        proof {
            assert forall|k: int| 0 <= k < n implies #[trigger] columns@[c as int]@[k] < P by {
                assert(columns@[c as int]@[k] == values@[k]@[c as int]);
                assert(all_canonical(values@[k]@));
            }
            assert(ints(columns@[c as int]@) =~= col) by {
                assert forall|k: int| 0 <= k < n implies #[trigger] ints(columns@[c as int]@)[k]
                    == col[k] by {
                    assert(columns@[c as int]@[k] == values@[k]@[c as int]);
                }
            }
        }
        let coeffs = coset_ifft(&columns[c], lde_bits, MULTIPLICATIVE_GROUP_GENERATOR);
        r.push(coeffs);
        c = c + 1;
    }
    r
}

/// Coefficient `k` of the quotient polynomial of the instance with combining
/// challenge `alpha`.
pub open spec fn quotient_coeff(
    rows: &LdeRows,
    gate_terms: Seq<Vec<u64>>,
    ch: &PermutationChallenges,
    alpha: int,
    z_h: &ZeroPolyOnCoset,
    lde_bits: nat,
    next_step: int,
    num_constants: int,
    k: int,
) -> int {
    coset_ifft_coeff(
        quotient_column(rows, gate_terms, ch, alpha, z_h, lde_bits, next_step, num_constants),
        lde_bits,
        MULTIPLICATIVE_GROUP_GENERATOR as int,
        k as nat,
    )
}

/// The quotient round's polynomials: the quotient of every instance, trimmed
/// to `quotient_degree` coefficients and split into chunks of `degree`
/// coefficients, chunk `t` of instance `c` at `c * (quotient_degree / degree) + t`.
/// Fails when some quotient has a non-zero coefficient from `quotient_degree`
/// on: the constraints were then not divisible by the vanishing polynomial.
pub fn compute_quotient_chunks(
    rows: &LdeRows,
    gate_terms: &Vec<Vec<u64>>,
    ch: &PermutationChallenges,
    alphas: &Vec<u64>,
    z_h: &ZeroPolyOnCoset,
    lde_bits: usize,
    next_step: u64,
    num_constants: usize,
    batch_size: usize,
    quotient_degree: usize,
    degree: usize,
) -> (r: Result<Vec<Vec<u64>>, ProveError>)
    requires
        lde_bits <= TWO_ADICITY,
        lde_rows_wf(rows, ch, num_constants as nat, pow2(lde_bits as nat)),
        challenges_wf(ch),
        z_h.wf(),
        z_h.n_log <= TWO_ADICITY,
        next_step <= pow2(lde_bits as nat),
        gate_terms@.len() == pow2(lde_bits as nat),
        rows_canonical(gate_terms@),
        alphas@.len() >= 1,
        all_canonical(alphas@),
        batch_size >= 1,
        degree >= 1,
        quotient_degree % degree == 0,
        quotient_degree <= pow2(lde_bits as nat),
        alphas@.len() * (quotient_degree / degree) <= usize::MAX,
    ensures
        ({
            let q = quotient_degree / degree;
            &&& r is Ok <==> (forall|c: int, k: int|
                0 <= c < alphas@.len() && quotient_degree <= k < pow2(lde_bits as nat)
                    ==> #[trigger] quotient_coeff(
                    rows,
                    gate_terms@,
                    ch,
                    alphas@[c] as int,
                    z_h,
                    lde_bits as nat,
                    next_step as int,
                    num_constants as int,
                    k,
                ) == 0)
            &&& r is Err ==> r == Err::<Vec<Vec<u64>>, ProveError>(ProveError::QuotientNotDivisible)
            &&& r matches Ok(chunks) ==> {
                &&& chunks@.len() == alphas@.len() * q
                &&& forall|c: int, t: int|
                    0 <= c < alphas@.len() && 0 <= t < q ==> (#[trigger] chunks@[c * q + t])@.len()
                        == degree
                &&& forall|c: int, t: int, k: int|
                    0 <= c < alphas@.len() && 0 <= t < q && 0 <= k < degree ==> #[trigger] chunks@[c * q
                        + t]@[k] == quotient_coeff(
                        rows,
                        gate_terms@,
                        ch,
                        alphas@[c] as int,
                        z_h,
                        lde_bits as nat,
                        next_step as int,
                        num_constants as int,
                        t * degree + k,
                    )
            }
        }),
{
    let polys = compute_quotient_polys(
        rows,
        gate_terms,
        ch,
        alphas,
        z_h,
        lde_bits,
        next_step,
        num_constants,
        batch_size,
    );
    let r = split_quotient_polys(&polys, quotient_degree, degree);
    proof {
        let q = quotient_degree / degree;
        let n = pow2(lde_bits as nat) as int;
        if r is Err {
            let (c, k) = choose|c: int, k: int|
                0 <= c < polys@.len() && quotient_degree <= k < polys@[c]@.len() && #[trigger] polys@[
                c]@[k] != 0;
            assert(polys@[c]@[k] == quotient_coeff(rows, gate_terms@, ch, alphas@[c] as int, z_h, lde_bits as nat, next_step as int, num_constants as int, k));
        } else {
            assert forall|c: int, k: int| 0 <= c < alphas@.len() && quotient_degree <= k < n implies #[trigger] quotient_coeff(rows, gate_terms@, ch, alphas@[c] as int, z_h, lde_bits as nat, next_step as int, num_constants as int, k) == 0 by {
                assert(polys@[c]@[k] == 0);
            }
        }
        if r is Ok {
            let chunks = r->Ok_0;
            assert forall|c: int, t: int|
                0 <= c < alphas@.len() && 0 <= t < q implies (#[trigger] chunks@[c * q + t])@.len()
                == degree by {
                assert((t + 1) * degree <= q * degree) by (nonlinear_arith)
                    requires
                        t < q,
                        degree >= 1,
                ;
                vstd::arithmetic::div_mod::lemma_fundamental_div_mod(
                    quotient_degree as int,
                    degree as int,
                );
                assert((t + 1) * degree == t * degree + degree) by (nonlinear_arith);
            }
            assert forall|c: int, t: int, k: int|
                0 <= c < alphas@.len() && 0 <= t < q && 0 <= k < degree implies #[trigger] chunks@[c
                * q + t]@[k] == quotient_coeff(
                rows,
                gate_terms@,
                ch,
                alphas@[c] as int,
                z_h,
                lde_bits as nat,
                next_step as int,
                num_constants as int,
                t * degree + k,
            ) by {
                assert((t + 1) * degree <= q * degree) by (nonlinear_arith)
                    requires
                        t < q,
                        degree >= 1,
                ;
                vstd::arithmetic::div_mod::lemma_fundamental_div_mod(
                    quotient_degree as int,
                    degree as int,
                );
                assert((t + 1) * degree == t * degree + degree) by (nonlinear_arith);
                assert(t * degree + k < pow2(lde_bits as nat));
                assert(chunks@[c * q + t]@[k] == polys@[c]@[t * degree + k]);
            }
        }
    }
    r
}

} // verus!
