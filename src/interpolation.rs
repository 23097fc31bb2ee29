//! Interpolation from values on a coset of a two-power subgroup back to
//! coefficients: the inverse discrete Fourier transform, shifted.
use crate::field::{
    all_canonical, fadd, field_add, field_inverse, field_mul, field_pow, finv, fmul, fpow, ints,
    lemma_fpow_step, primitive_root_of_unity, root_of_unity, P, TWO_ADICITY,
};
use vstd::arithmetic::power::lemma_pow0;
use vstd::arithmetic::power2::pow2;
use vstd::prelude::*;

verus! {

/// `v[0] + v[1] * u + ... + v[upto-1] * u^(upto-1)`.
pub open spec fn weighted_sum(v: Seq<int>, u: int, upto: int) -> int
    decreases upto,
{
    if upto <= 0 {
        0
    } else {
        fadd(weighted_sum(v, u, upto - 1), fmul(v[upto - 1], fpow(u, (upto - 1) as nat)))
    }
}

/// Coefficient `k` of the polynomial whose values on the coset `shift * <w>`
/// (`w` of order `n = 2^bits`) are `v`:
/// `n^-1 * shift^-k * sum_i v[i] * w^(-i k)`.
pub open spec fn coset_ifft_coeff(v: Seq<int>, bits: nat, shift: int, k: nat) -> int {
    fmul(
        fmul(finv(pow2(bits) as int), fpow(finv(shift), k)),
        weighted_sum(v, fpow(finv(root_of_unity(bits)), k), v.len() as int),
    )
}

/// The coefficients of the polynomial with `values` on the coset
/// `shift * <w>` of size `2^bits`.
pub fn coset_ifft(values: &Vec<u64>, bits: usize, shift: u64) -> (r: Vec<u64>)
    requires
        bits <= TWO_ADICITY,
        values@.len() == pow2(bits as nat),
        all_canonical(values@),
        shift < P,
    ensures
        r@.len() == values@.len(),
        all_canonical(r@),
        forall|k: int|
            0 <= k < r@.len() ==> #[trigger] r@[k] == coset_ifft_coeff(
                ints(values@),
                bits as nat,
                shift as int,
                k as nat,
            ),
{
    let ghost v = ints(values@);
    let n = values.len();
    proof {
        vstd::arithmetic::power2::lemma2_to64();
        if bits < 32 {
            vstd::arithmetic::power2::lemma_pow2_strictly_increases(bits as nat, 32);
        }
    }
    let n_inv = field_inverse(n as u64);
    let w_inv = field_inverse(primitive_root_of_unity(bits));
    let shift_inv = field_inverse(shift);
    let mut r: Vec<u64> = Vec::with_capacity(n);
    let mut k: usize = 0;
    while k < n
        invariant
            n == values@.len(),
            v == ints(values@),
            n == pow2(bits as nat),
            n < P,
            all_canonical(values@),
            n_inv == finv(pow2(bits as nat) as int),
            n_inv < P,
            w_inv == finv(root_of_unity(bits as nat)),
            w_inv < P,
            shift_inv == finv(shift as int),
            shift_inv < P,
            k <= n,
            r@.len() == k,
            all_canonical(r@),
            forall|j: int|
                0 <= j < k ==> #[trigger] r@[j] == coset_ifft_coeff(
                    v,
                    bits as nat,
                    shift as int,
                    j as nat,
                ),
        decreases n - k,
    {
        let wk = field_pow(w_inv, k as u64);
        let mut acc: u64 = 0;
        let mut pw: u64 = 1;
        let mut i: usize = 0;
        proof {
            lemma_pow0(wk as int);
        }
        while i < n
            invariant
                n == values@.len(),
                v == ints(values@),
                all_canonical(values@),
                wk < P,
                i <= n,
                pw < P,
                pw == fpow(wk as int, i as nat),
                acc < P,
                acc == weighted_sum(v, wk as int, i as int),
            decreases n - i,
        {
            acc = field_add(acc, field_mul(values[i], pw));
            proof {
                lemma_fpow_step(wk as int, i as nat);
            }
            pw = field_mul(pw, wk);
            i = i + 1;
        }
        let scale = field_mul(n_inv, field_pow(shift_inv, k as u64));
        r.push(field_mul(scale, acc));
        k = k + 1;
    }
    r
}

} // verus!
