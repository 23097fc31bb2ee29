//! The quotient evaluator: the eager configuration checks, the extended
//! domain's index arithmetic, the vanishing polynomial on the coset, the
//! batched combination of constraint terms, and the trim-and-split of the
//! quotient's coefficients.
use crate::error::ProveError;
use crate::field::{
    all_canonical, batch_multiplicative_inverse, exp_power_of_2, fadd, field_mul, field_add,
    field_inverse, field_pow, field_sub, finv, fmul, fpow, fsub, ints, powers, primitive_root_of_unity, root_of_unity,
    MULTIPLICATIVE_GROUP_GENERATOR, P, TWO_ADICITY,
};
use vstd::arithmetic::power::lemma_pow0;
use vstd::arithmetic::power2::{lemma_pow2_unfold, pow2};
use vstd::prelude::*;

verus! {

/// `k` is the least exponent with `2^k >= n`.
pub open spec fn is_log2_ceil(n: nat, k: nat) -> bool {
    &&& pow2(k) >= n
    &&& k == 0 || pow2((k - 1) as nat) < n
}

/// The least `k` with `2^k >= n`.
pub fn log2_ceil(n: usize) -> (r: usize)
    ensures
        is_log2_ceil(n as nat, r as nat),
        r <= 64,
{
    let mut k: usize = 0;
    let mut p: u128 = 1;
    proof {
        assert(pow2(0) == 1) by {
            lemma_pow0(2);
        }
    }
    while p < n as u128
        invariant
            p == pow2(k as nat),
            k == 0 || pow2((k - 1) as nat) < n,
            k > 0 ==> p < 2 * (n as int),
            k <= 64,
            p >= 1,
        decreases 2 * (n as int) - p,
    {
        proof {
            lemma_pow2_unfold((k + 1) as nat);
            if k >= 64 {
                vstd::arithmetic::power2::lemma2_to64_rest();
                vstd::arithmetic::power2::lemma_pow2_strictly_increases(64, k as nat);
            }
        }
        p = p * 2;
        k = k + 1;
    }
    k
}

/// The eager configuration check of the permutation argument's degree: the
/// chunking only works when `quotient_degree_factor < num_routed_wires`.
pub fn check_degree_factor(quotient_degree_factor: usize, num_routed_wires: usize) -> (r: Result<
    (),
    ProveError,
>)
    ensures
        r is Ok <==> quotient_degree_factor < num_routed_wires,
        r is Err ==> r == Err::<(), ProveError>(ProveError::DegreeFactorNotBelowRoutedWires),
{
    if quotient_degree_factor < num_routed_wires {
        Ok(())
    } else {
        Err(ProveError::DegreeFactorNotBelowRoutedWires)
    }
}

/// How the quotient's evaluation domain sits inside the committed LDE.
#[derive(Clone, Copy, Debug, PartialEq, Eq, Structural)]
pub struct QuotientDomain {
    /// `log2` of the extension of the subgroup that the constraint degree needs.
    pub quotient_degree_bits: usize,
    /// Stride through the committed LDE that yields the quotient's domain.
    pub step: u64,
    /// Index distance, in the quotient's domain, of the next row.
    pub next_step: u64,
    /// Size of the quotient's domain.
    pub lde_size: u64,
}

/// The quotient domain of a subgroup of size `2^degree_bits`, for constraints of
/// degree `quotient_degree_factor` and commitments extended by `2^rate_bits`.
/// Fails when the constraint degree needs more than the rate provides.
pub fn quotient_domain(
    degree_bits: usize,
    quotient_degree_factor: usize,
    rate_bits: usize,
) -> (r: Result<QuotientDomain, ProveError>)
    requires
        degree_bits + rate_bits <= TWO_ADICITY,
    ensures
        ({
            let qdb = r->Ok_0.quotient_degree_bits;
            r is Ok ==> {
                &&& is_log2_ceil(quotient_degree_factor as nat, qdb as nat)
                &&& qdb <= rate_bits
                &&& r->Ok_0.step == pow2((rate_bits - qdb) as nat)
                &&& r->Ok_0.next_step == pow2(qdb as nat)
                &&& r->Ok_0.lde_size == pow2((degree_bits + qdb) as nat)
            }
        }),
        r is Err <==> (forall|k: nat|
            is_log2_ceil(quotient_degree_factor as nat, k) ==> k > rate_bits),
        r is Err ==> r == Err::<QuotientDomain, ProveError>(ProveError::ConstraintDegreeAboveRate),
{
    let qdb = log2_ceil(quotient_degree_factor);
    proof {
        lemma_log2_ceil_unique(quotient_degree_factor as nat, qdb as nat);
    }
    if qdb > rate_bits {
        return Err(ProveError::ConstraintDegreeAboveRate);
    }
    let step = pow2_u64(rate_bits - qdb);
    let next_step = pow2_u64(qdb);
    let lde_size = pow2_u64(degree_bits + qdb);
    Ok(QuotientDomain { quotient_degree_bits: qdb, step, next_step, lde_size })
}

proof fn lemma_log2_ceil_unique(n: nat, k: nat)
    requires
        is_log2_ceil(n, k),
    ensures
        forall|j: nat| is_log2_ceil(n, j) ==> j == k,
{
    assert forall|j: nat| is_log2_ceil(n, j) implies j == k by {
        if j < k {
            vstd::arithmetic::power2::lemma_pow2_strictly_increases(j, (k - 1) as nat);
            if j == (k - 1) as nat {
            }
        } else if j > k {
            vstd::arithmetic::power2::lemma_pow2_strictly_increases(k, (j - 1) as nat);
            if k == (j - 1) as nat {
            }
        }
    }
}

/// `2^k` for `k <= 32`.
pub(crate) fn pow2_u64(k: usize) -> (r: u64)
    requires
        k <= TWO_ADICITY,
    ensures
        r == pow2(k as nat),
{
    let mut r: u64 = 1;
    let mut j: usize = 0;
    proof {
        assert(pow2(0) == 1) by {
            lemma_pow0(2);
        }
    }
    while j < k
        invariant
            j <= k <= TWO_ADICITY,
            r == pow2(j as nat),
        decreases k - j,
    {
        proof {
            lemma_pow2_unfold((j + 1) as nat);
            vstd::arithmetic::power2::lemma2_to64();
            if j + 1 < 32 {
                vstd::arithmetic::power2::lemma_pow2_strictly_increases((j + 1) as nat, 32);
            }
        }
        r = r * 2;
        j = j + 1;
    }
    r
}

/// The index of the "next row" of point `i`: the quotient's domain is a ring of
/// `lde_size` points, in which the next row lies `next_step` points further on.
pub fn next_row_index(i: u64, next_step: u64, lde_size: u64) -> (r: u64)
    requires
        i < lde_size,
        next_step <= lde_size,
    ensures
        r == (i + next_step) % (lde_size as int),
        r < lde_size,
{
    if i >= lde_size - next_step {
        proof {
            vstd::arithmetic::div_mod::lemma_fundamental_div_mod_converse(
                i + next_step,
                lde_size as int,
                1,
                i + next_step - lde_size,
            );
        }
        i - (lde_size - next_step)
    } else {
        proof {
            vstd::arithmetic::div_mod::lemma_small_mod((i + next_step) as nat, lde_size as nat);
        }
        i + next_step
    }
}

} // verus!

verus! {

/// The subgroup's vanishing polynomial `X^n - 1` at point `i` of the coset
/// `shift * <w>` of size `n * 2^rate_bits`, `n = 2^n_log`. There `x^n` is
/// `shift^n * r^i` for the generator `r` of order `2^rate_bits`, so the values
/// repeat with that period.
pub open spec fn z_h_eval(n_log: nat, rate_bits: nat, i: int) -> int {
    fsub(
        fmul(
            fpow(MULTIPLICATIVE_GROUP_GENERATOR as int, pow2(n_log)),
            fpow(root_of_unity(rate_bits), (i % (pow2(rate_bits) as int)) as nat),
        ),
        1,
    )
}

/// The vanishing polynomial on the coset, and its inverses, over one period.
pub struct ZeroPolyOnCoset {
    pub n_log: usize,
    pub rate_bits: usize,
    pub evals: Vec<u64>,
    pub inverses: Vec<u64>,
}

impl ZeroPolyOnCoset {
    pub open spec fn wf(&self) -> bool {
        &&& self.rate_bits < TWO_ADICITY
        &&& self.evals@.len() == pow2(self.rate_bits as nat)
        &&& self.inverses@.len() == self.evals@.len()
        &&& all_canonical(self.inverses@)
        &&& forall|i: int|
            0 <= i < self.evals@.len() ==> #[trigger] self.evals@[i] == z_h_eval(
                self.n_log as nat,
                self.rate_bits as nat,
                i,
            )
        &&& forall|i: int|
            0 <= i < self.evals@.len() ==> #[trigger] self.inverses@[i] == finv(
                self.evals@[i] as int,
            )
    }

    pub fn new(n_log: usize, rate_bits: usize) -> (r: ZeroPolyOnCoset)
        requires
            rate_bits < TWO_ADICITY,
        ensures
            r.wf(),
            r.n_log == n_log,
            r.rate_bits == rate_bits,
    {
        let g_pow_n = exp_power_of_2(MULTIPLICATIVE_GROUP_GENERATOR, n_log);
        let rate_u64 = pow2_u64(rate_bits);
        proof {
            vstd::arithmetic::power2::lemma2_to64();
            if rate_bits < 31 {
                vstd::arithmetic::power2::lemma_pow2_strictly_increases(rate_bits as nat, 31);
            }
        }
        let rate = rate_u64 as usize;
        let subgroup = powers(primitive_root_of_unity(rate_bits), rate);
        let mut evals: Vec<u64> = Vec::with_capacity(rate);
        let mut i: usize = 0;
        while i < rate
            invariant
                rate == pow2(rate_bits as nat),
                rate_bits < TWO_ADICITY,
                g_pow_n == fpow(MULTIPLICATIVE_GROUP_GENERATOR as int, pow2(n_log as nat)),
                g_pow_n < P,
                subgroup@.len() == rate,
                all_canonical(subgroup@),
                forall|k: int|
                    0 <= k < rate ==> #[trigger] subgroup@[k] == fpow(
                        root_of_unity(rate_bits as nat),
                        k as nat,
                    ),
                i <= rate,
                evals@.len() == i,
                all_canonical(evals@),
                forall|k: int|
                    0 <= k < i ==> #[trigger] evals@[k] == z_h_eval(
                        n_log as nat,
                        rate_bits as nat,
                        k,
                    ),
            decreases rate - i,
        {
            proof {
                vstd::arithmetic::div_mod::lemma_small_mod(i as nat, rate as nat);
            }
            evals.push(field_sub(field_mul(g_pow_n, subgroup[i]), 1));
            i = i + 1;
        }
        let inverses = batch_multiplicative_inverse(&evals);
        ZeroPolyOnCoset { n_log, rate_bits, evals, inverses }
    }

    /// The inverse of the vanishing polynomial at point `i` of the coset.
    pub fn eval_inverse(&self, i: usize) -> (r: u64)
        requires
            self.wf(),
        ensures
            r < P,
            r == finv(z_h_eval(self.n_log as nat, self.rate_bits as nat, i as int)),
    {
        proof {
            vstd::arithmetic::power2::lemma_pow2_pos(self.rate_bits as nat);
        }
        let k = i % self.inverses.len();
        proof {
            let rate = pow2(self.rate_bits as nat) as int;
            assert(z_h_eval(self.n_log as nat, self.rate_bits as nat, k as int) == z_h_eval(
                self.n_log as nat,
                self.rate_bits as nat,
                i as int,
            )) by {
                vstd::arithmetic::div_mod::lemma_small_mod(k as nat, rate as nat);
            }
        }
        self.inverses[k]
    }
}

/// `L_0(x) = Z_H(x) / (n * (x - 1))`, the first Lagrange basis polynomial of
/// the subgroup of order `n = 2^n_log`, at point `i` of the coset, `x` being
/// that point.
pub open spec fn l_0_eval(z_h: &ZeroPolyOnCoset, i: int, x: int) -> int {
    fmul(
        z_h_eval(z_h.n_log as nat, z_h.rate_bits as nat, i),
        finv(fmul(pow2(z_h.n_log as nat) as int, fsub(x, 1))),
    )
}

impl ZeroPolyOnCoset {
    pub fn eval_l_0(&self, i: usize, x: u64) -> (r: u64)
        requires
            self.wf(),
            self.n_log <= TWO_ADICITY,
            x < P,
        ensures
            r < P,
            r == l_0_eval(self, i as int, x as int),
    {
        let n = pow2_u64(self.n_log);
        proof {
            vstd::arithmetic::power2::lemma2_to64();
            if self.n_log < 32 {
                vstd::arithmetic::power2::lemma_pow2_strictly_increases(self.n_log as nat, 32);
            }
            vstd::arithmetic::power2::lemma_pow2_pos(self.rate_bits as nat);
            let k = i as int % (self.evals@.len() as int);
            vstd::arithmetic::div_mod::lemma_small_mod(k as nat, self.evals@.len() as nat);
        }
        let z = self.evals[i % self.evals.len()];
        field_mul(z, field_inverse(field_mul(n, field_sub(x, 1))))
    }
}

/// The point `shift * r^i` of the coset of size `2^lde_bits`.
pub open spec fn coset_point(lde_bits: nat, i: nat) -> int {
    fmul(MULTIPLICATIVE_GROUP_GENERATOR as int, fpow(root_of_unity(lde_bits), i))
}

pub fn coset_point_at(lde_bits: usize, i: u64) -> (r: u64)
    requires
        lde_bits <= TWO_ADICITY,
    ensures
        r < P,
        r == coset_point(lde_bits as nat, i as nat),
{
    field_mul(MULTIPLICATIVE_GROUP_GENERATOR, field_pow(primitive_root_of_unity(lde_bits), i))
}

/// `s[k] + alpha * s[k + 1] + alpha^2 * s[k + 2] + ...`, in Horner form.
pub open spec fn reduce_with_powers(s: Seq<int>, alpha: int, k: int) -> int
    decreases s.len() - k,
{
    if k >= s.len() {
        0
    } else {
        fadd(fmul(reduce_with_powers(s, alpha, k + 1), alpha), s[k])
    }
}

/// The quotient value of one challenge instance at point `i` of the domain: the
/// constraint terms combined by powers of `alpha`, divided by the vanishing
/// polynomial.
pub open spec fn quotient_value(terms: Seq<int>, alpha: int, z_h: &ZeroPolyOnCoset, i: int) -> int {
    fmul(
        reduce_with_powers(terms, alpha, 0),
        finv(z_h_eval(z_h.n_log as nat, z_h.rate_bits as nat, i)),
    )
}

/// Combines a list of terms by powers of `alpha`.
pub fn reduce_terms(terms: &Vec<u64>, alpha: u64) -> (r: u64)
    requires
        all_canonical(terms@),
        alpha < P,
    ensures
        r < P,
        r == reduce_with_powers(ints(terms@), alpha as int, 0),
{
    let ghost s = ints(terms@);
    let mut acc: u64 = 0;
    let mut k: usize = terms.len();
    while k > 0
        invariant
            s == ints(terms@),
            all_canonical(terms@),
            alpha < P,
            k <= terms@.len(),
            acc < P,
            acc == reduce_with_powers(s, alpha as int, k as int),
        decreases k,
    {
        acc = field_add(field_mul(acc, alpha), terms[k - 1]);
        k = k - 1;
    }
    acc
}

/// Every row of `m` is in canonical form.
pub open spec fn rows_canonical(m: Seq<Vec<u64>>) -> bool {
    forall|i: int| 0 <= i < m.len() ==> all_canonical(#[trigger] m[i]@)
}

/// `r` holds, at each point `i` of the domain, the quotient value of each
/// challenge instance.
pub open spec fn are_quotient_values(
    terms: Seq<Vec<u64>>,
    alphas: Seq<u64>,
    z_h: &ZeroPolyOnCoset,
    r: Seq<Vec<u64>>,
) -> bool {
    &&& r.len() == terms.len()
    &&& rows_canonical(r)
    &&& forall|i: int| 0 <= i < r.len() ==> #[trigger] r[i]@.len() == alphas.len()
    &&& forall|i: int, c: int|
        0 <= i < r.len() && 0 <= c < alphas.len() ==> #[trigger] r[i]@[c] == quotient_value(
            ints(terms[i]@),
            alphas[c] as int,
            z_h,
            i,
        )
}

/// The batch size does not matter: any two results of `compute_quotient_values`
/// on the same terms, challenges and vanishing polynomial, whatever batch sizes
/// produced them, are identical.
pub proof fn lemma_quotient_values_batch_invariant(
    terms: Seq<Vec<u64>>,
    alphas: Seq<u64>,
    z_h: &ZeroPolyOnCoset,
    r1: Seq<Vec<u64>>,
    r2: Seq<Vec<u64>>,
)
    requires
        are_quotient_values(terms, alphas, z_h, r1),
        are_quotient_values(terms, alphas, z_h, r2),
    ensures
        r1.len() == r2.len(),
        forall|i: int| 0 <= i < r1.len() ==> #[trigger] r1[i]@ == r2[i]@,
{
    assert forall|i: int| 0 <= i < r1.len() implies #[trigger] r1[i]@ == r2[i]@ by {
        assert(r1[i]@ =~= r2[i]@);
    }
}

/// The quotient values at every point of the domain, one per challenge
/// instance. `terms[i]` holds the constraint terms at point `i`. The points are
/// processed in batches of `batch_size`; batches carry no state.
pub fn compute_quotient_values(
    terms: &Vec<Vec<u64>>,
    alphas: &Vec<u64>,
    z_h: &ZeroPolyOnCoset,
    batch_size: usize,
) -> (r: Vec<Vec<u64>>)
    requires
        batch_size >= 1,
        rows_canonical(terms@),
        all_canonical(alphas@),
        z_h.wf(),
    ensures
        are_quotient_values(terms@, alphas@, z_h, r@),
{
    let n = terms.len();
    let mut r: Vec<Vec<u64>> = Vec::with_capacity(n);
    let mut start: usize = 0;
    while start < n
        invariant
            n == terms@.len(),
            batch_size >= 1,
            rows_canonical(terms@),
            all_canonical(alphas@),
            z_h.wf(),
            start <= n,
            r@.len() == start,
            rows_canonical(r@),
            forall|i: int| 0 <= i < start ==> #[trigger] r@[i]@.len() == alphas@.len(),
            forall|i: int, c: int|
                0 <= i < start && 0 <= c < alphas@.len() ==> #[trigger] r@[i]@[c]
                    == quotient_value(ints(terms@[i]@), alphas@[c] as int, z_h, i),
        decreases n - start,
    {
        let end = if n - start > batch_size {
            start + batch_size
        } else {
            n
        };
        let mut i = start;
        while i < end
            invariant
                n == terms@.len(),
                rows_canonical(terms@),
                all_canonical(alphas@),
                z_h.wf(),
                start <= i <= end <= n,
                r@.len() == i,
                rows_canonical(r@),
                forall|k: int| 0 <= k < i ==> #[trigger] r@[k]@.len() == alphas@.len(),
                forall|k: int, c: int|
                    0 <= k < i && 0 <= c < alphas@.len() ==> #[trigger] r@[k]@[c]
                        == quotient_value(ints(terms@[k]@), alphas@[c] as int, z_h, k),
            decreases end - i,
        {
            r.push(quotient_values_at(&terms[i], alphas, z_h, i));
            i = i + 1;
        }
        start = end;
    }
    r
}

/// The quotient values of every challenge instance at point `i`.
fn quotient_values_at(terms: &Vec<u64>, alphas: &Vec<u64>, z_h: &ZeroPolyOnCoset, i: usize) -> (r:
    Vec<u64>)
    requires
        all_canonical(terms@),
        all_canonical(alphas@),
        z_h.wf(),
    ensures
        r@.len() == alphas@.len(),
        all_canonical(r@),
        forall|c: int|
            0 <= c < alphas@.len() ==> #[trigger] r@[c] == quotient_value(
                ints(terms@),
                alphas@[c] as int,
                z_h,
                i as int,
            ),
{
    let denominator_inv = z_h.eval_inverse(i);
    let mut r: Vec<u64> = Vec::with_capacity(alphas.len());
    let mut c: usize = 0;
    while c < alphas.len()
        invariant
            all_canonical(terms@),
            all_canonical(alphas@),
            z_h.wf(),
            denominator_inv < P,
            denominator_inv == finv(z_h_eval(z_h.n_log as nat, z_h.rate_bits as nat, i as int)),
            c <= alphas@.len(),
            r@.len() == c,
            all_canonical(r@),
            forall|k: int|
                0 <= k < c ==> #[trigger] r@[k] == quotient_value(
                    ints(terms@),
                    alphas@[k] as int,
                    z_h,
                    i as int,
                ),
        decreases alphas@.len() - c,
    {
        let combined = reduce_terms(terms, alphas[c]);
        r.push(field_mul(combined, denominator_inv));
        c = c + 1;
    }
    r
}

} // verus!

verus! {

/// Drops the coefficients from `len` on; fails unless all of them are zero,
/// which is the case exactly when the constraints were divisible by the
/// vanishing polynomial.
pub fn trim_to_len(coeffs: &Vec<u64>, len: usize) -> (r: Result<Vec<u64>, ProveError>)
    requires
        len <= coeffs@.len(),
    ensures
        r is Ok <==> forall|k: int| len <= k < coeffs@.len() ==> #[trigger] coeffs@[k] == 0,
        r is Err ==> r == Err::<Vec<u64>, ProveError>(ProveError::QuotientNotDivisible),
        r matches Ok(v) ==> v@ == coeffs@.subrange(0, len as int),
{
    let mut k: usize = len;
    while k < coeffs.len()
        invariant
            len <= k <= coeffs@.len(),
            forall|j: int| len <= j < k ==> #[trigger] coeffs@[j] == 0,
        decreases coeffs@.len() - k,
    {
        if coeffs[k] != 0 {
            return Err(ProveError::QuotientNotDivisible);
        }
        k = k + 1;
    }
    let mut v: Vec<u64> = Vec::with_capacity(len);
    let mut j: usize = 0;
    while j < len
        invariant
            len <= coeffs@.len(),
            j <= len,
            v@ == coeffs@.subrange(0, j as int),
        decreases len - j,
    {
        v.push(coeffs[j]);
        j = j + 1;
        proof {
            assert(v@ =~= coeffs@.subrange(0, j as int));
        }
    }
    Ok(v)
}

/// Trims each quotient polynomial to `quotient_degree` coefficients and splits
/// it into chunks of `degree` coefficients, ready for one commitment. Fails if
/// any quotient has a non-zero coefficient past `quotient_degree`.
pub fn split_quotient_polys(polys: &Vec<Vec<u64>>, quotient_degree: usize, degree: usize) -> (r:
    Result<Vec<Vec<u64>>, ProveError>)
    requires
        degree >= 1,
        quotient_degree % degree == 0,
        forall|c: int| 0 <= c < polys@.len() ==> quotient_degree <= #[trigger] polys@[c]@.len(),
        polys@.len() * (quotient_degree / degree) <= usize::MAX,
    ensures
        r is Ok <==> forall|c: int, k: int|
            0 <= c < polys@.len() && quotient_degree <= k < polys@[c]@.len() ==> #[trigger] polys@[
            c]@[k] == 0,
        r is Err ==> r == Err::<Vec<Vec<u64>>, ProveError>(ProveError::QuotientNotDivisible),
        r matches Ok(chunks) ==> {
            let q = quotient_degree / degree;
            &&& chunks@.len() == polys@.len() * q
            &&& forall|c: int, t: int|
                0 <= c < polys@.len() && 0 <= t < q ==> #[trigger] chunks@[c * q + t]@
                    == polys@[c]@.subrange(t * degree, (t + 1) * degree)
        },
{
    let q = quotient_degree / degree;
    let mut chunks: Vec<Vec<u64>> = Vec::with_capacity(polys.len() * q);
    let mut c: usize = 0;
    while c < polys.len()
        invariant
            degree >= 1,
            quotient_degree % degree == 0,
            q == quotient_degree / degree,
            polys@.len() * q <= usize::MAX,
            forall|k: int| 0 <= k < polys@.len() ==> quotient_degree <= #[trigger] polys@[k]@.len(),
            c <= polys@.len(),
            chunks@.len() == c * q,
            forall|k: int, j: int|
                0 <= k < c && quotient_degree <= j < polys@[k]@.len() ==> #[trigger] polys@[k]@[j]
                    == 0,
            forall|k: int, t: int|
                0 <= k < c && 0 <= t < q ==> #[trigger] chunks@[k * q + t]@ == polys@[k]@.subrange(
                    t * degree,
                    (t + 1) * degree,
                ),
        decreases polys@.len() - c,
    {
        let trimmed = match trim_to_len(&polys[c], quotient_degree) {
            Ok(v) => v,
            Err(e) => {
                proof {
                    assert(!(forall|j: int|
                        quotient_degree <= j < polys@[c as int]@.len() ==> #[trigger] polys@[
                        c as int]@[j] == 0));
                }
                return Err(e);
            },
        };
        let mut t: usize = 0;
        proof {
            assert(q * degree == quotient_degree) by {
                vstd::arithmetic::div_mod::lemma_fundamental_div_mod(
                    quotient_degree as int,
                    degree as int,
                );
            }
        }
        while t < q
            invariant
                degree >= 1,
                q * degree == quotient_degree,
                quotient_degree <= polys@[c as int]@.len(),
                trimmed@ == polys@[c as int]@.subrange(0, quotient_degree as int),
                polys@.len() * q <= usize::MAX,
                c < polys@.len(),
                t <= q,
                chunks@.len() == c * q + t,
                forall|k: int, s: int|
                    0 <= k < c && 0 <= s < q ==> #[trigger] chunks@[k * q + s]@
                        == polys@[k]@.subrange(s * degree, (s + 1) * degree),
                forall|s: int|
                    0 <= s < t ==> #[trigger] chunks@[c * q + s]@ == polys@[c as int]@.subrange(
                        s * degree,
                        (s + 1) * degree,
                    ),
            decreases q - t,
        {
            proof {
                assert((t + 1) * degree <= q * degree) by (nonlinear_arith)
                    requires
                        t < q,
                        degree >= 1,
                ;
                assert(t * degree + degree == (t + 1) * degree) by (nonlinear_arith);
                assert(c * q + t < polys@.len() * q) by (nonlinear_arith)
                    requires
                        c < polys@.len(),
                        t < q,
                ;
            }
            let start = t * degree;
            let mut chunk: Vec<u64> = Vec::with_capacity(degree);
            let mut j: usize = 0;
            while j < degree
                invariant
                    start + degree <= quotient_degree,
                    quotient_degree <= polys@[c as int]@.len(),
                    trimmed@ == polys@[c as int]@.subrange(0, quotient_degree as int),
                    c < polys@.len(),
                    j <= degree,
                    chunk@ == polys@[c as int]@.subrange(start as int, start + j),
                decreases degree - j,
            {
                chunk.push(trimmed[start + j]);
                j = j + 1;
                proof {
                    assert(chunk@ =~= polys@[c as int]@.subrange(start as int, start + j));
                }
            }
            let ghost prev = chunks@;
            chunks.push(chunk);
            proof {
                assert forall|k: int, s: int|
                    0 <= k < c && 0 <= s < q implies #[trigger] chunks@[k * q + s]@
                    == polys@[k]@.subrange(s * degree, (s + 1) * degree) by {
                    assert(k * q + s < c * q) by (nonlinear_arith)
                        requires
                            0 <= k < c,
                            0 <= s < q,
                    ;
                    assert(chunks@[k * q + s] == prev[k * q + s]);
                }
            }
            t = t + 1;
        }
        proof {
            assert((c + 1) * q == c * q + q) by (nonlinear_arith);
        }
        c = c + 1;
    }
    Ok(chunks)
}

} // verus!
