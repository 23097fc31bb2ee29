//! The quadratic extension `F[X] / (X^2 - 7)` of the base field, from which the
//! opening point is drawn, and evaluation of polynomials at such points.
use crate::error::ProveError;
use crate::field::{all_canonical, fadd, field_add, field_mul, fmul, ints, P};
use vstd::prelude::*;

verus! {

/// The non-residue `W` with `X^2 = W`.
pub const EXTENSION_W: u64 = 7;

/// The element `c0 + c1 * X`.
#[derive(Clone, Copy, Debug, PartialEq, Eq, Structural)]
pub struct QuadraticExtension {
    pub c0: u64,
    pub c1: u64,
}

impl QuadraticExtension {
    pub open spec fn wf(&self) -> bool {
        self.c0 < P && self.c1 < P
    }
}

pub open spec fn ext_one() -> QuadraticExtension {
    QuadraticExtension { c0: 1, c1: 0 }
}

/// The product, as a pair of integers.
pub open spec fn ext_mul_spec(a: (int, int), b: (int, int)) -> (int, int) {
    (
        fadd(fmul(a.0, b.0), fmul(EXTENSION_W as int, fmul(a.1, b.1))),
        fadd(fmul(a.0, b.1), fmul(a.1, b.0)),
    )
}

pub open spec fn ext_pair(a: QuadraticExtension) -> (int, int) {
    (a.c0 as int, a.c1 as int)
}

/// `a^(2^k)`: `a` squared `k` times.
pub open spec fn ext_exp_power_of_2_spec(a: (int, int), k: nat) -> (int, int)
    decreases k,
{
    if k == 0 {
        a
    } else {
        let h = ext_exp_power_of_2_spec(a, (k - 1) as nat);
        ext_mul_spec(h, h)
    }
}

pub fn ext_mul(a: QuadraticExtension, b: QuadraticExtension) -> (r: QuadraticExtension)
    requires
        a.wf(),
        b.wf(),
    ensures
        r.wf(),
        ext_pair(r) == ext_mul_spec(ext_pair(a), ext_pair(b)),
{
    let c0 = field_add(field_mul(a.c0, b.c0), field_mul(EXTENSION_W, field_mul(a.c1, b.c1)));
    let c1 = field_add(field_mul(a.c0, b.c1), field_mul(a.c1, b.c0));
    QuadraticExtension { c0, c1 }
}

pub fn ext_exp_power_of_2(a: QuadraticExtension, k: usize) -> (r: QuadraticExtension)
    requires
        a.wf(),
    ensures
        r.wf(),
        ext_pair(r) == ext_exp_power_of_2_spec(ext_pair(a), k as nat),
{
    let mut acc = a;
    let mut j: usize = 0;
    while j < k
        invariant
            j <= k,
            acc.wf(),
            ext_pair(acc) == ext_exp_power_of_2_spec(ext_pair(a), j as nat),
        decreases k - j,
    {
        acc = ext_mul(acc, acc);
        j = j + 1;
    }
    acc
}

/// The opening point must lie outside the subgroup of order `2^degree_bits`,
/// that is `zeta^(2^degree_bits) != 1`; then `g * zeta` does too.
pub fn check_opening_point(zeta: QuadraticExtension, degree_bits: usize) -> (r: Result<
    (),
    ProveError,
>)
    requires
        zeta.wf(),
    ensures
        r is Err <==> ext_exp_power_of_2_spec(ext_pair(zeta), degree_bits as nat) == (1int, 0int),
        r is Err ==> r == Err::<(), ProveError>(ProveError::OpeningPointInSubgroup),
{
    let z = ext_exp_power_of_2(zeta, degree_bits);
    if z.c0 == 1 && z.c1 == 0 {
        Err(ProveError::OpeningPointInSubgroup)
    } else {
        Ok(())
    }
}

/// `coeffs[k] + x * coeffs[k + 1] + x^2 * coeffs[k + 2] + ...`, in Horner form,
/// for a polynomial with base-field coefficients at an extension point.
pub open spec fn eval_at(coeffs: Seq<int>, x: (int, int), k: int) -> (int, int)
    decreases coeffs.len() - k,
{
    if k >= coeffs.len() {
        (0, 0)
    } else {
        let rest = ext_mul_spec(eval_at(coeffs, x, k + 1), x);
        (fadd(rest.0, coeffs[k]), rest.1)
    }
}

/// Evaluates a polynomial, given by its coefficients, at an extension point.
pub fn eval_poly(coeffs: &Vec<u64>, x: QuadraticExtension) -> (r: QuadraticExtension)
    requires
        all_canonical(coeffs@),
        x.wf(),
    ensures
        r.wf(),
        ext_pair(r) == eval_at(ints(coeffs@), ext_pair(x), 0),
{
    let ghost s = ints(coeffs@);
    let mut acc = QuadraticExtension { c0: 0, c1: 0 };
    let mut k: usize = coeffs.len();
    while k > 0
        invariant
            s == ints(coeffs@),
            all_canonical(coeffs@),
            x.wf(),
            k <= coeffs@.len(),
            acc.wf(),
            ext_pair(acc) == eval_at(s, ext_pair(x), k as int),
        decreases k,
    {
        let m = ext_mul(acc, x);
        acc = QuadraticExtension { c0: field_add(m.c0, coeffs[k - 1]), c1: m.c1 };
        k = k - 1;
    }
    acc
}

} // verus!
