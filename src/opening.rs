//! The opening set: every committed polynomial evaluated at the opening point
//! `zeta`, and the grand products also at `g * zeta`.
use crate::extension::{
    eval_at, eval_poly, ext_mul, ext_mul_spec, ext_pair, QuadraticExtension,
};
use crate::field::{ints, P};
use crate::quotient::rows_canonical;
use vstd::prelude::*;

verus! {

/// `r` holds the values of `polys[lo..hi]` at `x`, in order.
pub open spec fn evals_of(polys: Seq<Vec<u64>>, lo: int, hi: int, x: (int, int), r: Seq<
    QuadraticExtension,
>) -> bool {
    &&& r.len() == hi - lo
    &&& forall|k: int| 0 <= k < r.len() ==> (#[trigger] r[k]).wf()
    &&& forall|k: int|
        0 <= k < r.len() ==> ext_pair(#[trigger] r[k]) == eval_at(ints(polys[lo + k]@), x, 0)
}

/// Evaluates `polys[lo..hi]` at `x`.
pub fn eval_range(polys: &Vec<Vec<u64>>, lo: usize, hi: usize, x: QuadraticExtension) -> (r: Vec<
    QuadraticExtension,
>)
    requires
        lo <= hi <= polys@.len(),
        rows_canonical(polys@),
        x.wf(),
    ensures
        evals_of(polys@, lo as int, hi as int, ext_pair(x), r@),
{
    let mut r: Vec<QuadraticExtension> = Vec::with_capacity(hi - lo);
    let mut k: usize = lo;
    while k < hi
        invariant
            lo <= k <= hi <= polys@.len(),
            rows_canonical(polys@),
            x.wf(),
            evals_of(polys@, lo as int, k as int, ext_pair(x), r@),
        decreases hi - k,
    {
        r.push(eval_poly(&polys[k], x));
        k = k + 1;
    }
    r
}

/// The evaluations that the opening proof opens.
pub struct OpeningSet {
    pub constants: Vec<QuadraticExtension>,
    pub plonk_sigmas: Vec<QuadraticExtension>,
    pub wires: Vec<QuadraticExtension>,
    pub plonk_zs: Vec<QuadraticExtension>,
    pub plonk_zs_next: Vec<QuadraticExtension>,
    pub partial_products: Vec<QuadraticExtension>,
    pub quotient_polys: Vec<QuadraticExtension>,
}

impl OpeningSet {
    /// Evaluates the four committed batches at `zeta`, and the `Z` polynomials
    /// (the first `num_challenges` of `zs_partial_products`) at `g * zeta`.
    /// `constants_sigmas` holds `num_constants` constant polynomials followed by
    /// the sigma polynomials of the `num_routed_wires` routed wires.
    pub fn new(
        zeta: QuadraticExtension,
        g: u64,
        constants_sigmas: &Vec<Vec<u64>>,
        wires: &Vec<Vec<u64>>,
        zs_partial_products: &Vec<Vec<u64>>,
        quotient_polys: &Vec<Vec<u64>>,
        num_constants: usize,
        num_routed_wires: usize,
        num_challenges: usize,
    ) -> (r: OpeningSet)
        requires
            zeta.wf(),
            num_constants + num_routed_wires <= constants_sigmas@.len(),
            g < P,
            num_challenges <= zs_partial_products@.len(),
            rows_canonical(constants_sigmas@),
            rows_canonical(wires@),
            rows_canonical(zs_partial_products@),
            rows_canonical(quotient_polys@),
        ensures
            ({
                let z = ext_pair(zeta);
                let gz = ext_mul_spec((g as int, 0), z);
                let nc = num_constants as int;
                &&& evals_of(constants_sigmas@, 0, nc, z, r.constants@)
                &&& evals_of(
                    constants_sigmas@,
                    nc,
                    nc + num_routed_wires,
                    z,
                    r.plonk_sigmas@,
                )
                &&& evals_of(wires@, 0, wires@.len() as int, z, r.wires@)
                &&& evals_of(zs_partial_products@, 0, num_challenges as int, z, r.plonk_zs@)
                &&& evals_of(zs_partial_products@, 0, num_challenges as int, gz, r.plonk_zs_next@)
                &&& evals_of(
                    zs_partial_products@,
                    num_challenges as int,
                    zs_partial_products@.len() as int,
                    z,
                    r.partial_products@,
                )
                &&& evals_of(quotient_polys@, 0, quotient_polys@.len() as int, z, r.quotient_polys@)
            }),
    {
        let g_zeta = ext_mul(QuadraticExtension { c0: g, c1: 0 }, zeta);
        let num_polys = constants_sigmas.len();
        assert(num_constants + num_routed_wires <= num_polys);
        let sigmas_end = num_constants + num_routed_wires;
        OpeningSet {
            constants: eval_range(constants_sigmas, 0, num_constants, zeta),
            plonk_sigmas: eval_range(
                constants_sigmas,
                num_constants,
                sigmas_end,
                zeta,
            ),
            wires: eval_range(wires, 0, wires.len(), zeta),
            plonk_zs: eval_range(zs_partial_products, 0, num_challenges, zeta),
            plonk_zs_next: eval_range(zs_partial_products, 0, num_challenges, g_zeta),
            partial_products: eval_range(
                zs_partial_products,
                num_challenges,
                zs_partial_products.len(),
                zeta,
            ),
            quotient_polys: eval_range(quotient_polys, 0, quotient_polys.len(), zeta),
        }
    }
}

} // verus!
