//! The permutation-consistency constraints at one point of the quotient's
//! domain: `L_0(x) * (Z(x) - 1)` for each instance, and one check per chunk that
//! the partial products step correctly from `Z(x)` to `Z(g x)`.
use crate::field::{
    all_canonical, fadd, field_add, field_mul, field_sub, fmul, fsub, ints, P,
};
use crate::permutation::{chunk_products, num_chunks, quotient_chunk_products};
use vstd::prelude::*;

verus! {

/// Numerator terms at a point: `wire_j + beta * k_j * x + gamma`.
pub open spec fn numerators_at(
    wires: Seq<u64>,
    k_is: Seq<u64>,
    x: int,
    beta: int,
    gamma: int,
    m: nat,
) -> Seq<int> {
    Seq::new(m, |j: int| fadd(fadd(wires[j] as int, fmul(beta, fmul(k_is[j] as int, x))), gamma))
}

/// Denominator terms at a point: `wire_j + beta * sigma_j + gamma`.
pub open spec fn denominators_at(
    wires: Seq<u64>,
    s_sigmas: Seq<u64>,
    beta: int,
    gamma: int,
    m: nat,
) -> Seq<int> {
    Seq::new(m, |j: int| fadd(fadd(wires[j] as int, fmul(beta, s_sigmas[j] as int)), gamma))
}

/// The running products of instance `i` around chunk boundaries: `Z(x)`, the
/// instance's `num_prods` partial products, then `Z(g x)`.
pub open spec fn acc_at(
    zs: Seq<u64>,
    next_zs: Seq<u64>,
    partial_products: Seq<u64>,
    num_prods: int,
    i: int,
    t: int,
) -> int {
    if t == 0 {
        zs[i] as int
    } else if t == num_prods + 1 {
        next_zs[i] as int
    } else {
        partial_products[i * num_prods + t - 1] as int
    }
}

/// The check of chunk `t`: `acc_t * (numerator chunk product) - acc_(t+1) *
/// (denominator chunk product)`, zero when the partial products step correctly.
pub open spec fn chunk_check(nums: Seq<int>, dens: Seq<int>, c: nat, prev: int, next: int, t: int) -> int {
    fsub(fmul(prev, chunk_products(nums, c)[t]), fmul(next, chunk_products(dens, c)[t]))
}

/// Inputs at one point of the domain, for the permutation constraints.
pub struct PointOpenings {
    /// The point `x` of the coset.
    pub x: u64,
    /// `L_0(x)`, the first Lagrange basis polynomial of the subgroup at `x`.
    pub l_0_x: u64,
    /// The wire values; the routed ones come first.
    pub wires: Vec<u64>,
    /// The sigma values of the routed wires.
    pub s_sigmas: Vec<u64>,
    /// `Z(x)` of each instance.
    pub local_zs: Vec<u64>,
    /// `Z(g x)` of each instance.
    pub next_zs: Vec<u64>,
    /// The partial products of all instances, instance after instance.
    pub partial_products: Vec<u64>,
}

/// The challenges and circuit data that the constraints read.
pub struct PermutationChallenges {
    pub betas: Vec<u64>,
    pub gammas: Vec<u64>,
    pub k_is: Vec<u64>,
    pub num_routed_wires: usize,
    pub quotient_degree_factor: usize,
}

pub open spec fn constraint_inputs_wf(p: &PointOpenings, ch: &PermutationChallenges) -> bool {
    let m = ch.num_routed_wires;
    let nc = ch.betas@.len();
    let np = num_chunks(m as nat, ch.quotient_degree_factor as nat) - 1;
    &&& m >= 1
    &&& ch.quotient_degree_factor >= 1
    &&& p.x < P
    &&& p.l_0_x < P
    &&& p.wires@.len() >= m
    &&& p.s_sigmas@.len() >= m
    &&& ch.k_is@.len() >= m
    &&& ch.gammas@.len() == nc
    &&& p.local_zs@.len() == nc
    &&& p.next_zs@.len() == nc
    &&& p.partial_products@.len() == nc * np
    &&& all_canonical(p.wires@)
    &&& all_canonical(p.s_sigmas@)
    &&& all_canonical(ch.k_is@)
    &&& all_canonical(ch.betas@)
    &&& all_canonical(ch.gammas@)
    &&& all_canonical(p.local_zs@)
    &&& all_canonical(p.next_zs@)
    &&& all_canonical(p.partial_products@)
}

/// The permutation constraint terms at a point: first `L_0(x) * (Z(x) - 1)`
/// for every instance, then the chunk checks of every instance in turn.
pub open spec fn are_permutation_terms(
    p: &PointOpenings,
    ch: &PermutationChallenges,
    r: Seq<u64>,
) -> bool {
    let m = ch.num_routed_wires as nat;
    let c = ch.quotient_degree_factor as nat;
    let nc = ch.betas@.len() as int;
    let w = num_chunks(m, c) as int;
    &&& r.len() == nc + nc * w
    &&& all_canonical(r)
    &&& forall|i: int|
        0 <= i < nc ==> #[trigger] r[i] == fmul(p.l_0_x as int, fsub(p.local_zs@[i] as int, 1))
    &&& forall|i: int, t: int|
        0 <= i < nc && 0 <= t < w ==> #[trigger] r[nc + i * w + t] == chunk_check(
            numerators_at(p.wires@, ch.k_is@, p.x as int, ch.betas@[i] as int, ch.gammas@[i] as int, m),
            denominators_at(p.wires@, p.s_sigmas@, ch.betas@[i] as int, ch.gammas@[i] as int, m),
            c,
            acc_at(p.local_zs@, p.next_zs@, p.partial_products@, w - 1, i, t),
            acc_at(p.local_zs@, p.next_zs@, p.partial_products@, w - 1, i, t + 1),
            t,
        )
}

/// The permutation constraint terms at a point, as one sequence: entry `i < nc`
/// is `L_0(x) * (Z_i(x) - 1)`, entry `nc + i * w + t` the check of chunk `t`
/// of instance `i`.
pub open spec fn permutation_terms(p: &PointOpenings, ch: &PermutationChallenges) -> Seq<int> {
    permutation_terms_of(
        p.x as int,
        p.l_0_x as int,
        p.wires@,
        p.s_sigmas@,
        p.local_zs@,
        p.next_zs@,
        p.partial_products@,
        ch,
    )
}

/// `permutation_terms`, over the point's values one by one.
pub open spec fn permutation_terms_of(
    x: int,
    l_0_x: int,
    wires: Seq<u64>,
    s_sigmas: Seq<u64>,
    local_zs: Seq<u64>,
    next_zs: Seq<u64>,
    partial_products: Seq<u64>,
    ch: &PermutationChallenges,
) -> Seq<int> {
    let m = ch.num_routed_wires as nat;
    let c = ch.quotient_degree_factor as nat;
    let nc = ch.betas@.len() as int;
    let w = num_chunks(m, c) as int;
    Seq::new(
        (nc + nc * w) as nat,
        |j: int|
            if j < nc {
                fmul(l_0_x, fsub(local_zs[j] as int, 1))
            } else {
                let i = (j - nc) / w;
                let t = (j - nc) % w;
                chunk_check(
                    numerators_at(wires, ch.k_is@, x, ch.betas@[i] as int, ch.gammas@[i] as int, m),
                    denominators_at(wires, s_sigmas, ch.betas@[i] as int, ch.gammas@[i] as int, m),
                    c,
                    acc_at(local_zs, next_zs, partial_products, w - 1, i, t),
                    acc_at(local_zs, next_zs, partial_products, w - 1, i, t + 1),
                    t,
                )
            },
    )
}

proof fn lemma_permutation_terms(p: &PointOpenings, ch: &PermutationChallenges, r: Seq<u64>)
    requires
        are_permutation_terms(p, ch, r),
        ch.num_routed_wires >= 1,
        ch.quotient_degree_factor >= 1,
    ensures
        ints(r) == permutation_terms(p, ch),
{
    let m = ch.num_routed_wires as nat;
    let c = ch.quotient_degree_factor as nat;
    let nc = ch.betas@.len() as int;
    let w = num_chunks(m, c) as int;
    assert(w >= 1) by {
        assert((m + c - 1) / (c as int) >= 1) by (nonlinear_arith)
            requires
                m >= 1,
                c >= 1,
        ;
    }
    let spec_terms = permutation_terms(p, ch);
    assert forall|j: int| 0 <= j < r.len() implies #[trigger] ints(r)[j] == spec_terms[j] by {
        if j >= nc {
            let i = (j - nc) / w;
            let t = (j - nc) % w;
            vstd::arithmetic::div_mod::lemma_fundamental_div_mod(j - nc, w);
            assert(0 <= t < w);
            assert(0 <= i < nc) by {
                assert(j - nc < nc * w);
                assert(w * i + t == j - nc);
                if i >= nc {
                    assert(w * i >= w * nc) by (nonlinear_arith)
                        requires
                            i >= nc,
                            w >= 1,
                    ;
                }
                if i < 0 {
                    assert(w * i <= -w) by (nonlinear_arith)
                        requires
                            i < 0,
                            w >= 1,
                    ;
                }
            }
            assert(r[nc + i * w + t] == r[j]) by {
                assert(i * w == w * i) by (nonlinear_arith);
            }
        }
    }
    assert(ints(r) =~= spec_terms);
}

/// Evaluates the permutation constraint terms at one point.
pub fn permutation_terms_at(p: &PointOpenings, ch: &PermutationChallenges) -> (r: Vec<u64>)
    requires
        constraint_inputs_wf(p, ch),
        ch.betas@.len() * (num_chunks(ch.num_routed_wires as nat, ch.quotient_degree_factor as nat)
            + 1) <= usize::MAX,
    ensures
        are_permutation_terms(p, ch, r@),
{
    let m = ch.num_routed_wires;
    let c = ch.quotient_degree_factor;
    let nc = ch.betas.len();
    let ghost w = num_chunks(m as nat, c as nat) as int;
    let mut r: Vec<u64> = Vec::new();
    let mut i: usize = 0;
    while i < nc
        invariant
            constraint_inputs_wf(p, ch),
            m == ch.num_routed_wires,
            c == ch.quotient_degree_factor,
            nc == ch.betas@.len(),
            i <= nc,
            r@.len() == i,
            all_canonical(r@),
            forall|k: int|
                0 <= k < i ==> #[trigger] r@[k] == fmul(p.l_0_x as int, fsub(p.local_zs@[k] as int, 1)),
        decreases nc - i,
    {
        r.push(field_mul(p.l_0_x, field_sub(p.local_zs[i], 1)));
        i = i + 1;
    }
    let mut i: usize = 0;
    while i < nc
        invariant
            constraint_inputs_wf(p, ch),
            m == ch.num_routed_wires,
            c == ch.quotient_degree_factor,
            nc == ch.betas@.len(),
            w == num_chunks(m as nat, c as nat),
            nc * (w + 1) <= usize::MAX,
            i <= nc,
            r@.len() == nc + i * w,
            all_canonical(r@),
            forall|k: int|
                0 <= k < nc ==> #[trigger] r@[k] == fmul(p.l_0_x as int, fsub(p.local_zs@[k] as int, 1)),
            forall|k: int, t: int|
                0 <= k < i && 0 <= t < w ==> #[trigger] r@[nc + k * w + t] == chunk_check(
                    numerators_at(p.wires@, ch.k_is@, p.x as int, ch.betas@[k] as int, ch.gammas@[k] as int, m as nat),
                    denominators_at(p.wires@, p.s_sigmas@, ch.betas@[k] as int, ch.gammas@[k] as int, m as nat),
                    c as nat,
                    acc_at(p.local_zs@, p.next_zs@, p.partial_products@, w - 1, k, t),
                    acc_at(p.local_zs@, p.next_zs@, p.partial_products@, w - 1, k, t + 1),
                    t,
                ),
        decreases nc - i,
    {
        let beta = ch.betas[i];
        let gamma = ch.gammas[i];
        let ghost nums_spec = numerators_at(p.wires@, ch.k_is@, p.x as int, beta as int, gamma as int, m as nat);
        let ghost dens_spec = denominators_at(p.wires@, p.s_sigmas@, beta as int, gamma as int, m as nat);
        let mut nums: Vec<u64> = Vec::with_capacity(m);
        let mut dens: Vec<u64> = Vec::with_capacity(m);
        let mut j: usize = 0;
        while j < m
            invariant
                constraint_inputs_wf(p, ch),
                m == ch.num_routed_wires,
                beta < P,
                gamma < P,
                nums_spec == numerators_at(p.wires@, ch.k_is@, p.x as int, beta as int, gamma as int, m as nat),
                dens_spec == denominators_at(p.wires@, p.s_sigmas@, beta as int, gamma as int, m as nat),
                j <= m,
                nums@.len() == j,
                dens@.len() == j,
                all_canonical(nums@),
                all_canonical(dens@),
                forall|k: int| 0 <= k < j ==> #[trigger] nums@[k] == nums_spec[k],
                forall|k: int| 0 <= k < j ==> #[trigger] dens@[k] == dens_spec[k],
            decreases m - j,
        {
            let wire = p.wires[j];
            let s_id = field_mul(ch.k_is[j], p.x);
            nums.push(field_add(field_add(wire, field_mul(beta, s_id)), gamma));
            dens.push(field_add(field_add(wire, field_mul(beta, p.s_sigmas[j])), gamma));
            j = j + 1;
        }
        proof {
            assert(ints(nums@) =~= nums_spec);
            assert(ints(dens@) =~= dens_spec);
        }
        let num_products = quotient_chunk_products(&nums, c);
        let den_products = quotient_chunk_products(&dens, c);
        let width = num_products.len();
        proof {
            assert(ints(num_products@).len() == num_products@.len());
            assert(ints(den_products@).len() == den_products@.len());
            assert(width == w);
            assert(w >= 1) by {
                assert((m + c - 1) / (c as int) >= 1) by (nonlinear_arith)
                    requires
                        m >= 1,
                        c >= 1,
                ;
            }
            assert(i * w + w <= nc * w) by (nonlinear_arith)
                requires
                    i < nc,
                    w >= 0,
            ;
            assert(nc * (w + 1) == nc + nc * w) by (nonlinear_arith);
        }
        let num_prods = width - 1;
        proof {
            assert(i * num_prods + num_prods <= nc * num_prods) by (nonlinear_arith)
                requires
                    i < nc,
                    num_prods >= 0,
            ;
            assert(nc * num_prods <= nc * (w + 1)) by (nonlinear_arith)
                requires
                    num_prods == w - 1,
                    nc >= 0,
            ;
            assert(p.partial_products@.len() == nc * num_prods);
        }
        let mut t: usize = 0;
        while t < width
            invariant
                constraint_inputs_wf(p, ch),
                nc == ch.betas@.len(),
                c == ch.quotient_degree_factor,
                m == ch.num_routed_wires,
                beta == ch.betas@[i as int],
                gamma == ch.gammas@[i as int],
                i < nc,
                width == w,
                w >= 1,
                num_prods == w - 1,
                nc * (w + 1) <= usize::MAX,
                nc * (w + 1) == nc + nc * w,
                i * w + w <= nc * w,
                i * num_prods + num_prods <= nc * num_prods,
                p.partial_products@.len() == nc * num_prods,
                num_products@.len() == width,
                den_products@.len() == width,
                nc * num_prods <= usize::MAX,
                ints(num_products@) == chunk_products(nums_spec, c as nat),
                ints(den_products@) == chunk_products(dens_spec, c as nat),
                all_canonical(num_products@),
                all_canonical(den_products@),
                nums_spec == numerators_at(p.wires@, ch.k_is@, p.x as int, beta as int, gamma as int, m as nat),
                dens_spec == denominators_at(p.wires@, p.s_sigmas@, beta as int, gamma as int, m as nat),
                t <= width,
                r@.len() == nc + i * w + t,
                all_canonical(r@),
                forall|k: int|
                    0 <= k < nc ==> #[trigger] r@[k] == fmul(p.l_0_x as int, fsub(p.local_zs@[k] as int, 1)),
                forall|k: int, s: int|
                    0 <= k < i && 0 <= s < w ==> #[trigger] r@[nc + k * w + s] == chunk_check(
                        numerators_at(p.wires@, ch.k_is@, p.x as int, ch.betas@[k] as int, ch.gammas@[k] as int, m as nat),
                        denominators_at(p.wires@, p.s_sigmas@, ch.betas@[k] as int, ch.gammas@[k] as int, m as nat),
                        c as nat,
                        acc_at(p.local_zs@, p.next_zs@, p.partial_products@, w - 1, k, s),
                        acc_at(p.local_zs@, p.next_zs@, p.partial_products@, w - 1, k, s + 1),
                        s,
                    ),
                forall|s: int|
                    0 <= s < t ==> #[trigger] r@[nc + i * w + s] == chunk_check(
                        nums_spec,
                        dens_spec,
                        c as nat,
                        acc_at(p.local_zs@, p.next_zs@, p.partial_products@, w - 1, i as int, s),
                        acc_at(p.local_zs@, p.next_zs@, p.partial_products@, w - 1, i as int, s + 1),
                        s,
                    ),
            decreases width - t,
        {
            let prev = if t == 0 {
                p.local_zs[i]
            } else {
                p.partial_products[i * num_prods + t - 1]
            };
            let next = if t == num_prods {
                p.next_zs[i]
            } else {
                p.partial_products[i * num_prods + t]
            };
            proof {
                assert(ints(num_products@)[t as int] == num_products@[t as int]);
                assert(ints(den_products@)[t as int] == den_products@[t as int]);
            }
            let ghost prev_r = r@;
            r.push(field_sub(field_mul(prev, num_products[t]), field_mul(next, den_products[t])));
            proof {
                assert forall|k: int, s: int|
                    0 <= k < i && 0 <= s < w implies #[trigger] r@[nc + k * w + s] == chunk_check(
                        numerators_at(p.wires@, ch.k_is@, p.x as int, ch.betas@[k] as int, ch.gammas@[k] as int, m as nat),
                        denominators_at(p.wires@, p.s_sigmas@, ch.betas@[k] as int, ch.gammas@[k] as int, m as nat),
                        c as nat,
                        acc_at(p.local_zs@, p.next_zs@, p.partial_products@, w - 1, k, s),
                        acc_at(p.local_zs@, p.next_zs@, p.partial_products@, w - 1, k, s + 1),
                        s,
                    ) by {
                    assert(k * w + s < i * w) by (nonlinear_arith)
                        requires
                            0 <= k < i,
                            0 <= s < w,
                    ;
                    assert(r@[nc + k * w + s] == prev_r[nc + k * w + s]);
                }
            }
            t = t + 1;
        }
        proof {
            assert((i + 1) * w == i * w + w) by (nonlinear_arith);
        }
        i = i + 1;
    }
    r
}

/// All constraint terms at a point, in the order they are combined by powers
/// of `alpha`: the permutation terms, then the terms from gate constraints.
pub fn vanishing_terms_at(
    p: &PointOpenings,
    ch: &PermutationChallenges,
    gate_terms: &Vec<u64>,
) -> (r: Vec<u64>)
    requires
        constraint_inputs_wf(p, ch),
        ch.betas@.len() * (num_chunks(ch.num_routed_wires as nat, ch.quotient_degree_factor as nat)
            + 1) <= usize::MAX,
        all_canonical(gate_terms@),
    ensures
        ({
            let k = ch.betas@.len() * (num_chunks(
                ch.num_routed_wires as nat,
                ch.quotient_degree_factor as nat,
            ) + 1);
            &&& r@.len() == k + gate_terms@.len()
            &&& are_permutation_terms(p, ch, r@.subrange(0, k as int))
            &&& r@.subrange(k as int, r@.len() as int) == gate_terms@
            &&& ints(r@) == permutation_terms(p, ch) + ints(gate_terms@)
            &&& all_canonical(r@)
        }),
{
    let mut r = permutation_terms_at(p, ch);
    let ghost perm = r@;
    let ghost k = r@.len();
    proof {
        let w = num_chunks(ch.num_routed_wires as nat, ch.quotient_degree_factor as nat) as int;
        let nc = ch.betas@.len() as int;
        assert(nc * (w + 1) == nc + nc * w) by (nonlinear_arith);
    }
    let mut j: usize = 0;
    while j < gate_terms.len()
        invariant
            j <= gate_terms@.len(),
            all_canonical(gate_terms@),
            all_canonical(perm),
            r@ == perm + gate_terms@.subrange(0, j as int),
        decreases gate_terms@.len() - j,
    {
        r.push(gate_terms[j]);
        j = j + 1;
        proof {
            assert(r@ =~= perm + gate_terms@.subrange(0, j as int));
        }
    }
    proof {
        assert(r@.subrange(0, k as int) =~= perm);
        assert(r@.subrange(k as int, r@.len() as int) =~= gate_terms@);
        assert(gate_terms@.subrange(0, j as int) =~= gate_terms@);
        lemma_permutation_terms(p, ch, perm);
        assert(ints(r@) =~= ints(perm) + ints(gate_terms@));
        assert forall|i: int| 0 <= i < r@.len() implies #[trigger] r@[i] < P by {
            if i < k {
                assert(r@[i] == perm[i]);
            } else {
                assert(r@[i] == gate_terms@[i - k]);
            }
        }
    }
    r
}

} // verus!
