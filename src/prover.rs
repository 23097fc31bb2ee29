//! The proving session: the five rounds in their fixed order, the challenges
//! drawn between them, and the checks that end a run.
use crate::error::ProveError;
use crate::extension::{check_opening_point, ext_exp_power_of_2_spec, ext_pair, QuadraticExtension};
use crate::field::all_canonical;
use crate::permutation::{
    all_wires_permutation_partial_products, polys_per_instance, range_prod, row_chunks,
    telescopes, z_at, zs_then_partial_products, MatrixWitness, PermutationData,
    perm_inputs_wf,
};
use crate::quotient::check_degree_factor;
use vstd::prelude::*;

verus! {

/// Where a proving session stands.
#[derive(Clone, Copy, Debug, PartialEq, Eq, Structural)]
pub enum Round {
    /// The wires are to be committed; `betas` and `gammas` follow.
    Witness,
    /// The `Z` and partial-product polynomials are to be committed; `alphas` follow.
    Permutation,
    /// The quotient chunks are to be committed; `zeta` follows.
    Quotient,
    /// The openings are to be built and proved.
    Opening,
    /// The proof is complete.
    Complete,
    /// The run ended in an error; it cannot be resumed.
    Failed,
}

/// The state of one proving run. Created afresh for each run; nothing is kept
/// between runs.
pub struct ProvingSession {
    pub round: Round,
    pub num_challenges: usize,
    pub betas: Vec<u64>,
    pub gammas: Vec<u64>,
    pub alphas: Vec<u64>,
    pub zeta: QuadraticExtension,
}

impl ProvingSession {
    /// Starts a run, after the eager configuration check: the partial-product
    /// chunking needs `quotient_degree_factor < num_routed_wires`.
    pub fn new(num_challenges: usize, quotient_degree_factor: usize, num_routed_wires: usize) -> (r:
        Result<ProvingSession, ProveError>)
        ensures
            r is Err <==> quotient_degree_factor >= num_routed_wires,
            r is Err ==> r == Err::<ProvingSession, ProveError>(
                ProveError::DegreeFactorNotBelowRoutedWires,
            ),
            r matches Ok(s) ==> {
                &&& s.round == Round::Witness
                &&& s.num_challenges == num_challenges
                &&& s.betas@.len() == 0
                &&& s.gammas@.len() == 0
                &&& s.alphas@.len() == 0
            },
    {
        match check_degree_factor(quotient_degree_factor, num_routed_wires) {
            Err(e) => Err(e),
            Ok(()) => Ok(
                ProvingSession {
                    round: Round::Witness,
                    num_challenges,
                    betas: Vec::new(),
                    gammas: Vec::new(),
                    alphas: Vec::new(),
                    zeta: QuadraticExtension { c0: 0, c1: 0 },
                },
            ),
        }
    }

    /// The wire commitment has been observed and `betas`, `gammas` drawn.
    pub fn wires_committed(&mut self, betas: Vec<u64>, gammas: Vec<u64>) -> (r: Result<
        (),
        ProveError,
    >)
        requires
            all_canonical(betas@),
            all_canonical(gammas@),
        ensures
            old(self).round != Round::Witness ==> r == Err::<(), ProveError>(
                ProveError::RoundOutOfOrder,
            ) && *final(self) == *old(self),
            old(self).round == Round::Witness && (betas@.len() != old(self).num_challenges
                || gammas@.len() != old(self).num_challenges) ==> r == Err::<(), ProveError>(
                ProveError::InvalidParameters,
            ) && *final(self) == *old(self),
            r is Ok <==> old(self).round == Round::Witness && betas@.len()
                == old(self).num_challenges && gammas@.len() == old(self).num_challenges,
            r is Ok ==> final(self).round == Round::Permutation && final(self).betas@ == betas@
                && final(self).gammas@ == gammas@ && final(self).alphas@ == old(self).alphas@
                && final(self).num_challenges == old(self).num_challenges,
    {
        if self.round != Round::Witness {
            return Err(ProveError::RoundOutOfOrder);
        }
        if betas.len() != self.num_challenges || gammas.len() != self.num_challenges {
            return Err(ProveError::InvalidParameters);
        }
        self.betas = betas;
        self.gammas = gammas;
        self.round = Round::Permutation;
        Ok(())
    }

    /// The `Z` and partial-product commitment has been observed and `alphas` drawn.
    pub fn permutation_committed(&mut self, alphas: Vec<u64>) -> (r: Result<(), ProveError>)
        requires
            all_canonical(alphas@),
        ensures
            old(self).round != Round::Permutation ==> r == Err::<(), ProveError>(
                ProveError::RoundOutOfOrder,
            ) && *final(self) == *old(self),
            old(self).round == Round::Permutation && alphas@.len() != old(self).num_challenges
                ==> r == Err::<(), ProveError>(ProveError::InvalidParameters) && *final(self)
                == *old(self),
            r is Ok <==> old(self).round == Round::Permutation && alphas@.len()
                == old(self).num_challenges,
            r is Ok ==> final(self).round == Round::Quotient && final(self).alphas@ == alphas@
                && final(self).betas@ == old(self).betas@ && final(self).gammas@
                == old(self).gammas@ && final(self).num_challenges == old(self).num_challenges,
    {
        if self.round != Round::Permutation {
            return Err(ProveError::RoundOutOfOrder);
        }
        if alphas.len() != self.num_challenges {
            return Err(ProveError::InvalidParameters);
        }
        self.alphas = alphas;
        self.round = Round::Quotient;
        Ok(())
    }

    /// The quotient commitment has been observed and `zeta` drawn. The run
    /// fails if `zeta` lies in the subgroup of order `2^degree_bits`.
    pub fn quotient_committed(&mut self, zeta: QuadraticExtension, degree_bits: usize) -> (r:
        Result<(), ProveError>)
        requires
            zeta.wf(),
        ensures
            old(self).round != Round::Quotient ==> r == Err::<(), ProveError>(
                ProveError::RoundOutOfOrder,
            ) && *final(self) == *old(self),
            old(self).round == Round::Quotient && ext_exp_power_of_2_spec(
                ext_pair(zeta),
                degree_bits as nat,
            ) == (1int, 0int) ==> r == Err::<(), ProveError>(ProveError::OpeningPointInSubgroup)
                && final(self).round == Round::Failed,
            r is Ok <==> old(self).round == Round::Quotient && ext_exp_power_of_2_spec(
                ext_pair(zeta),
                degree_bits as nat,
            ) != (1int, 0int),
            r is Ok ==> final(self).round == Round::Opening && final(self).zeta == zeta
                && final(self).alphas@ == old(self).alphas@ && final(self).betas@
                == old(self).betas@ && final(self).gammas@ == old(self).gammas@,
    {
        if self.round != Round::Quotient {
            return Err(ProveError::RoundOutOfOrder);
        }
        match check_opening_point(zeta, degree_bits) {
            Err(e) => {
                self.round = Round::Failed;
                Err(e)
            },
            Ok(()) => {
                self.zeta = zeta;
                self.round = Round::Opening;
                Ok(())
            },
        }
    }

    /// The openings have been observed and the opening proof made: the proof is complete.
    pub fn openings_proved(&mut self) -> (r: Result<(), ProveError>)
        ensures
            r is Ok <==> old(self).round == Round::Opening,
            r is Err ==> r == Err::<(), ProveError>(ProveError::RoundOutOfOrder) && *final(self)
                == *old(self),
            r is Ok ==> final(self).round == Round::Complete && final(self).zeta == old(self).zeta
                && final(self).alphas@ == old(self).alphas@ && final(self).betas@
                == old(self).betas@ && final(self).gammas@ == old(self).gammas@,
    {
        if self.round != Round::Opening {
            return Err(ProveError::RoundOutOfOrder);
        }
        self.round = Round::Complete;
        Ok(())
    }

    /// The permutation round: builds the partial-product and `Z` polynomials of
    /// every instance with the drawn `betas` and `gammas`, laid out for one
    /// commitment with the `Z` of every instance first. Fails when a grand
    /// product does not telescope.
    pub fn permutation_round(&self, witness: &MatrixWitness, data: &PermutationData) -> (r: Result<
        Vec<Vec<u64>>,
        ProveError,
    >)
        requires
            self.round == Round::Permutation,
            self.betas@.len() == self.num_challenges,
            self.gammas@.len() == self.num_challenges,
            all_canonical(self.betas@),
            all_canonical(self.gammas@),
            perm_inputs_wf(data, witness),
            self.num_challenges * polys_per_instance(data) <= usize::MAX,
        ensures
            r is Ok <==> forall|c: int|
                0 <= c < self.num_challenges ==> telescopes(
                    data,
                    witness,
                    #[trigger] self.betas@[c] as int,
                    self.gammas@[c] as int,
                ),
            r is Err ==> r == Err::<Vec<Vec<u64>>, ProveError>(ProveError::GrandProductMismatch),
            r matches Ok(polys) ==> {
                let nc = self.num_challenges as int;
                let w = polys_per_instance(data) as int;
                let n = data.subgroup@.len() as int;
                &&& polys@.len() == nc * w
                &&& forall|c: int, i: int|
                    0 <= c < nc && 0 <= i < n ==> #[trigger] polys@[c]@[i] == z_at(
                        data,
                        witness,
                        self.betas@[c] as int,
                        self.gammas@[c] as int,
                        i as nat,
                    )
                &&& forall|c: int, t: int, i: int|
                    0 <= c < nc && 0 <= t < w - 1 && 0 <= i < n ==> #[trigger] polys@[nc + c * (w
                        - 1) + t]@[i] == range_prod(
                        z_at(data, witness, self.betas@[c] as int, self.gammas@[c] as int, i as nat),
                        row_chunks(data, witness, self.betas@[c] as int, self.gammas@[c] as int, i),
                        0,
                        t + 1,
                    )
            },
    {
        let all = match all_wires_permutation_partial_products(
            witness,
            &self.betas,
            &self.gammas,
            data,
            self.num_challenges,
        ) {
            Ok(all) => all,
            Err(e) => {
                return Err(e);
            },
        };
        let per_instance = data.num_routed_wires / data.quotient_degree_factor;
        let per_instance = if data.num_routed_wires % data.quotient_degree_factor == 0 {
            per_instance
        } else {
            proof {
                let m = data.num_routed_wires as int;
                let c = data.quotient_degree_factor as int;
                vstd::arithmetic::div_mod::lemma_fundamental_div_mod(m, c);
                assert(per_instance <= c * per_instance) by (nonlinear_arith)
                    requires
                        c >= 1,
                        per_instance >= 0,
                ;
            }
            per_instance + 1
        };
        proof {
            let m = data.num_routed_wires as int;
            let c = data.quotient_degree_factor as int;
            assert(per_instance == polys_per_instance(data)) by {
                vstd::arithmetic::div_mod::lemma_fundamental_div_mod(m, c);
                vstd::arithmetic::div_mod::lemma_fundamental_div_mod(m + c - 1, c);
                let q = m / c;
                let rr = m % c;
                if rr == 0 {
                    assert(c * q == q * c) by (nonlinear_arith);
                    vstd::arithmetic::div_mod::lemma_fundamental_div_mod_converse(
                        m + c - 1,
                        c,
                        q,
                        c - 1,
                    );
                } else {
                    assert(c * q + c == (q + 1) * c) by (nonlinear_arith);
                    vstd::arithmetic::div_mod::lemma_fundamental_div_mod_converse(
                        m + c - 1,
                        c,
                        q + 1,
                        rr - 1,
                    );
                }
            }
            crate::permutation::lemma_num_chunks_positive(m as nat, c as nat);
            assert forall|k: int| 0 <= k < all@.len() implies #[trigger] all@[k]@.len()
                == per_instance by {
                assert(crate::permutation::is_perm_polys(
                    data,
                    witness,
                    self.betas@[k] as int,
                    self.gammas@[k] as int,
                    all@[k]@,
                ));
            }
        }
        let polys = zs_then_partial_products(&all, per_instance);
        proof {
            let nc = self.num_challenges as int;
            let w = per_instance as int;
            assert forall|c: int, i: int|
                0 <= c < nc && 0 <= i < data.subgroup@.len() implies #[trigger] polys@[c]@[i]
                == z_at(data, witness, self.betas@[c] as int, self.gammas@[c] as int, i as nat) by {
                assert(crate::permutation::is_perm_polys(
                    data,
                    witness,
                    self.betas@[c] as int,
                    self.gammas@[c] as int,
                    all@[c]@,
                ));
            }
            assert forall|c: int, t: int, i: int|
                0 <= c < nc && 0 <= t < w - 1 && 0 <= i < data.subgroup@.len() implies #[trigger] polys@[nc + c * (w - 1) + t]@[i]
                == range_prod(
                z_at(data, witness, self.betas@[c] as int, self.gammas@[c] as int, i as nat),
                row_chunks(data, witness, self.betas@[c] as int, self.gammas@[c] as int, i),
                0,
                t + 1,
            ) by {
                assert(crate::permutation::is_perm_polys(
                    data,
                    witness,
                    self.betas@[c] as int,
                    self.gammas@[c] as int,
                    all@[c]@,
                ));
                assert(polys@[nc + c * (w - 1) + t]@ == all@[c]@[t]@);
            }
        }
        Ok(polys)
    }
}

} // verus!
