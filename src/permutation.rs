//! The permutation (copy-constraint) argument: per-slot ratios, their chunk
//! products, and the grand-product polynomial `Z` with its partial products.
use crate::error::ProveError;
use crate::field::{
    all_canonical, batch_multiplicative_inverse, fadd, field_add, field_mul, finv, fmul, ints, P,
};
use vstd::prelude::*;

verus! {

/// Product of `s[lo..hi]`, folded from the left onto `init`.
pub open spec fn range_prod(init: int, s: Seq<int>, lo: int, hi: int) -> int
    decreases hi - lo,
{
    if hi <= lo {
        init
    } else {
        fmul(range_prod(init, s, lo, hi - 1), s[hi - 1])
    }
}

/// Number of chunks of size `c` that cover `len` values (the last may be short).
pub open spec fn num_chunks(len: nat, c: nat) -> nat {
    if c == 0 {
        0
    } else {
        ((len + c - 1) / (c as int)) as nat
    }
}

pub open spec fn chunk_end(len: nat, c: nat, t: int) -> int {
    if t * c + c <= len {
        t * c + c
    } else {
        len as int
    }
}

/// The product of each consecutive chunk of `c` values.
pub open spec fn chunk_products(s: Seq<int>, c: nat) -> Seq<int> {
    Seq::new(num_chunks(s.len(), c), |t: int| range_prod(1, s, t * c, chunk_end(s.len(), c, t)))
}

/// `z` times each prefix product of `s`: entry `t` is `z * s[0] * ... * s[t]`.
pub open spec fn running_products(z: int, s: Seq<int>) -> Seq<int> {
    Seq::new(s.len(), |t: int| range_prod(z, s, 0, t + 1))
}

/// `z` times the product of all of `s`.
pub open spec fn times_all(z: int, s: Seq<int>) -> int {
    range_prod(z, s, 0, s.len() as int)
}

proof fn lemma_range_prod_canonical(init: int, s: Seq<int>, lo: int, hi: int)
    requires
        0 <= init < P,
    ensures
        0 <= range_prod(init, s, lo, hi) < P,
    decreases hi - lo,
{
    if hi > lo {
        lemma_range_prod_canonical(init, s, lo, hi - 1);
    }
}

/// The products of the consecutive chunks of `max_degree` values.
pub fn quotient_chunk_products(quotient_values: &Vec<u64>, max_degree: usize) -> (r: Vec<u64>)
    requires
        max_degree >= 1,
        all_canonical(quotient_values@),
    ensures
        ints(r@) == chunk_products(ints(quotient_values@), max_degree as nat),
        all_canonical(r@),
{
    let ghost s = ints(quotient_values@);
    let len = quotient_values.len();
    let mut r: Vec<u64> = Vec::new();
    let mut start: usize = 0;
    let mut t: usize = 0;
    proof {
        if len > 0 {
            assert((len + max_degree - 1) / (max_degree as int) >= 1) by (nonlinear_arith)
                requires
                    len > 0,
                    max_degree >= 1,
            ;
        } else {
            assert((max_degree - 1) / (max_degree as int) == 0) by (nonlinear_arith)
                requires
                    max_degree >= 1,
            ;
        }
    }
    while start < len
        invariant
            len == quotient_values@.len(),
            s == ints(quotient_values@),
            all_canonical(quotient_values@),
            max_degree >= 1,
            start <= len,
            t <= start,
            start < len ==> start == t * max_degree,
            start < len ==> t < num_chunks(len as nat, max_degree as nat),
            start >= len ==> t == num_chunks(len as nat, max_degree as nat),
            r@.len() == t,
            all_canonical(r@),
            forall|k: int|
                0 <= k < t ==> #[trigger] r@[k] == range_prod(
                    1,
                    s,
                    k * max_degree,
                    chunk_end(len as nat, max_degree as nat, k),
                ),
        decreases len - start,
    {
        let end: usize = if len - start >= max_degree {
            start + max_degree
        } else {
            len
        };
        let mut acc: u64 = 1;
        let mut j: usize = start;
        while j < end
            invariant
                start <= j <= end <= len,
                len == quotient_values@.len(),
                s == ints(quotient_values@),
                all_canonical(quotient_values@),
                acc < P,
                acc == range_prod(1, s, start as int, j as int),
            decreases end - j,
        {
            acc = field_mul(acc, quotient_values[j]);
            j = j + 1;
        }
        r.push(acc);
        proof {
            assert(end == chunk_end(len as nat, max_degree as nat, t as int));
            assert(t * max_degree + max_degree == (t + 1) * max_degree) by (nonlinear_arith);
            assert(num_chunks(len as nat, max_degree as nat) == (len + max_degree - 1) / (
            max_degree as int));
            if end < len {
                assert((t + 1) * max_degree < len);
                assert(t + 1 < num_chunks(len as nat, max_degree as nat)) by (nonlinear_arith)
                    requires
                        (t + 1) * max_degree < len,
                        max_degree >= 1,
                        num_chunks(len as nat, max_degree as nat) == (len + max_degree - 1) / (
                        max_degree as int),
                ;
            } else {
                assert(t + 1 == num_chunks(len as nat, max_degree as nat)) by (nonlinear_arith)
                    requires
                        t * max_degree < len,
                        (t + 1) * max_degree >= len,
                        max_degree >= 1,
                        num_chunks(len as nat, max_degree as nat) == (len + max_degree - 1) / (
                        max_degree as int),
                ;
            }
        }
        start = end;
        t = t + 1;
    }
    proof {
        assert(ints(r@) =~= chunk_products(s, max_degree as nat));
    }
    r
}

/// Entry `t` is `z_x` times the first `t + 1` chunk products; the last entry is
/// therefore `Z(g x)` when `z_x` is `Z(x)`.
pub fn partial_products_and_z_gx(z_x: u64, quotient_chunk_products: &Vec<u64>) -> (r: Vec<u64>)
    requires
        z_x < P,
        all_canonical(quotient_chunk_products@),
    ensures
        ints(r@) == running_products(z_x as int, ints(quotient_chunk_products@)),
        all_canonical(r@),
{
    let ghost s = ints(quotient_chunk_products@);
    let mut res: Vec<u64> = Vec::with_capacity(quotient_chunk_products.len());
    let mut acc = z_x;
    let mut i: usize = 0;
    while i < quotient_chunk_products.len()
        invariant
            i <= quotient_chunk_products@.len(),
            s == ints(quotient_chunk_products@),
            all_canonical(quotient_chunk_products@),
            acc < P,
            acc == range_prod(z_x as int, s, 0, i as int),
            res@.len() == i,
            all_canonical(res@),
            forall|k: int| 0 <= k < i ==> #[trigger] res@[k] == range_prod(z_x as int, s, 0, k + 1),
        decreases quotient_chunk_products@.len() - i,
    {
        acc = field_mul(acc, quotient_chunk_products[i]);
        res.push(acc);
        i = i + 1;
    }
    proof {
        assert(ints(res@) =~= running_products(z_x as int, s));
    }
    res
}

/// Transposes a matrix whose rows all have the length of the first one.
pub fn transpose(matrix: &Vec<Vec<u64>>) -> (r: Vec<Vec<u64>>)
    requires
        matrix@.len() > 0,
        forall|i: int| 0 <= i < matrix@.len() ==> #[trigger] matrix@[i]@.len() == matrix@[0]@.len(),
    ensures
        r@.len() == matrix@[0]@.len(),
        forall|j: int| 0 <= j < r@.len() ==> #[trigger] r@[j]@.len() == matrix@.len(),
        forall|i: int, j: int|
            0 <= i < matrix@.len() && 0 <= j < r@.len() ==> r@[j]@[i] == matrix@[i]@[j],
{
    let width = matrix[0].len();
    let mut r: Vec<Vec<u64>> = Vec::with_capacity(width);
    let mut j: usize = 0;
    while j < width
        invariant
            width == matrix@[0]@.len(),
            matrix@.len() > 0,
            forall|i: int|
                0 <= i < matrix@.len() ==> #[trigger] matrix@[i]@.len() == matrix@[0]@.len(),
            j <= width,
            r@.len() == j,
            forall|c: int| 0 <= c < j ==> #[trigger] r@[c]@.len() == matrix@.len(),
            forall|i: int, c: int|
                0 <= i < matrix@.len() && 0 <= c < j ==> r@[c]@[i] == matrix@[i]@[c],
        decreases width - j,
    {
        let mut col: Vec<u64> = Vec::with_capacity(matrix.len());
        let mut i: usize = 0;
        while i < matrix.len()
            invariant
                width == matrix@[0]@.len(),
                j < width,
                forall|k: int|
                    0 <= k < matrix@.len() ==> #[trigger] matrix@[k]@.len() == matrix@[0]@.len(),
                i <= matrix@.len(),
                col@.len() == i,
                forall|k: int| 0 <= k < i ==> col@[k] == matrix@[k]@[j as int],
            decreases matrix@.len() - i,
        {
            col.push(matrix[i][j]);
            i = i + 1;
        }
        r.push(col);
        j = j + 1;
    }
    r
}

} // verus!

verus! {

/// The circuit's fixed copy-constraint data.
pub struct PermutationData {
    /// The points of the canonical subgroup, in row order.
    pub subgroup: Vec<u64>,
    /// `sigmas[i][j]`: the permutation target of wire slot `j` at row `i`.
    pub sigmas: Vec<Vec<u64>>,
    /// The coset representative `k_j` of each wire slot.
    pub k_is: Vec<u64>,
    pub num_routed_wires: usize,
    /// The chunk size of the partial products.
    pub quotient_degree_factor: usize,
}

/// A fully assigned witness, stored by column: `wire_values[column][row]`.
pub struct MatrixWitness {
    pub wire_values: Vec<Vec<u64>>,
}

impl MatrixWitness {
    pub open spec fn wire(&self, row: int, column: int) -> int {
        self.wire_values@[column]@[row] as int
    }

    pub fn get_wire(&self, row: usize, column: usize) -> (r: u64)
        requires
            column < self.wire_values@.len(),
            row < self.wire_values@[column as int]@.len(),
        ensures
            r == self.wire(row as int, column as int),
    {
        self.wire_values[column][row]
    }
}

/// The inputs of the permutation argument are consistent and in canonical form.
pub open spec fn perm_inputs_wf(data: &PermutationData, witness: &MatrixWitness) -> bool {
    let n = data.subgroup@.len();
    let m = data.num_routed_wires;
    &&& n > 0
    &&& m >= 1
    &&& data.quotient_degree_factor >= 1
    &&& all_canonical(data.subgroup@)
    &&& data.sigmas@.len() == n
    &&& forall|i: int|
        0 <= i < n ==> #[trigger] data.sigmas@[i]@.len() >= m && all_canonical(data.sigmas@[i]@)
    &&& data.k_is@.len() >= m
    &&& all_canonical(data.k_is@)
    &&& witness.wire_values@.len() >= m
    &&& forall|j: int|
        0 <= j < m ==> #[trigger] witness.wire_values@[j]@.len() == n && all_canonical(
            witness.wire_values@[j]@,
        )
}

/// Numerator term of slot `j` at row `i`: `wire + beta * k_j * x + gamma`.
pub open spec fn numerator_term(
    data: &PermutationData,
    witness: &MatrixWitness,
    beta: int,
    gamma: int,
    i: int,
    j: int,
) -> int {
    fadd(
        fadd(
            witness.wire(i, j),
            fmul(beta, fmul(data.k_is@[j] as int, data.subgroup@[i] as int)),
        ),
        gamma,
    )
}

/// Denominator term of slot `j` at row `i`: `wire + beta * sigma(i, j) + gamma`.
pub open spec fn denominator_term(
    data: &PermutationData,
    witness: &MatrixWitness,
    beta: int,
    gamma: int,
    i: int,
    j: int,
) -> int {
    fadd(fadd(witness.wire(i, j), fmul(beta, data.sigmas@[i]@[j] as int)), gamma)
}

/// The per-slot ratios of row `i`.
pub open spec fn row_ratios(
    data: &PermutationData,
    witness: &MatrixWitness,
    beta: int,
    gamma: int,
    i: int,
) -> Seq<int> {
    Seq::new(
        data.num_routed_wires as nat,
        |j: int|
            fmul(
                numerator_term(data, witness, beta, gamma, i, j),
                finv(denominator_term(data, witness, beta, gamma, i, j)),
            ),
    )
}

/// The chunk products of row `i`.
pub open spec fn row_chunks(
    data: &PermutationData,
    witness: &MatrixWitness,
    beta: int,
    gamma: int,
    i: int,
) -> Seq<int> {
    chunk_products(row_ratios(data, witness, beta, gamma, i), data.quotient_degree_factor as nat)
}

/// The grand product at row `i`: one at the first row, then each row's value is
/// the previous one times all chunk products of the previous row.
pub open spec fn z_at(
    data: &PermutationData,
    witness: &MatrixWitness,
    beta: int,
    gamma: int,
    i: nat,
) -> int
    decreases i,
{
    if i == 0 {
        1
    } else {
        times_all(
            z_at(data, witness, beta, gamma, (i - 1) as nat),
            row_chunks(data, witness, beta, gamma, i - 1),
        )
    }
}

/// The number of polynomials per challenge instance: the partial products and `Z`.
pub open spec fn polys_per_instance(data: &PermutationData) -> nat {
    num_chunks(data.num_routed_wires as nat, data.quotient_degree_factor as nat)
}

/// `polys` are the partial-product polynomials followed by `Z`, as value vectors
/// over the subgroup, for the pair `beta`, `gamma`.
pub open spec fn is_perm_polys(
    data: &PermutationData,
    witness: &MatrixWitness,
    beta: int,
    gamma: int,
    polys: Seq<Vec<u64>>,
) -> bool {
    let n = data.subgroup@.len();
    let last = polys_per_instance(data) - 1;
    &&& polys.len() == polys_per_instance(data)
    &&& forall|t: int| 0 <= t < polys.len() ==> #[trigger] polys[t]@.len() == n
    &&& forall|i: int|
        0 <= i < n ==> #[trigger] polys[last]@[i] == z_at(data, witness, beta, gamma, i as nat)
    &&& forall|t: int, i: int|
        0 <= t < last && 0 <= i < n ==> #[trigger] polys[t]@[i] == range_prod(
            z_at(data, witness, beta, gamma, i as nat),
            row_chunks(data, witness, beta, gamma, i),
            0,
            t + 1,
        )
}

/// The grand product telescopes: `Z` times the chunk products of the last row is one.
pub open spec fn telescopes(
    data: &PermutationData,
    witness: &MatrixWitness,
    beta: int,
    gamma: int,
) -> bool {
    z_at(data, witness, beta, gamma, data.subgroup@.len()) == 1
}

proof fn lemma_z_at_canonical(
    data: &PermutationData,
    witness: &MatrixWitness,
    beta: int,
    gamma: int,
    i: nat,
)
    ensures
        0 <= z_at(data, witness, beta, gamma, i) < P,
    decreases i,
{
    if i > 0 {
        lemma_z_at_canonical(data, witness, beta, gamma, (i - 1) as nat);
        let r = row_chunks(data, witness, beta, gamma, i - 1);
        lemma_range_prod_canonical(
            z_at(data, witness, beta, gamma, (i - 1) as nat),
            r,
            0,
            r.len() as int,
        );
    }
}

pub proof fn lemma_num_chunks_positive(len: nat, c: nat)
    requires
        len >= 1,
        c >= 1,
    ensures
        num_chunks(len, c) >= 1,
{
    assert((len + c - 1) / (c as int) >= 1) by (nonlinear_arith)
        requires
            len >= 1,
            c >= 1,
    ;
}

/// The per-slot ratios of row `i`, with all denominators inverted in one batch.
fn row_quotient_values(
    witness: &MatrixWitness,
    beta: u64,
    gamma: u64,
    data: &PermutationData,
    i: usize,
) -> (r: Vec<u64>)
    requires
        perm_inputs_wf(data, witness),
        beta < P,
        gamma < P,
        i < data.subgroup@.len(),
    ensures
        ints(r@) == row_ratios(data, witness, beta as int, gamma as int, i as int),
        all_canonical(r@),
{
    let m = data.num_routed_wires;
    let x = data.subgroup[i];
    let mut denominators: Vec<u64> = Vec::with_capacity(m);
    let mut j: usize = 0;
    while j < m
        invariant
            perm_inputs_wf(data, witness),
            m == data.num_routed_wires,
            i < data.subgroup@.len(),
            beta < P,
            gamma < P,
            j <= m,
            denominators@.len() == j,
            all_canonical(denominators@),
            forall|k: int|
                0 <= k < j ==> #[trigger] denominators@[k] == denominator_term(
                    data,
                    witness,
                    beta as int,
                    gamma as int,
                    i as int,
                    k,
                ),
        decreases m - j,
    {
        proof {
            assert(witness.wire_values@[j as int]@.len() == data.subgroup@.len());
            assert(data.sigmas@[i as int]@.len() >= m);
        }
        let w = witness.get_wire(i, j);
        let d = field_add(field_add(w, field_mul(beta, data.sigmas[i][j])), gamma);
        denominators.push(d);
        j = j + 1;
    }
    let denominator_invs = batch_multiplicative_inverse(&denominators);
    let mut r: Vec<u64> = Vec::with_capacity(m);
    let mut j: usize = 0;
    while j < m
        invariant
            perm_inputs_wf(data, witness),
            m == data.num_routed_wires,
            i < data.subgroup@.len(),
            x == data.subgroup@[i as int],
            beta < P,
            gamma < P,
            j <= m,
            denominator_invs@.len() == m,
            all_canonical(denominator_invs@),
            forall|k: int|
                0 <= k < m ==> #[trigger] denominator_invs@[k] == finv(
                    denominator_term(data, witness, beta as int, gamma as int, i as int, k),
                ),
            r@.len() == j,
            all_canonical(r@),
            forall|k: int|
                0 <= k < j ==> #[trigger] r@[k] == row_ratios(
                    data,
                    witness,
                    beta as int,
                    gamma as int,
                    i as int,
                )[k],
        decreases m - j,
    {
        proof {
            assert(witness.wire_values@[j as int]@.len() == data.subgroup@.len());
        }
        let w = witness.get_wire(i, j);
        let s_id = field_mul(data.k_is[j], x);
        let numerator = field_add(field_add(w, field_mul(beta, s_id)), gamma);
        r.push(field_mul(numerator, denominator_invs[j]));
        j = j + 1;
    }
    proof {
        assert(ints(r@) =~= row_ratios(data, witness, beta as int, gamma as int, i as int));
    }
    r
}

/// Builds the partial-product polynomials and the grand product `Z` (last) of
/// one challenge instance, as values over the subgroup. Fails when the grand
/// product does not telescope back to one, which a copy-constraint violation
/// causes.
pub fn wires_permutation_partial_products_and_zs(
    witness: &MatrixWitness,
    beta: u64,
    gamma: u64,
    data: &PermutationData,
) -> (r: Result<Vec<Vec<u64>>, ProveError>)
    requires
        perm_inputs_wf(data, witness),
        beta < P,
        gamma < P,
    ensures
        r is Ok <==> telescopes(data, witness, beta as int, gamma as int),
        r is Err ==> r == Err::<Vec<Vec<u64>>, ProveError>(ProveError::GrandProductMismatch),
        r matches Ok(polys) ==> {
            let n = data.subgroup@.len() as int;
            let z = polys@[polys_per_instance(data) - 1]@;
            &&& is_perm_polys(data, witness, beta as int, gamma as int, polys@)
            &&& z[0] == 1
            &&& forall|i: int|
                0 <= i < n - 1 ==> #[trigger] z[i + 1] == times_all(
                    z[i] as int,
                    row_chunks(data, witness, beta as int, gamma as int, i),
                )
            &&& times_all(
                z[n - 1] as int,
                row_chunks(data, witness, beta as int, gamma as int, n - 1),
            ) == 1
        },
{
    let n = data.subgroup.len();
    let ghost b = beta as int;
    let ghost g = gamma as int;
    let ghost width = polys_per_instance(data);
    proof {
        lemma_num_chunks_positive(data.num_routed_wires as nat, data.quotient_degree_factor as nat);
    }
    let mut z_x: u64 = 1;
    let mut rows: Vec<Vec<u64>> = Vec::with_capacity(n);
    let mut i: usize = 0;
    while i < n
        invariant
            perm_inputs_wf(data, witness),
            beta < P,
            gamma < P,
            b == beta as int,
            g == gamma as int,
            n == data.subgroup@.len(),
            width == polys_per_instance(data),
            width >= 1,
            i <= n,
            z_x < P,
            z_x == z_at(data, witness, b, g, i as nat),
            rows@.len() == i,
            forall|r: int| 0 <= r < i ==> #[trigger] rows@[r]@.len() == width,
            forall|r: int|
                0 <= r < i ==> #[trigger] rows@[r]@[width - 1] == z_at(
                    data,
                    witness,
                    b,
                    g,
                    r as nat,
                ),
            forall|r: int, t: int|
                0 <= r < i && 0 <= t < width - 1 ==> #[trigger] rows@[r]@[t] == range_prod(
                    z_at(data, witness, b, g, r as nat),
                    row_chunks(data, witness, b, g, r),
                    0,
                    t + 1,
                ),
        decreases n - i,
    {
        let quotient_values = row_quotient_values(witness, beta, gamma, data, i);
        let chunk_products = quotient_chunk_products(
            &quotient_values,
            data.quotient_degree_factor,
        );
        let mut row = partial_products_and_z_gx(z_x, &chunk_products);
        let ghost rc = row_chunks(data, witness, b, g, i as int);
        proof {
            assert(ints(chunk_products@) == rc);
            assert(rc.len() == width);
            assert(ints(row@).len() == row@.len());
        }
        let last = row.len() - 1;
        let z_gx = row[last];
        proof {
            assert(ints(row@)[last as int] == row@[last as int]);
            assert(z_gx == range_prod(z_x as int, rc, 0, rc.len() as int));
            assert(z_gx == z_at(data, witness, b, g, (i + 1) as nat));
            assert forall|t: int| 0 <= t < width - 1 implies #[trigger] row@[t] == range_prod(
                z_x as int,
                rc,
                0,
                t + 1,
            ) by {
                assert(ints(row@)[t] == row@[t]);
            }
        }
        // The row holds Z(x), not Z(g x): the running product moves on by one row.
        row.set(last, z_x);
        rows.push(row);
        z_x = z_gx;
        i = i + 1;
    }
    if z_x != 1 {
        return Err(ProveError::GrandProductMismatch);
    }
    let polys = transpose(&rows);
    proof {
        lemma_z_at_canonical(data, witness, b, g, 0);
        assert forall|i: int| 0 <= i < n - 1 implies #[trigger] polys@[width - 1]@[i + 1]
            == times_all(polys@[width - 1]@[i] as int, row_chunks(data, witness, b, g, i)) by {
            assert(polys@[width - 1]@[i + 1] == rows@[i + 1]@[width - 1]);
            assert(z_at(data, witness, b, g, (i + 1) as nat) == times_all(
                z_at(data, witness, b, g, i as nat),
                row_chunks(data, witness, b, g, i),
            ));
        }
        assert(polys@[width - 1]@[n - 1] == rows@[n - 1]@[width - 1]);
        assert(z_at(data, witness, b, g, n as nat) == times_all(
            z_at(data, witness, b, g, (n - 1) as nat),
            row_chunks(data, witness, b, g, n - 1),
        ));
        assert forall|t: int, i: int|
            0 <= t < width - 1 && 0 <= i < n implies #[trigger] polys@[t]@[i] == range_prod(
            z_at(data, witness, b, g, i as nat),
            row_chunks(data, witness, b, g, i),
            0,
            t + 1,
        ) by {
            assert(polys@[t]@[i] == rows@[i]@[t]);
        }
    }
    Ok(polys)
}

} // verus!

verus! {

/// Builds the partial-product and `Z` polynomials of every challenge instance.
/// Fails as soon as one instance's grand product does not telescope.
pub fn all_wires_permutation_partial_products(
    witness: &MatrixWitness,
    betas: &Vec<u64>,
    gammas: &Vec<u64>,
    data: &PermutationData,
    num_challenges: usize,
) -> (r: Result<Vec<Vec<Vec<u64>>>, ProveError>)
    requires
        perm_inputs_wf(data, witness),
        betas@.len() == num_challenges,
        gammas@.len() == num_challenges,
        all_canonical(betas@),
        all_canonical(gammas@),
    ensures
        r is Ok <==> forall|c: int|
            0 <= c < num_challenges ==> telescopes(
                data,
                witness,
                #[trigger] betas@[c] as int,
                gammas@[c] as int,
            ),
        r is Err ==> r == Err::<Vec<Vec<Vec<u64>>>, ProveError>(ProveError::GrandProductMismatch),
        r matches Ok(all) ==> {
            &&& all@.len() == num_challenges
            &&& forall|c: int|
                0 <= c < num_challenges ==> is_perm_polys(
                    data,
                    witness,
                    betas@[c] as int,
                    gammas@[c] as int,
                    #[trigger] all@[c]@,
                )
        },
{
    let mut all: Vec<Vec<Vec<u64>>> = Vec::with_capacity(num_challenges);
    let mut c: usize = 0;
    while c < num_challenges
        invariant
            perm_inputs_wf(data, witness),
            betas@.len() == num_challenges,
            gammas@.len() == num_challenges,
            all_canonical(betas@),
            all_canonical(gammas@),
            c <= num_challenges,
            all@.len() == c,
            forall|k: int|
                0 <= k < c ==> telescopes(data, witness, #[trigger] betas@[k] as int, gammas@[k] as int),
            forall|k: int|
                0 <= k < c ==> is_perm_polys(
                    data,
                    witness,
                    betas@[k] as int,
                    gammas@[k] as int,
                    #[trigger] all@[k]@,
                ),
        decreases num_challenges - c,
    {
        match wires_permutation_partial_products_and_zs(witness, betas[c], gammas[c], data) {
            Ok(polys) => {
                all.push(polys);
            },
            Err(e) => {
                return Err(e);
            },
        }
        c = c + 1;
    }
    Ok(all)
}

/// Lays the polynomials of all instances out for one commitment: first the `Z`
/// of every instance, then the partial products of each instance in turn.
/// Each instance holds `per_instance` polynomials with its `Z` last.
pub fn zs_then_partial_products(instances: &Vec<Vec<Vec<u64>>>, per_instance: usize) -> (r: Vec<
    Vec<u64>,
>)
    requires
        per_instance >= 1,
        forall|c: int|
            0 <= c < instances@.len() ==> #[trigger] instances@[c]@.len() == per_instance,
        instances@.len() * per_instance <= usize::MAX,
    ensures
        r@.len() == instances@.len() * per_instance,
        forall|c: int|
            0 <= c < instances@.len() ==> #[trigger] r@[c]@ == instances@[c]@[per_instance - 1]@,
        forall|c: int, t: int|
            0 <= c < instances@.len() && 0 <= t < per_instance - 1 ==> r@[instances@.len() + c * (
            per_instance - 1) + t]@ == #[trigger] instances@[c]@[t]@,
{
    let nc = instances.len();
    let mut r: Vec<Vec<u64>> = Vec::with_capacity(nc * per_instance);
    let mut c: usize = 0;
    while c < nc
        invariant
            nc == instances@.len(),
            per_instance >= 1,
            forall|k: int| 0 <= k < nc ==> #[trigger] instances@[k]@.len() == per_instance,
            c <= nc,
            r@.len() == c,
            forall|k: int| 0 <= k < c ==> #[trigger] r@[k]@ == instances@[k]@[per_instance - 1]@,
        decreases nc - c,
    {
        r.push(instances[c][per_instance - 1].clone());
        c = c + 1;
    }
    let mut c: usize = 0;
    while c < nc
        invariant
            nc == instances@.len(),
            per_instance >= 1,
            nc * per_instance <= usize::MAX,
            forall|k: int| 0 <= k < nc ==> #[trigger] instances@[k]@.len() == per_instance,
            c <= nc,
            r@.len() == nc + c * (per_instance - 1),
            forall|k: int| 0 <= k < nc ==> #[trigger] r@[k]@ == instances@[k]@[per_instance - 1]@,
            forall|k: int, t: int|
                0 <= k < c && 0 <= t < per_instance - 1 ==> r@[nc + k * (per_instance - 1) + t]@
                    == #[trigger] instances@[k]@[t]@,
        decreases nc - c,
    {
        let mut t: usize = 0;
        while t + 1 < per_instance
            invariant
                nc == instances@.len(),
                per_instance >= 1,
                nc * per_instance <= usize::MAX,
                forall|k: int| 0 <= k < nc ==> #[trigger] instances@[k]@.len() == per_instance,
                c < nc,
                t < per_instance,
                r@.len() == nc + c * (per_instance - 1) + t,
                forall|k: int|
                    0 <= k < nc ==> #[trigger] r@[k]@ == instances@[k]@[per_instance - 1]@,
                forall|k: int, s: int|
                    0 <= k < c && 0 <= s < per_instance - 1 ==> r@[nc + k * (per_instance - 1)
                        + s]@ == #[trigger] instances@[k]@[s]@,
                forall|s: int|
                    0 <= s < t ==> r@[nc + c * (per_instance - 1) + s]@ == #[trigger] instances@[
                    c as int]@[s]@,
            decreases per_instance - t,
        {
            proof {
                assert(nc + c * (per_instance - 1) + t < nc * per_instance) by (nonlinear_arith)
                    requires
                        c < nc,
                        t + 1 < per_instance,
                ;
            }
            let ghost prev = r@;
            r.push(instances[c][t].clone());
            proof {
                assert forall|k: int, s: int|
                    0 <= k < c && 0 <= s < per_instance - 1 implies r@[nc + k * (per_instance
                    - 1) + s]@ == #[trigger] instances@[k]@[s]@ by {
                    assert(k * (per_instance - 1) + s < c * (per_instance - 1)) by (nonlinear_arith)
                        requires
                            0 <= k < c,
                            0 <= s < per_instance - 1,
                    ;
                    assert(r@[nc + k * (per_instance - 1) + s] == prev[nc + k * (per_instance - 1)
                        + s]);
                }
            }
            t = t + 1;
        }
        proof {
            assert((c + 1) * (per_instance - 1) == c * (per_instance - 1) + per_instance - 1)
                by (nonlinear_arith);
        }
        c = c + 1;
    }
    proof {
        assert(nc + nc * (per_instance - 1) == nc * per_instance) by (nonlinear_arith);
    }
    r
}

} // verus!
