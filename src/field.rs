//! Arithmetic in the Goldilocks prime field `p = 2^64 - 2^32 + 1`.
//!
//! Elements are `u64` values in canonical form (`< P`); every operation is
//! specified by the corresponding operation on integers modulo `P`.
use vstd::arithmetic::div_mod::lemma_mul_mod_noop;
use vstd::arithmetic::power::{lemma_pow0, lemma_pow1, lemma_pow_adds, pow};
use vstd::arithmetic::power2::{lemma_pow2_unfold, pow2};
use vstd::prelude::*;

verus! {

/// The field modulus.
pub const P: u64 = 0xFFFF_FFFF_0000_0001;

/// The order of the largest two-power subgroup of the multiplicative group.
pub const TWO_ADICITY: usize = 32;

/// A generator of the subgroup of order `2^TWO_ADICITY`.
pub const POWER_OF_TWO_GENERATOR: u64 = 1753635133440165772;

/// A generator of the whole multiplicative group, used as the coset shift.
pub const MULTIPLICATIVE_GROUP_GENERATOR: u64 = 7;

/// A `u64` holds a field element in canonical form.
pub open spec fn canonical(a: u64) -> bool {
    a < P
}

pub open spec fn modp(a: int) -> int {
    a % (P as int)
}

pub open spec fn fadd(a: int, b: int) -> int {
    modp(a + b)
}

pub open spec fn fsub(a: int, b: int) -> int {
    modp(a - b)
}

pub open spec fn fmul(a: int, b: int) -> int {
    modp(a * b)
}

pub open spec fn fpow(a: int, e: nat) -> int {
    modp(pow(a, e))
}

/// The inverse given by Fermat's little theorem: `a^(p-2)`; zero maps to zero.
pub open spec fn finv(a: int) -> int {
    fpow(a, (P - 2) as nat)
}

pub fn field_add(a: u64, b: u64) -> (r: u64)
    requires
        a < P,
        b < P,
    ensures
        r < P,
        r == fadd(a as int, b as int),
{
    let s: u128 = a as u128 + b as u128;
    (s % (P as u128)) as u64
}

pub fn field_sub(a: u64, b: u64) -> (r: u64)
    requires
        a < P,
        b < P,
    ensures
        r < P,
        r == fsub(a as int, b as int),
{
    if a >= b {
        a - b
    } else {
        let r = a + (P - b);
        assert(modp(a - b) == a - b + P) by {
            vstd::arithmetic::div_mod::lemma_fundamental_div_mod_converse(
                a - b,
                P as int,
                -1,
                a - b + P,
            );
        }
        r
    }
}

pub fn field_mul(a: u64, b: u64) -> (r: u64)
    requires
        a < P,
        b < P,
    ensures
        r < P,
        r == fmul(a as int, b as int),
{
    proof {
        assert((a as int) * (b as int) <= 0xFFFF_FFFF_FFFF_FFFF * 0xFFFF_FFFF_FFFF_FFFF)
            by (nonlinear_arith)
            requires
                a <= 0xFFFF_FFFF_FFFF_FFFFu64,
                b <= 0xFFFF_FFFF_FFFF_FFFFu64,
                0 <= a,
                0 <= b,
        ;
    }
    let s: u128 = (a as u128) * (b as u128);
    (s % (P as u128)) as u64
}

/// `a^e`, by repeated squaring.
pub fn field_pow(a: u64, e: u64) -> (r: u64)
    requires
        a < P,
    ensures
        r < P,
        r == fpow(a as int, e as nat),
    decreases e,
{
    if e == 0 {
        proof {
            lemma_pow0(a as int);
        }
        return 1;
    }
    let h = field_pow(a, e / 2);
    let h2 = field_mul(h, h);
    let ghost half = (e / 2) as nat;
    proof {
        lemma_mul_mod_noop(pow(a as int, half), pow(a as int, half), P as int);
        lemma_pow_adds(a as int, half, half);
    }
    if e % 2 == 0 {
        h2
    } else {
        let r = field_mul(h2, a);
        proof {
            lemma_pow1(a as int);
            lemma_pow_adds(a as int, half + half, 1);
            lemma_mul_mod_noop(pow(a as int, half + half), a as int, P as int);
            assert(modp(a as int) == a);
        }
        r
    }
}

/// The values of a `u64` sequence, as integers.
pub open spec fn ints(s: Seq<u64>) -> Seq<int> {
    s.map_values(|v: u64| v as int)
}

/// Every element of the sequence is in canonical form.
pub open spec fn all_canonical(s: Seq<u64>) -> bool {
    forall|i: int| 0 <= i < s.len() ==> #[trigger] s[i] < P
}

/// The multiplicative inverse of a nonzero element (zero maps to zero).
pub fn field_inverse(a: u64) -> (r: u64)
    requires
        a < P,
    ensures
        r < P,
        r == finv(a as int),
{
    field_pow(a, P - 2)
}

/// Inverts every element of `xs`.
pub fn batch_multiplicative_inverse(xs: &Vec<u64>) -> (r: Vec<u64>)
    requires
        all_canonical(xs@),
    ensures
        r@.len() == xs@.len(),
        all_canonical(r@),
        forall|i: int| 0 <= i < xs@.len() ==> #[trigger] r@[i] == finv(xs@[i] as int),
{
    let mut r: Vec<u64> = Vec::with_capacity(xs.len());
    let mut i: usize = 0;
    while i < xs.len()
        invariant
            i <= xs@.len(),
            all_canonical(xs@),
            r@.len() == i,
            all_canonical(r@),
            forall|k: int| 0 <= k < i ==> #[trigger] r@[k] == finv(xs@[k] as int),
        decreases xs@.len() - i,
    {
        let v = field_inverse(xs[i]);
        r.push(v);
        i = i + 1;
    }
    r
}

pub proof fn lemma_fpow_step(a: int, e: nat)
    ensures
        fpow(a, e + 1) == fmul(fpow(a, e), a),
{
    lemma_pow1(a);
    lemma_pow_adds(a, e, 1);
    vstd::arithmetic::div_mod::lemma_mul_mod_noop_left(pow(a, e), a, P as int);
}

proof fn lemma_fpow_square(a: int, e: nat)
    ensures
        fpow(a, e + e) == fmul(fpow(a, e), fpow(a, e)),
{
    lemma_pow_adds(a, e, e);
    lemma_mul_mod_noop(pow(a, e), pow(a, e), P as int);
}

/// `a^(2^k)`, by `k` squarings.
pub fn exp_power_of_2(a: u64, k: usize) -> (r: u64)
    requires
        a < P,
    ensures
        r < P,
        r == fpow(a as int, pow2(k as nat)),
{
    let mut acc = a;
    let mut j: usize = 0;
    proof {
        lemma_pow1(a as int);
        assert(pow2(0) == 1) by {
            lemma_pow0(2);
        }
        assert(modp(a as int) == a);
    }
    while j < k
        invariant
            a < P,
            j <= k,
            acc < P,
            acc == fpow(a as int, pow2(j as nat)),
        decreases k - j,
    {
        proof {
            lemma_fpow_square(a as int, pow2(j as nat));
            lemma_pow2_unfold((j + 1) as nat);
        }
        acc = field_mul(acc, acc);
        j = j + 1;
    }
    acc
}

/// The generator of the subgroup of order `2^bits`.
pub open spec fn root_of_unity(bits: nat) -> int {
    fpow(POWER_OF_TWO_GENERATOR as int, pow2((TWO_ADICITY - bits) as nat))
}

pub fn primitive_root_of_unity(bits: usize) -> (r: u64)
    requires
        bits <= TWO_ADICITY,
    ensures
        r < P,
        r == root_of_unity(bits as nat),
{
    exp_power_of_2(POWER_OF_TWO_GENERATOR, TWO_ADICITY - bits)
}

/// The powers `w^0, ..., w^(len-1)` of `w`.
pub fn powers(w: u64, len: usize) -> (r: Vec<u64>)
    requires
        w < P,
    ensures
        r@.len() == len,
        all_canonical(r@),
        forall|i: int| 0 <= i < len ==> #[trigger] r@[i] == fpow(w as int, i as nat),
{
    let mut r: Vec<u64> = Vec::with_capacity(len);
    let mut acc: u64 = 1;
    let mut i: usize = 0;
    proof {
        lemma_pow0(w as int);
    }
    while i < len
        invariant
            w < P,
            i <= len,
            acc < P,
            acc == fpow(w as int, i as nat),
            r@.len() == i,
            all_canonical(r@),
            forall|k: int| 0 <= k < i ==> #[trigger] r@[k] == fpow(w as int, k as nat),
        decreases len - i,
    {
        r.push(acc);
        proof {
            lemma_fpow_step(w as int, i as nat);
        }
        acc = field_mul(acc, w);
        i = i + 1;
    }
    r
}

} // verus!
