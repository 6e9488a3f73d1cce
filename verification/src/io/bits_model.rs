//! The mathematical model of a byte buffer read as a sequence of bits, most significant bit first.

use vstd::prelude::*;
use vstd::arithmetic::power2::{pow2, lemma_pow2_unfold, lemma_pow2_pos, lemma_pow2_adds};
use vstd::arithmetic::div_mod::{lemma_div_denominator, lemma_fundamental_div_mod, lemma_div_pos_is_pos};
use vstd::arithmetic::mul::{lemma_mul_is_associative, lemma_mul_is_commutative, lemma_mul_is_distributive_add};

verus! {

/// The bit at bit index `q` of `s`, where bit 0 is the most significant bit of `s[0]`.
pub open spec fn bit_at(s: Seq<u8>, q: int) -> nat {
    ((s[q / 8] as nat) / pow2((7 - q % 8) as nat)) % 2
}

/// The unsigned integer whose big-endian binary digits are the `n` bits of `s` starting at bit
/// index `p`.
pub open spec fn bits_val(s: Seq<u8>, p: int, n: nat) -> nat
    decreases n,
{
    if n == 0 {
        0
    } else {
        bits_val(s, p, (n - 1) as nat) * 2 + bit_at(s, p + n - 1)
    }
}

/// A value of `n` bits is less than `2^n`.
pub proof fn lemma_bits_val_bound(s: Seq<u8>, p: int, n: nat)
    ensures
        bits_val(s, p, n) < pow2(n),
    decreases n,
{
    if n == 0 {
        lemma_pow2_pos(0);
        assert(pow2(0) == 1) by {
            vstd::arithmetic::power2::lemma2_to64();
        }
    } else {
        lemma_bits_val_bound(s, p, (n - 1) as nat);
        lemma_pow2_unfold(n);
    }
}

/// Reading `n + m` bits is reading `n` bits, then `m` more.
pub proof fn lemma_bits_val_split(s: Seq<u8>, p: int, n: nat, m: nat)
    ensures
        bits_val(s, p, n + m) == bits_val(s, p, n) * pow2(m) + bits_val(s, p + n, m),
    decreases m,
{
    if m == 0 {
        vstd::arithmetic::power2::lemma2_to64();
        assert(bits_val(s, p, n + m) == bits_val(s, p, n));
    } else {
        lemma_bits_val_split(s, p, n, (m - 1) as nat);
        lemma_pow2_unfold(m);
        let a = bits_val(s, p, n) as int;
        let pm1 = pow2((m - 1) as nat) as int;
        assert(bits_val(s, p, (n + m) as nat) == bits_val(s, p, (n + m - 1) as nat) * 2 + bit_at(
            s,
            p + n + m - 1,
        ));
        assert(bits_val(s, p + n, m) == bits_val(s, p + n, (m - 1) as nat) * 2 + bit_at(
            s,
            p + n + m - 1,
        ));
        assert((a * pm1) * 2 == a * (pm1 * 2)) by {
            lemma_mul_is_associative(a, pm1, 2);
        }
        assert(pm1 * 2 == pow2(m)) by {
            lemma_mul_is_commutative(pm1, 2);
        }
        assert((a * pm1 + bits_val(s, p + n, (m - 1) as nat)) * 2 == (a * pm1) * 2 + bits_val(
            s,
            p + n,
            (m - 1) as nat,
        ) * 2) by {
            lemma_mul_is_distributive_add(2, a * pm1, bits_val(s, p + n, (m - 1) as nat) as int);
            lemma_mul_is_commutative(2, a * pm1 + bits_val(s, p + n, (m - 1) as nat));
            lemma_mul_is_commutative(2, a * pm1);
            lemma_mul_is_commutative(2, bits_val(s, p + n, (m - 1) as nat) as int);
        }
    }
}

/// The first `k` bits of byte `i` are the byte's value divided by `2^(8-k)`.
pub proof fn lemma_bits_val_byte_prefix(s: Seq<u8>, i: int, k: nat)
    requires
        0 <= i < s.len(),
        k <= 8,
    ensures
        bits_val(s, 8 * i, k) == (s[i] as nat) / pow2((8 - k) as nat),
    decreases k,
{
    let b = s[i] as nat;
    if k == 0 {
        vstd::arithmetic::power2::lemma2_to64();
        assert(b / 256 == 0);
    } else {
        lemma_bits_val_byte_prefix(s, i, (k - 1) as nat);
        let j = (8 - k) as nat;
        lemma_pow2_pos(j);
        lemma_pow2_unfold(j + 1);
        assert(pow2(j + 1) == pow2(j) * 2) by {
            lemma_mul_is_commutative(2, pow2(j) as int);
        }
        assert(b / pow2(j + 1) == (b / pow2(j)) / 2) by {
            lemma_div_denominator(b as int, pow2(j) as int, 2);
        }
        let q = 8 * i + k - 1;
        assert(q / 8 == i && q % 8 == k - 1);
        assert(bit_at(s, q) == (b / pow2(j)) % 2);
        let y = b / pow2(j);
        lemma_fundamental_div_mod(y as int, 2);
    }
}

/// The whole of byte `i` read as 8 bits is the byte itself.
pub proof fn lemma_bits_val_byte(s: Seq<u8>, i: int)
    requires
        0 <= i < s.len(),
    ensures
        bits_val(s, 8 * i, 8) == s[i] as nat,
{
    lemma_bits_val_byte_prefix(s, i, 8);
    vstd::arithmetic::power2::lemma2_to64();
}

/// The last `k` bits of byte `i` are the byte's value modulo `2^k`, and the first `8 - k` bits
/// are the byte divided by `2^k`.
pub proof fn lemma_bits_val_byte_suffix(s: Seq<u8>, i: int, k: nat)
    requires
        0 <= i < s.len(),
        k <= 8,
    ensures
        bits_val(s, 8 * i + 8 - k, k) == (s[i] as nat) % pow2(k),
        bits_val(s, 8 * i, (8 - k) as nat) == (s[i] as nat) / pow2(k),
{
    let b = s[i] as nat;
    lemma_bits_val_byte_prefix(s, i, (8 - k) as nat);
    lemma_bits_val_byte(s, i);
    lemma_bits_val_split(s, 8 * i, (8 - k) as nat, k);
    lemma_pow2_pos(k);
    lemma_fundamental_div_mod(b as int, pow2(k) as int);
    lemma_mul_is_commutative((b / pow2(k)) as int, pow2(k) as int);
}

/// Division and remainder of a value made of a high and a low part.
pub proof fn lemma_div_mod_parts(hi: nat, lo: nat, d: nat)
    requires
        d > 0,
        lo < d,
    ensures
        (hi * d + lo) / d == hi,
        (hi * d + lo) % d == lo,
{
    vstd::arithmetic::div_mod::lemma_fundamental_div_mod_converse(
        (hi * d + lo) as int,
        d as int,
        hi as int,
        lo as int,
    );
}

/// The index of the first 1 bit of `s` at or after bit index `p`, or the number of bits in `s` if
/// there is none.
pub open spec fn first_one(s: Seq<u8>, p: int) -> int
    decreases 8 * s.len() - p,
{
    if p < 0 || p >= 8 * s.len() {
        8 * s.len() as int
    } else if bit_at(s, p) == 1 {
        p
    } else {
        first_one(s, p + 1)
    }
}

} // verus!
