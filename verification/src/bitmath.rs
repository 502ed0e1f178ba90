//! Bitwise operations on natural numbers and the arithmetic facts that the
//! packer and unpacker rest on.
use vstd::arithmetic::div_mod::*;
use vstd::arithmetic::mul::*;
use vstd::arithmetic::power2::*;
use vstd::prelude::*;

verus! {

/// Bitwise AND of two natural numbers, bit by bit from the lowest.
pub open spec fn bit_and(a: nat, b: nat) -> nat
    decreases a,
{
    if a == 0 || b == 0 {
        0
    } else {
        2 * bit_and(a / 2, b / 2) + (a % 2) * (b % 2)
    }
}

/// Bitwise OR of two natural numbers, bit by bit from the lowest.
pub open spec fn bit_or(a: nat, b: nat) -> nat
    decreases a + b,
{
    if a == 0 {
        b
    } else if b == 0 {
        a
    } else {
        2 * bit_or(a / 2, b / 2) + (if a % 2 == 1 || b % 2 == 1 {
            1nat
        } else {
            0nat
        })
    }
}

/// The number whose lowest `k` bits are set and no other: `2^k - 1`.
pub open spec fn low_mask(k: nat) -> nat {
    (pow2(k) - 1) as nat
}

/// ANDing with the mask of the lowest `k` bits keeps `a` modulo `2^k`.
pub proof fn lemma_and_low_mask(a: nat, k: nat)
    ensures
        bit_and(a, low_mask(k)) == a % pow2(k),
    decreases k,
{
    lemma_pow2_pos(k);
    if k == 0 {
        lemma2_to64();
    } else if a == 0 {
        lemma_pow2_pos(k);
    } else {
        lemma_pow2_unfold(k);
        lemma_pow2_pos((k - 1) as nat);
        let m = low_mask(k);
        assert(m / 2 == low_mask((k - 1) as nat));
        assert(m % 2 == 1);
        lemma_and_low_mask(a / 2, (k - 1) as nat);
        lemma_mod_breakdown(a as int, 2, pow2((k - 1) as nat) as int);
    }
}

/// ORing a value below `2^s` into a multiple of `2^s` is addition.
pub proof fn lemma_or_disjoint(a: nat, b: nat, s: nat)
    requires
        a < pow2(s),
    ensures
        bit_or(a, b * pow2(s)) == a + b * pow2(s),
    decreases s,
{
    if s == 0 {
        lemma2_to64();
    } else {
        lemma_pow2_unfold(s);
        let p = pow2((s - 1) as nat);
        let c = b * pow2(s);
        assert(c == 2 * (b * p)) by {
            lemma_mul_is_associative(b as int, 2, p as int);
            lemma_mul_is_commutative(b as int, 2);
            lemma_mul_is_associative(2, b as int, p as int);
        }
        if a != 0 && c != 0 {
            assert(c % 2 == 0 && c / 2 == b * p) by {
                lemma_mod_multiples_basic((b * p) as int, 2);
                lemma_div_multiples_vanish((b * p) as int, 2);
            }
            lemma_or_disjoint(a / 2, b, (s - 1) as nat);
        }
    }
}

/// Shifting the all-ones value of `n` bits right by `n - k` leaves the mask
/// of the lowest `k` bits.
pub proof fn lemma_mask_from_max(n: nat, k: nat)
    requires
        k <= n,
    ensures
        low_mask(n) / pow2((n - k) as nat) == low_mask(k),
{
    let d = pow2((n - k) as nat);
    lemma_pow2_pos((n - k) as nat);
    lemma_pow2_pos(k);
    lemma_pow2_adds(k, (n - k) as nat);
    assert(pow2(n) == pow2(k) * d);
    assert(low_mask(n) == low_mask(k) * d + (d - 1)) by {
        lemma_mul_is_distributive_sub_other_way(d as int, pow2(k) as int, 1);
    }
    lemma_fundamental_div_mod_converse(low_mask(n) as int, d as int, low_mask(k) as int, (d - 1) as int);
}

/// Shifting left by `n` within `bits` bits keeps the value's lowest
/// `bits - n` bits, moved up by `n`: the product modulo `2^bits`.
pub proof fn lemma_shl_truncates(x: nat, n: nat, bits: nat)
    requires
        n <= bits,
    ensures
        (x % pow2((bits - n) as nat)) * pow2(n) == (x * pow2(n)) % pow2(bits),
        (x % pow2((bits - n) as nat)) * pow2(n) < pow2(bits),
{
    let p = pow2(n);
    let q = pow2((bits - n) as nat);
    lemma_pow2_pos(n);
    lemma_pow2_pos((bits - n) as nat);
    lemma_pow2_adds(n, (bits - n) as nat);
    lemma_truncate_middle(x as int, p as int, q as int);
    lemma_mul_is_commutative(p as int, x as int);
    lemma_mul_is_commutative(p as int, (x % q) as int);
    lemma_mod_bound(x as int, q as int);
    lemma_mul_strict_inequality((x % q) as int, q as int, p as int);
    lemma_mul_is_commutative(q as int, p as int);
}

} // verus!
