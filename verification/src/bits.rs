//! Bit-level vocabulary shared by the whole crate: single-bit tests and
//! population counts on `u64` square sets, with the handful of lemmas that
//! relate the bitwise operators to them.

use vstd::prelude::*;

verus! {

/// True when bit `i` of `x` is set.
pub open spec fn bit(x: u64, i: u64) -> bool {
    (x >> i) & 1 == 1
}

/// Number of set bits of `x` among the bits strictly below `n`.
pub open spec fn popcount_below(x: u64, n: nat) -> nat
    decreases n,
{
    if n == 0 {
        0
    } else {
        popcount_below(x, (n - 1) as nat) + if bit(x, (n - 1) as u64) {
            1nat
        } else {
            0nat
        }
    }
}

/// Number of set bits of `x`.
pub open spec fn popcount(x: u64) -> nat {
    popcount_below(x, 64)
}

/// How each bitwise operator acts on a single bit position.
pub proof fn lemma_bit_ops(a: u64, b: u64, i: u64)
    by (bit_vector)
    requires
        i < 64,
    ensures
        bit(a | b, i) == (bit(a, i) || bit(b, i)),
        bit(a & b, i) == (bit(a, i) && bit(b, i)),
        bit(a ^ b, i) == (bit(a, i) != bit(b, i)),
        bit(!a, i) == !bit(a, i),
{
}

/// A shifted one has exactly one bit set.
pub proof fn lemma_bit_single(k: u64, i: u64)
    by (bit_vector)
    requires
        i < 64,
        k < 64,
    ensures
        bit(1u64 << k, i) == (i == k),
{
}

/// Mask selecting the bits strictly below `n`.
pub open spec fn low_mask(n: u64) -> u64 {
    if n >= 64 {
        0xFFFF_FFFF_FFFF_FFFFu64
    } else {
        ((1u64 << n) - 1) as u64
    }
}

proof fn lemma_ext_below(a: u64, b: u64, n: u64)
    requires
        n <= 64,
        forall|i: u64| i < n ==> bit(a, i) == bit(b, i),
    ensures
        a & low_mask(n) == b & low_mask(n),
    decreases n,
{
    if n == 0 {
        assert(a & low_mask(0) == b & low_mask(0)) by (bit_vector);
    } else {
        lemma_ext_below(a, b, (n - 1) as u64);
        assert(bit(a, (n - 1) as u64) == bit(b, (n - 1) as u64));
        assert(a & low_mask(n) == b & low_mask(n)) by (bit_vector)
            requires
                1 <= n <= 64,
                a & low_mask((n - 1) as u64) == b & low_mask((n - 1) as u64),
                bit(a, (n - 1) as u64) == bit(b, (n - 1) as u64),
        ;
    }
}

/// Two words agreeing on every bit position are equal.
pub proof fn lemma_bit_ext(a: u64, b: u64)
    requires
        forall|i: u64| i < 64 ==> bit(a, i) == bit(b, i),
    ensures
        a == b,
{
    lemma_ext_below(a, b, 64);
    assert(a & low_mask(64) == a && b & low_mask(64) == b) by (bit_vector);
}

/// OR with zero is the identity; AND and OR commute.
pub proof fn lemma_bitwise_alg()
    by (bit_vector)
    ensures
        forall|a: u64| #[trigger] (a | 0u64) == a,
        forall|a: u64| #[trigger] (0u64 | a) == a,
        forall|a: u64, b: u64| #[trigger] (a & b) == (b & a),
        forall|a: u64, b: u64| #[trigger] (a | b) == (b | a),
        forall|a: u64| #[trigger] (a & 0u64) == 0u64,
        forall|a: u64| #[trigger] (0u64 & a) == 0u64,
{
}

/// The zero word has no set bits to count.
pub proof fn lemma_popcount_zero()
    ensures
        forall|n: nat| #[trigger] popcount_below(0u64, n) == 0,
        popcount(0u64) == 0,
{
    assert(forall|j: u64| j < 64 ==> !bit(0u64, j)) by (bit_vector);
    assert forall|n: nat| #[trigger] popcount_below(0u64, n) == 0 by {
        lemma_popcount_below_zero(n);
    }
}

proof fn lemma_popcount_below_zero(n: nat)
    ensures
        popcount_below(0u64, n) == 0,
    decreases n,
{
    assert(forall|j: u64| !(#[trigger] bit(0u64, j))) by (bit_vector);
    if n > 0 {
        lemma_popcount_below_zero((n - 1) as nat);
    }
}

/// A prefix count never exceeds the width of the prefix.
pub proof fn lemma_popcount_below_bound(x: u64, n: nat)
    ensures
        popcount_below(x, n) <= n,
    decreases n,
{
    if n > 0 {
        lemma_popcount_below_bound(x, (n - 1) as nat);
    }
}

/// Index of the least significant set bit at or above `i`, or 64 when there
/// is none.
pub open spec fn lsb_from(x: u64, i: u64) -> u64
    decreases 64 - i,
{
    if i >= 64 {
        64u64
    } else if bit(x, i) {
        i
    } else {
        lsb_from(x, (i + 1) as u64)
    }
}

/// Index of the least significant set bit, or 64 for zero.
pub open spec fn lsb(x: u64) -> u64 {
    lsb_from(x, 0)
}

/// The least significant set bit is the one below which no bit is set.
pub proof fn lemma_lsb_unique(x: u64, r: u64)
    requires
        r < 64,
        bit(x, r),
        forall|j: u64| j < r ==> !bit(x, j),
    ensures
        lsb(x) == r,
{
    lemma_lsb_from(x, r, 0);
}

proof fn lemma_lsb_from(x: u64, r: u64, i: u64)
    requires
        i <= r < 64,
        bit(x, r),
        forall|j: u64| i <= j < r ==> !bit(x, j),
    ensures
        lsb_from(x, i) == r,
    decreases r - i,
{
    if i < r {
        lemma_lsb_from(x, r, (i + 1) as u64);
    }
}

/// Clearing a set bit lowers the population count by one.
pub proof fn lemma_popcount_clear_bit(x: u64, s: u64)
    requires
        s < 64,
        bit(x, s),
    ensures
        popcount(x) == popcount(x ^ (1u64 << s)) + 1,
{
    lemma_popcount_below_clear(x, s, 64);
}

proof fn lemma_popcount_below_clear(x: u64, s: u64, n: nat)
    requires
        n <= 64,
        s < 64,
        bit(x, s),
    ensures
        popcount_below(x, n) == popcount_below(x ^ (1u64 << s), n) + (if s < n {
            1nat
        } else {
            0nat
        }),
    decreases n,
{
    if n > 0 {
        lemma_popcount_below_clear(x, s, (n - 1) as nat);
        let i = (n - 1) as u64;
        lemma_bit_ops(x, 1u64 << s, i);
        lemma_bit_single(s, i);
    }
}

/// A word with a set bit counts at least one.
pub proof fn lemma_popcount_has_bit(x: u64, s: u64)
    requires
        s < 64,
        bit(x, s),
    ensures
        popcount(x) >= 1,
{
    lemma_popcount_clear_bit(x, s);
}

/// The least significant set bit of a nonzero word exists and is minimal.
pub proof fn lemma_lsb_exists(x: u64)
    requires
        x != 0,
    ensures
        lsb(x) < 64,
        bit(x, lsb(x)),
        forall|j: u64| j < lsb(x) ==> !bit(x, j),
{
    lemma_lsb_from_props(x, 0);
    if lsb(x) == 64 {
        assert(forall|j: u64| j < 64 ==> bit(0u64, j) == false) by (bit_vector);
        lemma_bit_ext(x, 0);
    }
}

proof fn lemma_lsb_from_props(x: u64, i: u64)
    requires
        i <= 64,
    ensures
        ({
            let r = lsb_from(x, i);
            &&& r <= 64
            &&& (r == 64 ==> forall|j: u64| i <= j < 64 ==> !bit(x, j))
            &&& (r < 64 ==> bit(x, r) && i <= r && forall|j: u64| i <= j < r ==> !bit(x, j))
        }),
    decreases 64 - i,
{
    if i < 64 {
        lemma_lsb_from_props(x, (i + 1) as u64);
    }
}

/// The zero word has no bits set.
pub proof fn lemma_bits_zero()
    by (bit_vector)
    ensures
        forall|j: u64| j < 64 ==> !(#[trigger] bit(0u64, j)),
{
}

/// A word with a set bit is not zero.
pub proof fn lemma_bit_nonzero(x: u64, i: u64)
    by (bit_vector)
    requires
        bit(x, i),
    ensures
        x != 0,
{
}

/// XOR reassociates.
pub proof fn lemma_xor_assoc()
    by (bit_vector)
    ensures
        forall|a: u64, b: u64, c: u64| #[trigger] ((a ^ b) ^ c) == a ^ (b ^ c),
{
}

/// Toggling one bit flips that position and no other.
pub proof fn lemma_toggle_bit(x: u64, s: u64)
    requires
        s < 64,
    ensures
        bit(x ^ (1u64 << s), s) == !bit(x, s),
        forall|i: u64| i < 64 && i != s ==> bit(x ^ (1u64 << s), i) == bit(x, i),
{
    assert forall|i: u64| i < 64 implies bit(x ^ (1u64 << s), i) == (if i == s {
        !bit(x, i)
    } else {
        bit(x, i)
    }) by {
        lemma_bit_ops(x, 1u64 << s, i);
        lemma_bit_single(s, i);
    }
}

/// XOR with zero is the identity; XOR with itself cancels.
pub proof fn lemma_xor_units()
    by (bit_vector)
    ensures
        forall|a: u64| #[trigger] (a ^ 0u64) == a,
        forall|a: u64| #[trigger] (0u64 ^ a) == a,
        forall|a: u64| #[trigger] (a ^ a) == 0u64,
{
}

/// Count the number of set bits.
pub fn popcnt64(x: u64) -> (count: u32)
    ensures
        count == popcount(x),
{
    let mut count: u32 = 0;
    let mut i: u64 = 0;
    while i < 64
        invariant
            i <= 64,
            count == popcount_below(x, i as nat),
        decreases 64 - i,
    {
        proof {
            lemma_popcount_below_bound(x, i as nat);
        }
        if (x >> i) & 1 == 1 {
            count = count + 1;
        }
        i = i + 1;
    }
    count
}

/// Index of the least significant set bit, or `None` for zero.
pub fn lowest_bit(x: u64) -> (r: Option<u64>)
    ensures
        match r {
            Some(i) => i < 64 && bit(x, i) && forall|j: u64| j < i ==> !bit(x, j),
            None => x == 0,
        },
{
    let mut i: u64 = 0;
    while i < 64
        invariant
            i <= 64,
            forall|j: u64| j < i ==> !bit(x, j),
        decreases 64 - i,
    {
        if (x >> i) & 1 == 1 {
            return Some(i);
        }
        i = i + 1;
    }
    proof {
        assert(forall|j: u64| j < 64 ==> bit(0u64, j) == false) by (bit_vector);
        lemma_bit_ext(x, 0);
    }
    None
}

} // verus!
