//! Shard-count selection and hash-to-shard routing.
//!
//! Everything here is pure arithmetic on integers: how many shards a map
//! gets for a given concurrency hint, how many digest bits select a shard,
//! and which shard a digest selects.

use vstd::arithmetic::power2::{
    lemma2_to64, lemma2_to64_rest, lemma_pow2_adds, lemma_pow2_pos,
    lemma_pow2_strictly_increases, lemma_pow2_unfold, pow2,
};
use vstd::bits::lemma_u64_shr_is_div;
use vstd::prelude::*;

verus! {

/// Shards allotted per unit of expected concurrency.
pub const SHARD_FACTOR: usize = 8;

/// Width of a key digest, in bits.
pub const DIGEST_BITS: usize = 64;

/// The largest concurrency hint whose shard count still fits in a `usize`.
pub open spec fn max_concurrency_hint() -> nat {
    (usize::MAX as int / (2 * SHARD_FACTOR)) as nat
}

/// `p` is the least power of two that is not below `n`.
pub open spec fn is_least_pow2_at_least(n: nat, p: nat) -> bool {
    &&& exists|e: nat| pow2(e) == p
    &&& n <= p
    &&& forall|e: nat| n <= #[trigger] pow2(e) ==> p <= pow2(e)
}

/// `amount` is the shard count for a concurrency hint of `hint`: the least
/// power of two that is at least `SHARD_FACTOR` times the hint.
pub open spec fn is_shard_amount(hint: nat, amount: nat) -> bool {
    is_least_pow2_at_least(hint * SHARD_FACTOR as nat, amount)
}

/// `bits` is the position of the highest set bit of `n`: the floor of its
/// binary logarithm. By convention it is zero for `n == 0`.
pub open spec fn is_floor_log2(n: nat, bits: nat) -> bool {
    if n == 0 {
        bits == 0
    } else {
        pow2(bits) <= n < pow2(bits + 1)
    }
}

/// The shard that a digest selects when `bits` high-order bits are used
/// for routing: the number formed by the top `bits` bits of the digest.
pub open spec fn shard_index(digest: u64, bits: nat) -> nat
    recommends
        bits <= DIGEST_BITS,
{
    digest as nat / pow2((DIGEST_BITS - bits) as nat)
}

/// Powers of two grow with their exponent (not necessarily strictly).
pub proof fn lemma_pow2_monotonic(a: nat, b: nat)
    requires
        a <= b,
    ensures
        pow2(a) <= pow2(b),
{
    if a < b {
        lemma_pow2_strictly_increases(a, b);
    }
}

/// There is exactly one least power of two above a given bound.
pub proof fn lemma_least_pow2_unique(n: nat, p: nat, q: nat)
    requires
        is_least_pow2_at_least(n, p),
        is_least_pow2_at_least(n, q),
    ensures
        p == q,
{
    let ep = choose|e: nat| pow2(e) == p;
    let eq = choose|e: nat| pow2(e) == q;
    assert(n <= pow2(ep));
    assert(n <= pow2(eq));
}

/// A shard count is a power of two, at least one, and at least
/// `SHARD_FACTOR` times the hint but less than twice that.
pub proof fn lemma_shard_amount_bounds(hint: nat, amount: nat)
    requires
        is_shard_amount(hint, amount),
    ensures
        exists|e: nat| pow2(e) == amount,
        amount >= 1,
        amount >= SHARD_FACTOR * hint,
        hint >= 1 ==> amount < 2 * SHARD_FACTOR * hint,
{
    let e = choose|e: nat| pow2(e) == amount;
    lemma_pow2_pos(e);
    lemma2_to64();
    if e > 0 {
        let below = (e - 1) as nat;
        lemma_pow2_unfold(e);
        lemma_pow2_pos(below);
        if 8 * hint <= pow2(below) {
            assert(amount <= pow2(below));
        }
    }
}

/// The floor of the binary logarithm is unique.
pub proof fn lemma_floor_log2_unique(n: nat, a: nat, b: nat)
    requires
        is_floor_log2(n, a),
        is_floor_log2(n, b),
    ensures
        a == b,
{
    if n > 0 {
        if a < b {
            lemma_pow2_monotonic(a + 1, b);
        } else if b < a {
            lemma_pow2_monotonic(b + 1, a);
        }
    }
}

/// On a power of two, the floor of the binary logarithm is the exponent.
pub proof fn lemma_floor_log2_of_pow2(e: nat, bits: nat)
    requires
        is_floor_log2(pow2(e), bits),
    ensures
        bits == e,
{
    lemma_pow2_pos(e);
    lemma_pow2_strictly_increases(e, e + 1);
    assert(is_floor_log2(pow2(e), e));
    lemma_floor_log2_unique(pow2(e), bits, e);
}

/// Every digest selects a shard below the shard count `pow2(bits)`.
pub proof fn lemma_shard_index_in_range(digest: u64, bits: nat)
    requires
        bits <= DIGEST_BITS,
    ensures
        shard_index(digest, bits) < pow2(bits),
{
    let low = (DIGEST_BITS - bits) as nat;
    lemma2_to64();
    lemma2_to64_rest();
    lemma_pow2_adds(low, bits);
    lemma_pow2_pos(low);
    lemma_pow2_pos(bits);
    let d = pow2(low) as int;
    let c = pow2(bits) as int;
    let x = digest as int;
    assert(x < d * c);
    assert(x / d < c) by (nonlinear_arith)
        requires
            0 <= x < d * c,
            d > 0,
            c > 0,
    ;
}

/// With no routing bits there is a single shard, and every digest selects it.
pub proof fn lemma_shard_index_single(digest: u64)
    ensures
        shard_index(digest, 0) == 0,
{
    lemma_shard_index_in_range(digest, 0);
    lemma2_to64();
}

/// Routing looks at the high-order bits only: digests that agree on their
/// top `bits` bits select the same shard.
pub proof fn lemma_shard_index_by_high_bits(a: u64, b: u64, bits: nat)
    requires
        0 < bits <= DIGEST_BITS,
        a >> ((DIGEST_BITS - bits) as u64) == b >> ((DIGEST_BITS - bits) as u64),
    ensures
        shard_index(a, bits) == shard_index(b, bits),
{
    let shift = (DIGEST_BITS - bits) as u64;
    lemma_u64_shr_is_div(a, shift);
    lemma_u64_shr_is_div(b, shift);
}

/// The number of shards for a concurrency hint: the least power of two
/// that is at least `SHARD_FACTOR` times the hint. A hint of zero gives a
/// single shard.
pub fn shard_amount(hint: usize) -> (amount: usize)
    requires
        hint <= max_concurrency_hint(),
    ensures
        is_shard_amount(hint as nat, amount as nat),
{
    assert(2 * SHARD_FACTOR == 16);
    let target: usize = hint * SHARD_FACTOR;
    let mut amount: usize = 1;
    let ghost mut bits: nat = 0;
    proof {
        lemma2_to64();
    }
    while amount < target
        invariant
            target <= usize::MAX / 2,
            amount >= 1,
            amount == pow2(bits),
            bits > 0 ==> pow2((bits - 1) as nat) < target,
        decreases usize::MAX - amount,
    {
        amount = amount * 2;
        proof {
            bits = bits + 1;
            lemma_pow2_unfold(bits);
        }
    }
    proof {
        assert forall|e: nat| target <= #[trigger] pow2(e) implies amount <= pow2(e) by {
            if e < bits {
                lemma_pow2_monotonic(e, (bits - 1) as nat);
            } else {
                lemma_pow2_monotonic(bits, e);
            }
        }
    }
    amount
}

/// The number of digest bits that select a shard among `amount` shards:
/// the floor of the binary logarithm of `amount`. For a power of two this
/// is its exponent.
pub fn shard_bits(amount: usize) -> (bits: usize)
    ensures
        is_floor_log2(amount as nat, bits as nat),
        bits < DIGEST_BITS,
{
    let mut bits: usize = 0;
    let mut rest: usize = amount;
    proof {
        lemma2_to64();
        lemma2_to64_rest();
    }
    while rest > 1
        invariant
            amount == 0 ==> rest == 0 && bits == 0,
            amount > 0 ==> rest >= 1,
            pow2(bits as nat) * rest <= amount,
            amount < pow2(bits as nat) * (rest + 1),
            bits < 64,
        decreases rest,
    {
        proof {
            let p = pow2(bits as nat) as int;
            let r = rest as int;
            let half = r / 2;
            lemma_pow2_unfold((bits + 1) as nat);
            lemma_pow2_pos(bits as nat);
            assert(2 * p * half <= p * r) by (nonlinear_arith)
                requires
                    p > 0,
                    half == r / 2,
                    r >= 0,
            ;
            assert(p * (r + 1) <= 2 * p * (half + 1)) by (nonlinear_arith)
                requires
                    p > 0,
                    half == r / 2,
                    r >= 0,
            ;
            assert(2 * p <= p * r) by (nonlinear_arith)
                requires
                    p > 0,
                    r >= 2,
            ;
            // pow2(bits + 1) <= amount < pow2(64), so bits + 1 < 64
            lemma2_to64();
            lemma2_to64_rest();
            if bits + 1 >= 64 {
                lemma_pow2_monotonic(64, (bits + 1) as nat);
            }
        }
        rest = rest / 2;
        bits = bits + 1;
    }
    proof {
        if amount > 0 {
            lemma_pow2_unfold((bits + 1) as nat);
            assert(pow2(bits as nat) * 1 == pow2(bits as nat));
            assert(pow2(bits as nat) * 2 == 2 * pow2(bits as nat));
        }
    }
    bits
}

/// The router: maps a digest to the shard that its top `bits` bits name.
/// It is a pure function of its arguments, so a key's shard never changes.
pub fn route(digest: u64, bits: usize) -> (index: usize)
    requires
        pow2(bits as nat) <= usize::MAX,
    ensures
        index == shard_index(digest, bits as nat),
        index < pow2(bits as nat),
{
    proof {
        lemma2_to64();
        lemma2_to64_rest();
        if bits >= 64 {
            lemma_pow2_monotonic(64, bits as nat);
        }
        lemma_shard_index_in_range(digest, bits as nat);
    }
    if bits == 0 {
        0
    } else {
        let shift: u64 = (DIGEST_BITS - bits) as u64;
        proof {
            lemma_u64_shr_is_div(digest, shift);
        }
        (digest >> shift) as usize
    }
}

} // verus!
