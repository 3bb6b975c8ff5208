//! Rating migration lookup.
//!
//! Thresholds and asset values are compared through order keys: an `i64`
//! derived from the bit pattern of an IEEE 754 double such that, for any two
//! values that are not NaN, the keys compare exactly as the values do
//! (`-0.0` and `+0.0` get the same key).
use vstd::prelude::*;

verus! {

/// Bit of a binary64 pattern that holds the sign.
pub const SIGN_BIT: u64 = 0x8000_0000_0000_0000;

/// Key of a binary64 bit pattern: the magnitude bits, negated when the sign
/// bit is set.
pub open spec fn key_of_bits(bits: u64) -> int {
    if bits >= SIGN_BIT {
        -((bits - SIGN_BIT) as int)
    } else {
        bits as int
    }
}

/// Order key of the double whose bit pattern is `bits`.
pub fn order_key(bits: u64) -> (r: i64)
    ensures
        r as int == key_of_bits(bits),
{
    if bits >= SIGN_BIT {
        let mag: u64 = bits - SIGN_BIT;
        -(mag as i64)
    } else {
        bits as i64
    }
}

/// The thresholds never decrease from one rating class to the next.
pub open spec fn non_decreasing(t: Seq<i64>) -> bool {
    forall|i: int, j: int| 0 <= i <= j < t.len() ==> t[i] <= t[j]
}

/// Number of thresholds that lie strictly below `z`.
pub open spec fn rating_of(t: Seq<i64>, z: i64) -> nat
    decreases t.len(),
{
    if t.len() == 0 {
        0
    } else {
        rating_of(t.drop_last(), z) + if t.last() < z { 1nat } else { 0nat }
    }
}

/// Whether `t` is non-decreasing.
pub fn is_non_decreasing(t: &[i64]) -> (r: bool)
    ensures
        r == non_decreasing(t@),
{
    let n: usize = t.len();
    if n == 0 {
        return true;
    }
    let mut i: usize = 1;
    while i < n
        invariant
            1 <= i <= n,
            n == t@.len(),
            forall|a: int, b: int| 0 <= a <= b < i ==> t@[a] <= t@[b],
        decreases n - i,
    {
        if t[i - 1] > t[i] {
            return false;
        }
        i = i + 1;
    }
    true
}

/// In a non-decreasing sequence whose first `k` entries lie below `z` and
/// whose other entries do not, `z` is above exactly `k` thresholds.
proof fn lemma_rating_at_boundary(t: Seq<i64>, z: i64, k: int)
    requires
        0 <= k <= t.len(),
        forall|i: int| 0 <= i < k ==> t[i] < z,
        forall|i: int| k <= i < t.len() ==> z <= t[i],
    ensures
        rating_of(t, z) == k,
    decreases t.len(),
{
    if t.len() > 0 {
        let s = t.drop_last();
        if k == t.len() {
            lemma_rating_at_boundary(s, z, k - 1);
        } else {
            lemma_rating_at_boundary(s, z, k);
        }
    }
}

/// Rating class reached by the standardised asset value with key `z`: the
/// smallest index `i` with `z <= t[i]`, or `t.len()` when `z` exceeds every
/// threshold. A value equal to a threshold stays in the lower class.
pub fn rating_index(t: &[i64], z: i64) -> (r: usize)
    requires
        non_decreasing(t@),
    ensures
        r <= t@.len(),
        r == rating_of(t@, z),
        forall|i: int| 0 <= i < r ==> t@[i] < z,
        r < t@.len() ==> z <= t@[r as int],
{
    let mut lo: usize = 0;
    let mut hi: usize = t.len();
    while lo < hi
        invariant
            0 <= lo <= hi <= t@.len(),
            non_decreasing(t@),
            forall|i: int| 0 <= i < lo ==> t@[i] < z,
            forall|i: int| hi <= i < t@.len() ==> z <= t@[i],
        decreases hi - lo,
    {
        let mid: usize = lo + (hi - lo) / 2;
        if t[mid] < z {
            lo = mid + 1;
        } else {
            hi = mid;
        }
    }
    proof {
        lemma_rating_at_boundary(t@, z, lo as int);
    }
    lo
}

/// The rating reached never decreases as the asset value grows.
pub proof fn lemma_rating_monotone(t: Seq<i64>, z1: i64, z2: i64)
    requires
        z1 <= z2,
    ensures
        rating_of(t, z1) <= rating_of(t, z2),
    decreases t.len(),
{
    if t.len() > 0 {
        lemma_rating_monotone(t.drop_last(), z1, z2);
    }
}

/// Order keys respect the order of the values they stand for: of two
/// non-negative doubles the one with the larger bit pattern is larger, of two
/// negative ones the one with the larger magnitude bits is smaller, and every
/// negative value lies below every non-negative one.
pub proof fn lemma_key_order(a: u64, b: u64)
    ensures
        a < SIGN_BIT && b < SIGN_BIT ==> (key_of_bits(a) <= key_of_bits(b) <==> a <= b),
        a >= SIGN_BIT && b >= SIGN_BIT ==> (key_of_bits(a) <= key_of_bits(b) <==> b <= a),
        a >= SIGN_BIT && b < SIGN_BIT ==> key_of_bits(a) <= key_of_bits(b),
        key_of_bits(SIGN_BIT) == key_of_bits(0),
{
}

} // verus!
