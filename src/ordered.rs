//! Real numbers carried as ordered keys.
//!
//! A real value (a 64-bit IEEE number other than NaN) is stored as an `i64`
//! key whose integer order is the order of the values: non-negative numbers
//! keep their bit pattern, negative ones are mirrored below zero, and negative
//! zero is taken as zero. Comparisons in the swarm logic are then comparisons
//! of integers, while the arithmetic on the values stays with the caller.
use vstd::prelude::*;

verus! {

/// Key of positive infinity.
pub const INFINITY: i64 = 0x7FF0_0000_0000_0000;

/// Key of negative infinity.
pub const NEG_INFINITY: i64 = -0x7FF0_0000_0000_0001;

/// Key of zero.
pub const ZERO: i64 = 0;

/// Bit pattern of negative zero; its sign bit alone is set.
pub const SIGN_BIT: u64 = 0x8000_0000_0000_0000;

/// The key of the number with bit pattern `b`.
pub open spec fn key_of_bits(b: u64) -> int {
    if b < SIGN_BIT {
        b as int
    } else if b == SIGN_BIT {
        0
    } else {
        SIGN_BIT - 1 - b
    }
}

/// The bit pattern that key `k` stands for.
pub open spec fn bits_of_key(k: i64) -> int {
    if k >= 0 {
        k as int
    } else {
        SIGN_BIT - 1 - k
    }
}

/// `k` is the key of a number that is not NaN.
pub open spec fn is_real(k: i64) -> bool {
    NEG_INFINITY <= k <= INFINITY && k != -1
}

/// The ordered key of the number whose bit pattern is `b`.
pub fn key_from_bits(b: u64) -> (k: i64)
    ensures
        k == key_of_bits(b),
{
    if b < SIGN_BIT {
        b as i64
    } else if b == SIGN_BIT {
        ZERO
    } else {
        -1 - ((b - SIGN_BIT) as i64)
    }
}

/// The bit pattern of the number whose key is `k`.
pub fn bits_from_key(k: i64) -> (b: u64)
    ensures
        b == bits_of_key(k),
{
    if k >= 0 {
        k as u64
    } else {
        ((-1 - k) as u64) + SIGN_BIT
    }
}

/// Turning a bit pattern into its key and back gives the pattern again, but
/// for negative zero, which comes back as zero.
pub proof fn lemma_bits_round_trip(b: u64)
    ensures
        b != SIGN_BIT ==> bits_of_key(key_of_bits(b) as i64) == b,
        b == SIGN_BIT ==> bits_of_key(key_of_bits(b) as i64) == 0,
{
}

/// Turning a key into its bit pattern and back gives the key again.
pub proof fn lemma_key_round_trip(k: i64)
    requires
        k != -1,
    ensures
        key_of_bits(bits_of_key(k) as u64) == k,
{
}

/// The keys of positive and negative infinity are the largest and smallest
/// keys of real values.
pub proof fn lemma_infinities()
    ensures
        key_of_bits(0x7FF0_0000_0000_0000u64) == INFINITY,
        key_of_bits(0xFFF0_0000_0000_0000u64) == NEG_INFINITY,
        key_of_bits(0u64) == ZERO,
        forall|k: i64| is_real(k) ==> NEG_INFINITY <= k <= INFINITY,
{
}

/// `x` clamped into `[lo, hi]`: pinned to the bound that it overshoots.
pub open spec fn clamped(x: i64, lo: i64, hi: i64) -> i64 {
    if x < lo {
        lo
    } else if x > hi {
        hi
    } else {
        x
    }
}

/// Clamps `x` into `[lo, hi]`.
pub fn clamp(x: i64, lo: i64, hi: i64) -> (r: i64)
    requires
        lo <= hi,
    ensures
        r == clamped(x, lo, hi),
        lo <= r <= hi,
        lo <= x <= hi ==> r == x,
{
    if x < lo {
        lo
    } else if x > hi {
        hi
    } else {
        x
    }
}

/// Each bound is a pair `(lower, upper)` with `lower <= upper`.
pub open spec fn bounds_ok(bounds: Seq<(i64, i64)>) -> bool {
    forall|j: int| 0 <= j < bounds.len() ==> (#[trigger] bounds[j]).0 <= bounds[j].1
}

/// Every component of `x` lies within its bound.
pub open spec fn within(x: Seq<i64>, bounds: Seq<(i64, i64)>) -> bool {
    &&& x.len() == bounds.len()
    &&& forall|j: int| 0 <= j < x.len() ==> bounds[j].0 <= #[trigger] x[j] <= bounds[j].1
}

/// `x` with each component clamped into its bound.
pub open spec fn clamped_all(x: Seq<i64>, bounds: Seq<(i64, i64)>) -> Seq<i64> {
    Seq::new(x.len(), |j: int| clamped(x[j], bounds[j].0, bounds[j].1))
}

/// Clamps each component of `x` into the bound of its dimension.
pub fn clamp_all(x: &Vec<i64>, bounds: &Vec<(i64, i64)>) -> (r: Vec<i64>)
    requires
        x.len() == bounds.len(),
        bounds_ok(bounds@),
    ensures
        r@ == clamped_all(x@, bounds@),
        within(r@, bounds@),
{
    let mut r: Vec<i64> = Vec::with_capacity(x.len());
    let mut j: usize = 0;
    while j < x.len()
        invariant
            x.len() == bounds.len(),
            bounds_ok(bounds@),
            j <= x.len(),
            r@.len() == j,
            forall|i: int| 0 <= i < j ==> r@[i] == clamped(x@[i], bounds@[i].0, bounds@[i].1),
        decreases x.len() - j,
    {
        let (lo, hi) = bounds[j];
        assert(bounds@[j as int].0 <= bounds@[j as int].1);
        r.push(clamp(x[j], lo, hi));
        j += 1;
    }
    assert(r@ =~= clamped_all(x@, bounds@));
    r
}

} // verus!
