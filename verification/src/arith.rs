//! Integer helpers shared by the IR: Rust's truncating division on `i64`
//! and exact dot products over integer sequences.

use vstd::prelude::*;

verus! {

/// Magnitude of an integer.
pub open spec fn abs_int(a: int) -> int {
    if a >= 0 { a } else { -a }
}

/// Rust's `/` on signed integers: the quotient of the magnitudes, negated
/// when the operands have opposite signs (rounding toward zero).
pub open spec fn trunc_div(a: int, b: int) -> int {
    if (a >= 0) == (b > 0) {
        abs_int(a) / abs_int(b)
    } else {
        -(abs_int(a) / abs_int(b))
    }
}

/// `true` when `v` fits in an `i64`.
pub open spec fn fits_i64(v: int) -> bool {
    i64::MIN <= v <= i64::MAX
}

/// Sum of `a[i] * b[i]` over the first `k` positions.
pub open spec fn dot_prefix(a: Seq<i64>, b: Seq<i64>, k: int) -> int
    decreases k,
{
    if k <= 0 {
        0
    } else {
        dot_prefix(a, b, k - 1) + a[k - 1] * b[k - 1]
    }
}

/// Length of the shorter of two sequences (how far a `zip` walks).
pub open spec fn zip_len<A, B>(a: Seq<A>, b: Seq<B>) -> int {
    if a.len() <= b.len() {
        a.len() as int
    } else {
        b.len() as int
    }
}

/// Dot product of two coefficient vectors, over the positions they share.
pub open spec fn dot(a: Seq<i64>, b: Seq<i64>) -> int {
    dot_prefix(a, b, zip_len(a, b))
}

/// Every product and every running sum of `start + dot_prefix(a, b, k)` for
/// `k <= n` fits in an `i64` (the sum is accumulated left to right).
pub open spec fn dot_fits_from(start: int, a: Seq<i64>, b: Seq<i64>, n: int) -> bool {
    &&& forall|k: int| 0 <= k < n ==> #[trigger] fits_i64(a[k] * b[k])
    &&& forall|k: int| 0 <= k <= n ==> #[trigger] fits_i64(start + dot_prefix(a, b, k))
}

/// The zipped dot product of `a` and `b` can be accumulated in `i64`.
pub open spec fn dot_fits(a: Seq<i64>, b: Seq<i64>) -> bool {
    dot_fits_from(0, a, b, zip_len(a, b))
}

/// Truncating division on `i64`, computed on magnitudes so that the result
/// is tied to `trunc_div`.
pub fn i64_div(a: i64, b: i64) -> (r: i64)
    requires
        b != 0,
        !(a == i64::MIN && b == -1),
    ensures
        r == trunc_div(a as int, b as int),
{
    let ua: u64 = if a >= 0 { a as u64 } else if a == i64::MIN { 0x8000_0000_0000_0000u64 } else { (-a) as u64 };
    let ub: u64 = if b >= 0 { b as u64 } else if b == i64::MIN { 0x8000_0000_0000_0000u64 } else { (-b) as u64 };
    let q: u64 = ua / ub;
    assert(ua as int == if a >= 0 { a as int } else { -(a as int) });
    assert(ub as int == if b >= 0 { b as int } else { -(b as int) });
    proof {
        vstd::arithmetic::div_mod::lemma_div_is_ordered_by_denominator(ua as int, 1, ub as int);
        if ub >= 2 {
            vstd::arithmetic::div_mod::lemma_div_is_ordered_by_denominator(ua as int, 2, ub as int);
        }
    }
    if (a >= 0) == (b > 0) {
        assert(q <= i64::MAX);
        q as i64
    } else if q == 0x8000_0000_0000_0000u64 {
        i64::MIN
    } else {
        -(q as i64)
    }
}

} // verus!
