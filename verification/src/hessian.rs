//! The core reindexing algorithm.  The engine stores the symmetric Hessian
//! as the upper triangle (diagonal included) in atom-major row order; the
//! consumer wants the lower triangle in coordinate-major row order.  With
//! `N = 3 * atom_count` global coordinate indices, the atom-major nested
//! sweep (atom, axis) over rows and columns visits exactly the global
//! indices `0 .. N` in order, so both conventions read as triangles over
//! the same index space and reindexing is a pure permutation of positions.
//! The values themselves pass through as opaque byte tokens; the
//! unit-conversion scaling applied to each emitted value is a per-token
//! floating-point step done by the unverified shell.

use vstd::prelude::*;

use crate::text::clone_bytes;

verus! {

/// Number of entries of one triangle (diagonal included) of an `n` by `n`
/// matrix.
pub open spec fn tri_size(n: int) -> int {
    n * (n + 1) / 2
}

/// Position of entry `(i, j)`, `i <= j`, in the upper triangle laid out in
/// row-major order: row `i` starts after the `i` longer rows above it.
pub open spec fn tri_pos(n: int, i: int, j: int) -> int {
    i * n - i * (i - 1) / 2 + (j - i)
}

/// Position of entry `(left, right)`, `right <= left`, in the lower
/// triangle laid out in row-major order: row `left` holds `left + 1`
/// entries.
pub open spec fn low_pos(left: int, right: int) -> int {
    left * (left + 1) / 2 + right
}

proof fn lemma_low_pos_mono(a: int, b: int, left: int, right: int)
    requires
        0 <= b <= a,
        0 <= right <= left,
        a < left || (a == left && b < right),
    ensures
        low_pos(a, b) < low_pos(left, right),
{
    assert(a * (a + 1) / 2 + b < left * (left + 1) / 2 + right) by (nonlinear_arith)
        requires
            0 <= b <= a,
            0 <= right <= left,
            a < left || (a == left && b < right),
    ;
}

pub proof fn lemma_tri_pos_range(n: int, i: int, j: int)
    requires
        0 <= i <= j < n,
    ensures
        0 <= tri_pos(n, i, j) < tri_size(n),
        tri_pos(n, i, j) == i * n - i * (i - 1) / 2 + (j - i),
{
    assert(0 <= i * n - i * (i - 1) / 2 + (j - i) < n * (n + 1) / 2) by (nonlinear_arith)
        requires
            0 <= i <= j < n,
    ;
}

pub proof fn lemma_low_pos_range(n: int, left: int, right: int)
    requires
        0 <= right <= left < n,
    ensures
        0 <= low_pos(left, right) < tri_size(n),
{
    assert(0 <= left * (left + 1) / 2 + right < n * (n + 1) / 2) by (nonlinear_arith)
        requires
            0 <= right <= left < n,
    ;
}

/// Rebuilds the triangular stream in the consumer's convention.
///
/// `tri` is the upper triangle of the symmetric matrix of size
/// `3 * natoms`, row-major; the result is the lower triangle, row-major:
/// its entry for the pair `(left, right)`, `left >= right`, is the source
/// entry at `(right, left)` — the mirrored position, which is where the
/// symmetric matrix keeps the same value.  Every output entry is one input
/// token, untouched.
#[verifier::loop_isolation(false)]
pub fn reindex_hessian(tri: &Vec<Vec<u8>>, natoms: usize) -> (out: Vec<Vec<u8>>)
    requires
        natoms <= 127,
        tri@.len() == tri_size(3 * natoms as int),
    ensures
        out@.len() == tri@.len(),
        forall|left: int, right: int|
            0 <= right <= left < 3 * natoms as int ==> out@[low_pos(left, right)]@ == tri@[tri_pos(
                3 * natoms as int,
                right,
                left,
            )]@,
{
    let n: usize = 3 * natoms;
    let mut out: Vec<Vec<u8>> = Vec::new();
    let mut left: usize = 0;
    while left < n
        invariant
            left <= n,
            out@.len() == low_pos(left as int, 0),
            forall|a: int, b: int|
                0 <= b <= a < left ==> out@[low_pos(a, b)]@ == tri@[tri_pos(n as int, b, a)]@,
        decreases n - left,
    {
        let mut right: usize = 0;
        while right <= left
            invariant
                right <= left + 1,
                left < n,
                out@.len() == low_pos(left as int, right as int),
                forall|a: int, b: int|
                    0 <= b <= a < n && (a < left || (a == left && b < right))
                        ==> out@[low_pos(a, b)]@ == tri@[tri_pos(n as int, b, a)]@,
            decreases left + 1 - right,
        {
            proof {
                lemma_tri_pos_range(n as int, right as int, left as int);
                lemma_low_pos_range(n as int, left as int, right as int);
                assert(right * n <= 381 * 381 && right * right <= 381 * 381 && right * n >= (right
                    * right - right) / 2 && right * right >= right) by (nonlinear_arith)
                    requires
                        0 <= right < n <= 381,
                ;
                assert((right * right - right) / 2 == right * (right - 1) / 2) by (nonlinear_arith);
            }
            let idx: usize = right * n - (right * right - right) / 2 + (left - right);
            assert(idx == tri_pos(n as int, right as int, left as int));
            let ghost old_out = out@;
            let val = clone_bytes(&tri[idx]);
            out.push(val);
            proof {
                assert forall|a: int, b: int|
                    0 <= b <= a < n && (a < left || (a == left && b < right + 1)) implies out@[
                    low_pos(a, b)]@ == tri@[tri_pos(n as int, b, a)]@ by {
                    if a == left && b == right {
                        assert(out@[low_pos(a, b)] == val);
                    } else {
                        lemma_low_pos_mono(a, b, left as int, right as int);
                        lemma_low_pos_range(n as int, a, b);
                        assert(out@[low_pos(a, b)] == old_out[low_pos(a, b)]);
                    }
                }
            }
            right += 1;
        }
        proof {
            assert(low_pos(left + 1, 0) == low_pos(left as int, left + 1)) by (nonlinear_arith);
        }
        left += 1;
    }
    proof {
        assert(out@.len() == tri_size(n as int)) by {
            assert(low_pos(n as int, 0) == tri_size(n as int)) by (nonlinear_arith);
        }
    }
    out
}

} // verus!
