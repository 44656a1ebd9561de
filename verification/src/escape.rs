//! Escape-time classification of one complex point.
//!
//! The orbit of a point `c` is the sequence `z_0 = 0`, `z_{n+1} = z_n² + c`,
//! every step taken in double arithmetic through the named operations of
//! `crate::complex`. A point escapes at step `n` when the squared norm of
//! `z_n` exceeds 4: once the magnitude passes 2 the orbit is unbounded.
use vstd::prelude::*;

use crate::complex::{
    c_norm_sqr, c_of_usize, c_product, c_real_gt, c_sum, complex_of_usize, complex_product,
    complex_sum, norm_sqr_carrier, real_gt,
};

verus! {

/// The orbit member `z_n` for the point `c`: `z_0 = 0`, `z_{n+1} = z_n² + c`.
pub open spec fn orbit(c: num::complex::Complex64, n: nat) -> num::complex::Complex64
    decreases n,
{
    if n == 0 {
        complex_of_usize(0)
    } else {
        let z = orbit(c, (n - 1) as nat);
        complex_sum(complex_product(z, z), c)
    }
}

/// Whether the squared norm of `z_n` exceeds 4 for the point `c`.
pub open spec fn escapes_at(c: num::complex::Complex64, n: nat) -> bool {
    real_gt(norm_sqr_carrier(orbit(c, n)), complex_of_usize(4))
}

/// The step at which the orbit of `c` is first seen past the threshold,
/// looking at steps `from`, `from + 1`, ..., `limit - 1` in order.
pub open spec fn first_escape_from(c: num::complex::Complex64, from: nat, limit: nat) -> Option<nat>
    decreases limit - from,
{
    if from >= limit {
        None
    } else if escapes_at(c, from) {
        Some(from)
    } else {
        first_escape_from(c, (from + 1) as nat, limit)
    }
}

/// The step in `[0, limit)` at which the orbit of `c` first escapes, or
/// nothing if it stays within the threshold for all of them.
pub open spec fn first_escape(c: num::complex::Complex64, limit: nat) -> Option<nat> {
    first_escape_from(c, 0, limit)
}

proof fn lemma_first_escape_found(c: num::complex::Complex64, from: nat, n: nat, limit: nat)
    requires
        from <= n < limit,
        escapes_at(c, n),
        forall|j: nat| from <= j < n ==> !escapes_at(c, j),
    ensures
        first_escape_from(c, from, limit) == Some(n),
    decreases n - from,
{
    if from < n {
        lemma_first_escape_found(c, (from + 1) as nat, n, limit);
    }
}

proof fn lemma_first_escape_none(c: num::complex::Complex64, from: nat, limit: nat)
    requires
        forall|j: nat| from <= j < limit ==> !escapes_at(c, j),
    ensures
        first_escape_from(c, from, limit) is None,
    decreases limit - from,
{
    if from < limit {
        lemma_first_escape_none(c, (from + 1) as nat, limit);
    }
}

/// Classify the point `c`: the first step below `limit` at which its orbit
/// escapes, or nothing when no such step exists.
pub fn escape_time(c: num::complex::Complex64, limit: usize) -> (r: Option<usize>)
    ensures
        match r {
            Some(n) => n < limit && first_escape(c, limit as nat) == Some(n as nat),
            None => first_escape(c, limit as nat) is None,
        },
{
    let four = c_of_usize(4);
    let mut z = c_of_usize(0);
    for i in 0..limit
        invariant
            four == complex_of_usize(4),
            z == orbit(c, i as nat),
            forall|j: nat| j < i ==> !escapes_at(c, j),
    {
        if c_real_gt(c_norm_sqr(z), four) {
            proof {
                lemma_first_escape_found(c, 0, i as nat, limit as nat);
            }
            return Some(i);
        }
        z = c_sum(c_product(z, z), c);
    }
    proof {
        lemma_first_escape_none(c, 0, limit as nat);
    }
    None
}

} // verus!
