//! Exact progress fractions.
//!
//! A report carries the numerator and the stable denominator instead of a
//! floating-point ratio; the ratio is `count / total` clamped to the unit
//! interval, and zero by definition when `total` is zero.

use vstd::prelude::*;

verus! {

/// One progress report: `count` steps done out of `total`.
#[derive(Debug, Clone, Copy, PartialEq, Eq, Structural)]
pub struct Progress {
    pub count: u64,
    pub total: u64,
}

/// The numerator of the clamped ratio.
pub open spec fn clamped(p: Progress) -> nat {
    if p.count > p.total {
        p.total as nat
    } else {
        p.count as nat
    }
}

/// The clamped ratio is zero.
pub open spec fn prog_is_zero(p: Progress) -> bool {
    p.total == 0 || p.count == 0
}

/// The clamped ratio is exactly one.
pub open spec fn prog_is_full(p: Progress) -> bool {
    p.total > 0 && p.count >= p.total
}

/// The clamped ratio of `a` is at most that of `b` (cross-multiplied,
/// with the zero-denominator ratio being zero).
pub open spec fn prog_le(a: Progress, b: Progress) -> bool {
    if a.total == 0 {
        true
    } else if b.total == 0 {
        a.count == 0
    } else {
        clamped(a) * b.total <= clamped(b) * a.total
    }
}

impl Progress {
    /// The clamped ratio in thousandths, for display layers that want a
    /// plain number.
    pub fn per_mille(&self) -> (r: u64)
        ensures
            self.total == 0 ==> r == 0,
            self.total > 0 ==> r == clamped(*self) * 1000 / (self.total as nat),
            r <= 1000,
    {
        if self.total == 0 {
            0
        } else {
            let c: u64 = if self.count > self.total {
                self.total
            } else {
                self.count
            };
            let r = (c as u128 * 1000 / (self.total as u128)) as u64;
            proof {
                assert(c as u128 * 1000 <= u64::MAX as u128 * 1000) by (nonlinear_arith)
                    requires
                        c <= u64::MAX,
                ;
                assert((c as nat) * 1000 / (self.total as nat) <= 1000) by (nonlinear_arith)
                    requires
                        0 < self.total,
                        c <= self.total,
                ;
            }
            r
        }
    }
}

/// With a fixed positive denominator, progress only ever moves forward:
/// more completed steps never lower the ratio.
pub proof fn lemma_prog_monotone(k1: u64, k2: u64, total: u64)
    requires
        k1 <= k2,
    ensures
        prog_le((Progress { count: k1, total }), (Progress { count: k2, total })),
{
    if total != 0 {
        let a = Progress { count: k1, total };
        let b = Progress { count: k2, total };
        assert(clamped(a) <= clamped(b));
        assert(clamped(a) * total <= clamped(b) * total) by (nonlinear_arith)
            requires
                clamped(a) <= clamped(b),
        ;
    }
}

} // verus!
