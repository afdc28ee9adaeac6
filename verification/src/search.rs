//! Decision rules of the bracketing root search.
//!
//! The shape factor is the root of a moment-matching residual. The caller
//! evaluates that residual in floating point and narrows a bracket
//! `[kmin, kmax]` around the root; every decision the search takes depends
//! only on the signs of residual products and on one tolerance test, and
//! those decisions are made here. The caller reports each sign as a
//! [`Sign`] and acts on the [`StepDecision`] it gets back.

use vstd::prelude::*;

verus! {

/// The sign of a real-valued quantity, as observed by the caller that
/// evaluates it.
#[derive(Clone, Copy, Debug, PartialEq, Eq, Structural)]
pub enum Sign {
    Negative,
    Zero,
    Positive,
}

/// What one iteration of the bracket narrowing does next.
#[derive(Clone, Copy, Debug, PartialEq, Eq, Structural)]
pub enum StepDecision {
    /// The midpoint residual is exactly zero: the midpoint is a root and the
    /// search returns it at once.
    ExactRoot,
    /// The secant step is within tolerance: the search returns the midpoint
    /// as the converged root.
    Converged,
    /// The residual changes sign between `kmin` and the midpoint: the root
    /// lies in the lower half, so the midpoint becomes the new `kmax`.
    NarrowLower,
    /// No sign change below the midpoint: the root lies in the upper half,
    /// so the midpoint becomes the new `kmin`.
    NarrowUpper,
}

/// The sign of a product of two reals, from the signs of its factors.
pub open spec fn spec_product_sign(a: Sign, b: Sign) -> Sign {
    if a == Sign::Zero || b == Sign::Zero {
        Sign::Zero
    } else if a == b {
        Sign::Positive
    } else {
        Sign::Negative
    }
}

/// Computes the sign of a product from the signs of its factors.
pub fn product_sign(a: Sign, b: Sign) -> (r: Sign)
    ensures
        r == spec_product_sign(a, b),
{
    match (a, b) {
        (Sign::Zero, _) => Sign::Zero,
        (_, Sign::Zero) => Sign::Zero,
        (Sign::Positive, Sign::Positive) => Sign::Positive,
        (Sign::Negative, Sign::Negative) => Sign::Positive,
        _ => Sign::Negative,
    }
}

/// A bracket can contain a root of the residual only when the residual does
/// not keep a strict sign across it: `f(kmin) * f(kmax) <= 0`. When this
/// returns `false` the search must report the bracket as unusable rather
/// than return a made-up root.
pub fn bracket_admits_root(sign_lo: Sign, sign_hi: Sign) -> (r: bool)
    ensures
        r == (spec_product_sign(sign_lo, sign_hi) != Sign::Positive),
{
    let prod = product_sign(sign_lo, sign_hi);
    match prod {
        Sign::Positive => false,
        _ => true,
    }
}

/// The decision one iteration takes, given whether the secant step at the
/// midpoint is exactly zero, the sign of `f(k) * f(kmin)`, and whether the
/// step magnitude exceeds the tolerance: an exactly-zero step or residual
/// product means the midpoint is a root; a step over tolerance narrows the
/// bracket to the half across which the residual changes sign; a step
/// within tolerance is convergence.
pub open spec fn spec_classify_step(
    step_is_zero: bool,
    residual_product_sign: Sign,
    step_exceeds_tolerance: bool,
) -> StepDecision {
    if step_is_zero || residual_product_sign == Sign::Zero {
        StepDecision::ExactRoot
    } else if step_exceeds_tolerance {
        if residual_product_sign == Sign::Negative {
            StepDecision::NarrowLower
        } else {
            StepDecision::NarrowUpper
        }
    } else {
        StepDecision::Converged
    }
}

/// Decides what one iteration of the bracket narrowing does.
///
/// `step_is_zero` reports whether the secant step `f(k) / slope` at the
/// midpoint `k` is exactly zero, `residual_product_sign` the sign of
/// `f(k) * f(kmin)` for the current lower endpoint, and
/// `step_exceeds_tolerance` whether the step magnitude is strictly above
/// the convergence tolerance.
pub fn classify_step(
    step_is_zero: bool,
    residual_product_sign: Sign,
    step_exceeds_tolerance: bool,
) -> (d: StepDecision)
    ensures
        d == spec_classify_step(step_is_zero, residual_product_sign, step_exceeds_tolerance),
{
    if step_is_zero {
        StepDecision::ExactRoot
    } else {
        match residual_product_sign {
            Sign::Zero => StepDecision::ExactRoot,
            Sign::Negative => {
                if step_exceeds_tolerance {
                    StepDecision::NarrowLower
                } else {
                    StepDecision::Converged
                }
            },
            Sign::Positive => {
                if step_exceeds_tolerance {
                    StepDecision::NarrowUpper
                } else {
                    StepDecision::Converged
                }
            },
        }
    }
}

} // verus!
