//! Core routines for estimating the two parameters of a Weibull
//! distribution — shape factor `k` and scale factor `c` — from a sample of
//! scalar measurements such as wind speeds.
//!
//! The estimation pipeline sorts a private copy of the sample to take its
//! median, evaluates a moment-matching residual for candidate shape values,
//! and narrows a bracket around the residual's root. The floating-point
//! evaluations (the gamma polynomial, the residual, the bracket midpoints)
//! are carried out by the caller that drives the search; this crate holds
//! the discrete logic those evaluations feed:
//!
//! - [`sort::quick_sort`] — in-place ordering of a key sequence, proved to
//!   produce a non-decreasing permutation of its input;
//! - [`median::median`] — selection of the middle value(s) of a sample of
//!   keys, pinned to the sorted rearrangement of the input;
//! - [`search`] — the decision rules of the bracketing root search: whether
//!   a bracket admits a root at all, and how one iteration acts on the signs
//!   and tolerance test it is handed.
//!
//! Measurements enter as `u64` keys. A caller working with non-negative
//! finite doubles maps each value to its order-preserving key (the raw IEEE
//! bit pattern already is one) and maps the selected keys back.

pub mod median;
pub mod search;
pub mod sort;
