//! Core model for a Lenia-style continuous cellular automaton.
//!
//! The library derives the static data that a per-cell update loop needs:
//! a rasterized radial kernel with its normalization scalar, and a
//! discretized lookup table for the growth function.
//!
//! All scalars are carried in unsigned Q32 fixed point: a raw `u64` value
//! `v` stands for the real number `v / 2^32`.  Every arithmetic routine is
//! specified exactly over the integers, so each contract pins the computed
//! raw value bit for bit.

use vstd::prelude::*;

pub mod board;
pub mod fixed;
pub mod kernel;
pub mod mapping;

verus! {

/// Configuration and domain errors surfaced by constructors and evaluators.
#[derive(Clone, Copy, Debug, PartialEq, Eq, Structural)]
pub enum LeniaError {
    /// A kernel shell was given an empty ring-weight sequence.
    EmptyBeta,
    /// A mapping was given parameters outside the representable range.
    InvalidMappingParameters,
    /// A growth table of fewer than two samples was requested.
    GrowthResolutionTooSmall,
    /// The neighborhood kernel would overlap itself on the grid.
    KernelLargerThanBoard,
    /// A scalar mapping was evaluated outside its `[0, 1]` domain.
    OutOfDomain,
}

} // verus!
