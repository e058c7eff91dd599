//! Dense LU factorization with full or partial pivoting, and the matching
//! triangular solves.
//!
//! The factorizations work in place over an abstract scalar (the [`field::Field`]
//! trait): the strictly lower triangular part of the output holds the unit lower
//! factor, the upper triangular part holds the upper factor, and the recorded
//! transpositions yield the row (and, for full pivoting, column) permutations.
//!
//! Every contract pins its result exactly: the factored entries to an
//! elimination recurrence whose pivots are first arg-maxima of the scalar's
//! pivot score, the permutations to the recorded transpositions applied to
//! the identity, and the solves to substitution recurrences over the stored
//! factors. The trait ties each executable scalar operation to its own
//! specification function, so these statements hold for any scalar instance;
//! [`field::Fp`], integers modulo a prime, is a fully verified exact instance,
//! and IEEE floating-point adapters live outside the verified library.

use vstd::prelude::*;

pub mod field;
pub mod full_pivoting;
pub mod mat;
pub mod partial_pivoting;
pub mod perm;
pub mod sort;

mod pivot;
mod triangular;

verus! {

/// How much parallelism the caller allows for the arithmetic of a factorization.
///
/// The recorded transpositions, the permutations and the factor entries promised
/// by the contracts depend only on the input matrix, never on this hint, so
/// factoring the same matrix under different settings yields equal results.
#[derive(Clone, Copy)]
pub enum Parallelism {
    /// Run everything on the calling thread.
    Sequential,
    /// Allow splitting data-parallel updates over up to this many workers
    /// (0 picks a default degree).
    Multi(usize),
}

/// Whether the triangular solves treat the factor entries as elementwise
/// conjugated, without physically conjugating the stored matrix.
#[derive(Clone, Copy, PartialEq, Eq, Structural)]
pub enum Conj {
    No,
    Yes,
}

impl Conj {
    /// The flag as a boolean, as the solve contracts state it.
    pub open spec fn spec_is_yes(self) -> bool {
        self == Conj::Yes
    }

    pub fn is_yes(self) -> (r: bool)
        ensures
            r == self.spec_is_yes(),
    {
        match self {
            Conj::Yes => true,
            Conj::No => false,
        }
    }
}

/// The scratch size a call would need cannot be expressed as a `usize`.
#[derive(Clone, Copy, Debug, PartialEq, Eq, Structural)]
pub struct SizeOverflow;

} // verus!
