//! The ways in which building or compiling a circuit fails.

use vstd::prelude::*;

verus! {

/// A failure of the builder or of compilation. Both are final: nothing is
/// retried and no partial result is kept.
#[derive(Clone, Copy, Debug, PartialEq, Eq, Structural)]
pub enum Error {
    /// A gate refers to a witness that the builder of the circuit did not issue.
    InvalidWitnessReference,
    /// The builder was asked to change after it had been finished.
    BuilderAlreadyFinished,
}

} // verus!
