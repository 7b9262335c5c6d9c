//! Errors of the spin library.

use vstd::prelude::*;

verus! {

/// The errors that parsing and combining products can end in.
#[derive(Debug, Clone, PartialEq, Eq)]
pub enum StruqtureError {
    /// A single-site operator was written with a symbol that is not one of its own.
    IncorrectPauliEntry {
        /// The symbol that was read.
        pauli: String,
    },
    /// A product could not be read from its string form.
    FromStringFailed {
        /// What went wrong.
        msg: String,
    },
    /// Two products that were to be joined both act on the same spin.
    ProductIndexAlreadyOccupied {
        /// The spin that both act on.
        index: usize,
    },
}

} // verus!
