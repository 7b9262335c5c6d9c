//! What every object acting on spins offers.

use vstd::prelude::*;
use crate::decoherence_product::DecoherenceProduct;
use crate::pauli_product::PauliProduct;

verus! {

/// Objects that act on a range of spins `0..n`.
pub trait OperateOnSpins<'a> {
    /// The number of spins the object acts on: one more than the largest
    /// spin it names, 0 when it names none.
    spec fn spec_number_spins(&self) -> nat;

    /// The number of spins the object acts on.
    fn current_number_spins(&self) -> (r: usize)
        requires
            self.spec_number_spins() <= usize::MAX,
        ensures
            r == self.spec_number_spins(),
    ;
}

/// Objects acting on spins that are hermitian.
pub trait HermitianOperateOnSpins<'a>: OperateOnSpins<'a> {}

impl<'a> OperateOnSpins<'a> for PauliProduct {
    open spec fn spec_number_spins(&self) -> nat {
        if self@.len() == 0 { 0 } else { (self@.last().0 + 1) as nat }
    }

    fn current_number_spins(&self) -> (r: usize) {
        PauliProduct::current_number_spins(self)
    }
}

/// A product of Pauli matrices is hermitian.
impl<'a> HermitianOperateOnSpins<'a> for PauliProduct {}

impl<'a> OperateOnSpins<'a> for DecoherenceProduct {
    open spec fn spec_number_spins(&self) -> nat {
        if self@.len() == 0 { 0 } else { (self@.last().0 + 1) as nat }
    }

    fn current_number_spins(&self) -> (r: usize) {
        DecoherenceProduct::current_number_spins(self)
    }
}

} // verus!
