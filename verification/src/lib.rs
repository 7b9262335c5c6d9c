//! Spin operators and their products, with the index bookkeeping, the
//! single-site operator algebra and the string form proved in Verus.
//!
//! Complex prefactors that the algebra produces are always units or halves of
//! units, so they are carried exactly: [`Phase`] is a power of `i`, and
//! [`Prefactor`] is a power of `i` times a power of one half.

use vstd::prelude::*;

pub mod error;
pub mod phase;
pub mod single;
pub mod items;
pub mod text;
pub mod order;
pub mod matrix;
pub mod tables;
pub mod expand;
pub mod laws;
pub mod basis;
pub mod pauli_product;
pub mod decoherence_product;
pub mod plus_minus_product;
pub mod operate;

pub use error::StruqtureError;
pub use decoherence_product::DecoherenceProduct;
pub use pauli_product::PauliProduct;
pub use plus_minus_product::PlusMinusProduct;
pub use phase::{Phase, Prefactor};
pub use operate::{HermitianOperateOnSpins, OperateOnSpins};
pub use single::{SingleDecoherenceOperator, SinglePauliOperator, SinglePlusMinusOperator};

verus! {

} // verus!
