//! The multiplication tables of single-site operators are the products of
//! their matrices.

use vstd::prelude::*;
use crate::items::MultiplicativeOperator;
use crate::matrix::MatrixOperator;
use crate::phase::{Phase, Prefactor};
use crate::items::conjugate_single;
use crate::single::{
    decoherence_to_plus_minus_spec, pauli_to_plus_minus_spec, plus_minus_product_spec, plus_minus_to_decoherence_spec,
    plus_minus_to_pauli_spec, SingleDecoherenceOperator, SinglePauliOperator, SinglePlusMinusOperator,
};

verus! {

/// A phase as a complex number with integer parts (real, imaginary).
pub open spec fn phase_parts(p: Phase) -> (int, int) {
    match p {
        Phase::One => (1, 0),
        Phase::I => (0, 1),
        Phase::MinusOne => (-1, 0),
        Phase::MinusI => (0, -1),
    }
}

/// A matrix entry as a complex number with integer parts; `None` is zero.
pub open spec fn entry_parts(e: Option<Phase>) -> (int, int) {
    match e {
        Some(p) => phase_parts(p),
        None => (0, 0),
    }
}

/// The sum of two complex numbers.
pub open spec fn cadd(a: (int, int), b: (int, int)) -> (int, int) {
    (a.0 + b.0, a.1 + b.1)
}

/// The product of two matrix entries; zero where either is zero.
pub open spec fn entry_times(a: Option<Phase>, b: Option<Phase>) -> Option<Phase> {
    match (a, b) {
        (Some(x), Some(y)) => Some(x.times(y)),
        _ => None,
    }
}

/// The entry in row `row` and column `col` of the product of the matrices of
/// two single-site operators.
pub open spec fn product_entry<T: MatrixOperator>(a: T, b: T, row: bool, col: bool) -> (int, int) {
    cadd(
        entry_parts(entry_times(a.entry(row, false), b.entry(false, col))),
        entry_parts(entry_times(a.entry(row, true), b.entry(true, col))),
    )
}

/// The entry in row `row` and column `col` of the product of the matrices of
/// `a` and `b` is that of the phase times the matrix the table gives.
pub open spec fn table_entry_holds<T: MatrixOperator + MultiplicativeOperator>(a: T, b: T, row: bool, col: bool) -> bool {
    product_entry(a, b, row, col) == entry_parts(entry_times(Some(a.spec_times(b).1), a.spec_times(b).0.entry(row, col)))
}

/// The multiplication table of Pauli matrices is the matrix product: the
/// product of the matrices of `a` and `b` is the phase times the matrix of
/// the operator that the table gives.
#[verifier::spinoff_prover]
#[verifier::rlimit(80)]
pub proof fn lemma_pauli_table_is_matrix_product(a: SinglePauliOperator, b: SinglePauliOperator, row: bool, col: bool)
    ensures
        table_entry_holds(a, b, row, col),
{
    match a {
        SinglePauliOperator::Identity => {
            match b {
                SinglePauliOperator::Identity => {
                    assert(table_entry_holds(a, b, true, true)); assert(table_entry_holds(a, b, true, false)); assert(table_entry_holds(a, b, false, true)); assert(table_entry_holds(a, b, false, false));
                },
                SinglePauliOperator::X => {
                    assert(table_entry_holds(a, b, true, true)); assert(table_entry_holds(a, b, true, false)); assert(table_entry_holds(a, b, false, true)); assert(table_entry_holds(a, b, false, false));
                },
                SinglePauliOperator::Y => {
                    assert(table_entry_holds(a, b, true, true)); assert(table_entry_holds(a, b, true, false)); assert(table_entry_holds(a, b, false, true)); assert(table_entry_holds(a, b, false, false));
                },
                SinglePauliOperator::Z => {
                    assert(table_entry_holds(a, b, true, true)); assert(table_entry_holds(a, b, true, false)); assert(table_entry_holds(a, b, false, true)); assert(table_entry_holds(a, b, false, false));
                },
            }
        },
        SinglePauliOperator::X => {
            match b {
                SinglePauliOperator::Identity => {
                    assert(table_entry_holds(a, b, true, true)); assert(table_entry_holds(a, b, true, false)); assert(table_entry_holds(a, b, false, true)); assert(table_entry_holds(a, b, false, false));
                },
                SinglePauliOperator::X => {
                    assert(table_entry_holds(a, b, true, true)); assert(table_entry_holds(a, b, true, false)); assert(table_entry_holds(a, b, false, true)); assert(table_entry_holds(a, b, false, false));
                },
                SinglePauliOperator::Y => {
                    assert(table_entry_holds(a, b, true, true)); assert(table_entry_holds(a, b, true, false)); assert(table_entry_holds(a, b, false, true)); assert(table_entry_holds(a, b, false, false));
                },
                SinglePauliOperator::Z => {
                    assert(table_entry_holds(a, b, true, true)); assert(table_entry_holds(a, b, true, false)); assert(table_entry_holds(a, b, false, true)); assert(table_entry_holds(a, b, false, false));
                },
            }
        },
        SinglePauliOperator::Y => {
            match b {
                SinglePauliOperator::Identity => {
                    assert(table_entry_holds(a, b, true, true)); assert(table_entry_holds(a, b, true, false)); assert(table_entry_holds(a, b, false, true)); assert(table_entry_holds(a, b, false, false));
                },
                SinglePauliOperator::X => {
                    assert(table_entry_holds(a, b, true, true)); assert(table_entry_holds(a, b, true, false)); assert(table_entry_holds(a, b, false, true)); assert(table_entry_holds(a, b, false, false));
                },
                SinglePauliOperator::Y => {
                    assert(table_entry_holds(a, b, true, true)); assert(table_entry_holds(a, b, true, false)); assert(table_entry_holds(a, b, false, true)); assert(table_entry_holds(a, b, false, false));
                },
                SinglePauliOperator::Z => {
                    assert(table_entry_holds(a, b, true, true)); assert(table_entry_holds(a, b, true, false)); assert(table_entry_holds(a, b, false, true)); assert(table_entry_holds(a, b, false, false));
                },
            }
        },
        SinglePauliOperator::Z => {
            match b {
                SinglePauliOperator::Identity => {
                    assert(table_entry_holds(a, b, true, true)); assert(table_entry_holds(a, b, true, false)); assert(table_entry_holds(a, b, false, true)); assert(table_entry_holds(a, b, false, false));
                },
                SinglePauliOperator::X => {
                    assert(table_entry_holds(a, b, true, true)); assert(table_entry_holds(a, b, true, false)); assert(table_entry_holds(a, b, false, true)); assert(table_entry_holds(a, b, false, false));
                },
                SinglePauliOperator::Y => {
                    assert(table_entry_holds(a, b, true, true)); assert(table_entry_holds(a, b, true, false)); assert(table_entry_holds(a, b, false, true)); assert(table_entry_holds(a, b, false, false));
                },
                SinglePauliOperator::Z => {
                    assert(table_entry_holds(a, b, true, true)); assert(table_entry_holds(a, b, true, false)); assert(table_entry_holds(a, b, false, true)); assert(table_entry_holds(a, b, false, false));
                },
            }
        },
    }
}

/// The multiplication table of decoherence matrices is the matrix product:
/// the product of the matrices of `a` and `b` is the sign times the matrix of
/// the operator that the table gives.
#[verifier::spinoff_prover]
#[verifier::rlimit(80)]
pub proof fn lemma_decoherence_table_is_matrix_product(
    a: SingleDecoherenceOperator,
    b: SingleDecoherenceOperator,
    row: bool,
    col: bool,
)
    ensures
        table_entry_holds(a, b, row, col),
{
    match a {
        SingleDecoherenceOperator::Identity => {
            match b {
                SingleDecoherenceOperator::Identity => {
                    assert(table_entry_holds(a, b, true, true)); assert(table_entry_holds(a, b, true, false)); assert(table_entry_holds(a, b, false, true)); assert(table_entry_holds(a, b, false, false));
                },
                SingleDecoherenceOperator::X => {
                    assert(table_entry_holds(a, b, true, true)); assert(table_entry_holds(a, b, true, false)); assert(table_entry_holds(a, b, false, true)); assert(table_entry_holds(a, b, false, false));
                },
                SingleDecoherenceOperator::IY => {
                    assert(table_entry_holds(a, b, true, true)); assert(table_entry_holds(a, b, true, false)); assert(table_entry_holds(a, b, false, true)); assert(table_entry_holds(a, b, false, false));
                },
                SingleDecoherenceOperator::Z => {
                    assert(table_entry_holds(a, b, true, true)); assert(table_entry_holds(a, b, true, false)); assert(table_entry_holds(a, b, false, true)); assert(table_entry_holds(a, b, false, false));
                },
            }
        },
        SingleDecoherenceOperator::X => {
            match b {
                SingleDecoherenceOperator::Identity => {
                    assert(table_entry_holds(a, b, true, true)); assert(table_entry_holds(a, b, true, false)); assert(table_entry_holds(a, b, false, true)); assert(table_entry_holds(a, b, false, false));
                },
                SingleDecoherenceOperator::X => {
                    assert(table_entry_holds(a, b, true, true)); assert(table_entry_holds(a, b, true, false)); assert(table_entry_holds(a, b, false, true)); assert(table_entry_holds(a, b, false, false));
                },
                SingleDecoherenceOperator::IY => {
                    assert(table_entry_holds(a, b, true, true)); assert(table_entry_holds(a, b, true, false)); assert(table_entry_holds(a, b, false, true)); assert(table_entry_holds(a, b, false, false));
                },
                SingleDecoherenceOperator::Z => {
                    assert(table_entry_holds(a, b, true, true)); assert(table_entry_holds(a, b, true, false)); assert(table_entry_holds(a, b, false, true)); assert(table_entry_holds(a, b, false, false));
                },
            }
        },
        SingleDecoherenceOperator::IY => {
            match b {
                SingleDecoherenceOperator::Identity => {
                    assert(table_entry_holds(a, b, true, true)); assert(table_entry_holds(a, b, true, false)); assert(table_entry_holds(a, b, false, true)); assert(table_entry_holds(a, b, false, false));
                },
                SingleDecoherenceOperator::X => {
                    assert(table_entry_holds(a, b, true, true)); assert(table_entry_holds(a, b, true, false)); assert(table_entry_holds(a, b, false, true)); assert(table_entry_holds(a, b, false, false));
                },
                SingleDecoherenceOperator::IY => {
                    assert(table_entry_holds(a, b, true, true)); assert(table_entry_holds(a, b, true, false)); assert(table_entry_holds(a, b, false, true)); assert(table_entry_holds(a, b, false, false));
                },
                SingleDecoherenceOperator::Z => {
                    assert(table_entry_holds(a, b, true, true)); assert(table_entry_holds(a, b, true, false)); assert(table_entry_holds(a, b, false, true)); assert(table_entry_holds(a, b, false, false));
                },
            }
        },
        SingleDecoherenceOperator::Z => {
            match b {
                SingleDecoherenceOperator::Identity => {
                    assert(table_entry_holds(a, b, true, true)); assert(table_entry_holds(a, b, true, false)); assert(table_entry_holds(a, b, false, true)); assert(table_entry_holds(a, b, false, false));
                },
                SingleDecoherenceOperator::X => {
                    assert(table_entry_holds(a, b, true, true)); assert(table_entry_holds(a, b, true, false)); assert(table_entry_holds(a, b, false, true)); assert(table_entry_holds(a, b, false, false));
                },
                SingleDecoherenceOperator::IY => {
                    assert(table_entry_holds(a, b, true, true)); assert(table_entry_holds(a, b, true, false)); assert(table_entry_holds(a, b, false, true)); assert(table_entry_holds(a, b, false, false));
                },
                SingleDecoherenceOperator::Z => {
                    assert(table_entry_holds(a, b, true, true)); assert(table_entry_holds(a, b, true, false)); assert(table_entry_holds(a, b, false, true)); assert(table_entry_holds(a, b, false, false));
                },
            }
        },
    }
}

/// The matrix of a plus/minus operator: sigma+ = |0><1| = [[0, 1], [0, 0]],
/// sigma- = |1><0| = [[0, 0], [1, 0]], Z = [[1, 0], [0, -1]] and the
/// identity; `None` for a zero entry.
pub open spec fn plus_minus_entry(op: SinglePlusMinusOperator, row: bool, col: bool) -> Option<Phase> {
    match (op, row, col) {
        (SinglePlusMinusOperator::Identity, false, false) => Some(Phase::One),
        (SinglePlusMinusOperator::Identity, true, true) => Some(Phase::One),
        (SinglePlusMinusOperator::Plus, false, true) => Some(Phase::One),
        (SinglePlusMinusOperator::Minus, true, false) => Some(Phase::One),
        (SinglePlusMinusOperator::Z, false, false) => Some(Phase::One),
        (SinglePlusMinusOperator::Z, true, true) => Some(Phase::MinusOne),
        _ => None,
    }
}

/// The entry in row `row` and column `col` of the product of the matrices of
/// two plus/minus operators.
pub open spec fn plus_minus_product_entry(a: SinglePlusMinusOperator, b: SinglePlusMinusOperator, row: bool, col: bool) -> (int, int) {
    cadd(
        entry_parts(entry_times(plus_minus_entry(a, row, false), plus_minus_entry(b, false, col))),
        entry_parts(entry_times(plus_minus_entry(a, row, true), plus_minus_entry(b, true, col))),
    )
}

/// Twice the entry in row `row` and column `col` of the sum of the terms
/// `c * M(op)`, for prefactors `c` with at most one halving.
pub open spec fn doubled_terms_entry(terms: Seq<(SinglePlusMinusOperator, Prefactor)>, row: bool, col: bool) -> (int, int)
    decreases terms.len(),
{
    if terms.len() == 0 {
        (0, 0)
    } else {
        let (op, c) = terms.last();
        let v = entry_parts(entry_times(Some(c.phase), plus_minus_entry(op, row, col)));
        cadd(doubled_terms_entry(terms.drop_last(), row, col), if c.halvings == 0 { cadd(v, v) } else { v })
    }
}

/// The terms the table gives for `a` and `b` have at most one halving, and
/// their sum has the entry of the product of the matrices.
pub open spec fn plus_minus_table_holds(a: SinglePlusMinusOperator, b: SinglePlusMinusOperator, row: bool, col: bool) -> bool {
    &&& forall|i: int| 0 <= i < plus_minus_product_spec(a, b).len() ==> #[trigger] plus_minus_product_spec(a, b)[i].1.halvings <= 1
    &&& doubled_terms_entry(plus_minus_product_spec(a, b), row, col)
        == cadd(plus_minus_product_entry(a, b, row, col), plus_minus_product_entry(a, b, row, col))
}

/// The multiplication table of the plus/minus basis is the matrix product:
/// the sum of the terms `c * M(op)` that the table gives for `a` and `b`
/// (each prefactor with at most one halving) is the product of the matrices
/// of `a` and `b`.
#[verifier::spinoff_prover]
#[verifier::rlimit(80)]
pub proof fn lemma_plus_minus_table_is_matrix_product(
    a: SinglePlusMinusOperator,
    b: SinglePlusMinusOperator,
    row: bool,
    col: bool,
)
    ensures
        plus_minus_table_holds(a, b, row, col),
{
    reveal_with_fuel(doubled_terms_entry, 3);
    match a {
        SinglePlusMinusOperator::Identity => {
            match b {
                SinglePlusMinusOperator::Identity => {
                    assert(plus_minus_table_holds(a, b, true, true)); assert(plus_minus_table_holds(a, b, true, false)); assert(plus_minus_table_holds(a, b, false, true)); assert(plus_minus_table_holds(a, b, false, false));
                },
                SinglePlusMinusOperator::Plus => {
                    assert(plus_minus_table_holds(a, b, true, true)); assert(plus_minus_table_holds(a, b, true, false)); assert(plus_minus_table_holds(a, b, false, true)); assert(plus_minus_table_holds(a, b, false, false));
                },
                SinglePlusMinusOperator::Minus => {
                    assert(plus_minus_table_holds(a, b, true, true)); assert(plus_minus_table_holds(a, b, true, false)); assert(plus_minus_table_holds(a, b, false, true)); assert(plus_minus_table_holds(a, b, false, false));
                },
                SinglePlusMinusOperator::Z => {
                    assert(plus_minus_table_holds(a, b, true, true)); assert(plus_minus_table_holds(a, b, true, false)); assert(plus_minus_table_holds(a, b, false, true)); assert(plus_minus_table_holds(a, b, false, false));
                },
            }
        },
        SinglePlusMinusOperator::Plus => {
            match b {
                SinglePlusMinusOperator::Identity => {
                    assert(plus_minus_table_holds(a, b, true, true)); assert(plus_minus_table_holds(a, b, true, false)); assert(plus_minus_table_holds(a, b, false, true)); assert(plus_minus_table_holds(a, b, false, false));
                },
                SinglePlusMinusOperator::Plus => {
                    assert(plus_minus_table_holds(a, b, true, true)); assert(plus_minus_table_holds(a, b, true, false)); assert(plus_minus_table_holds(a, b, false, true)); assert(plus_minus_table_holds(a, b, false, false));
                },
                SinglePlusMinusOperator::Minus => {
                    assert(plus_minus_table_holds(a, b, true, true)); assert(plus_minus_table_holds(a, b, true, false)); assert(plus_minus_table_holds(a, b, false, true)); assert(plus_minus_table_holds(a, b, false, false));
                },
                SinglePlusMinusOperator::Z => {
                    assert(plus_minus_table_holds(a, b, true, true)); assert(plus_minus_table_holds(a, b, true, false)); assert(plus_minus_table_holds(a, b, false, true)); assert(plus_minus_table_holds(a, b, false, false));
                },
            }
        },
        SinglePlusMinusOperator::Minus => {
            match b {
                SinglePlusMinusOperator::Identity => {
                    assert(plus_minus_table_holds(a, b, true, true)); assert(plus_minus_table_holds(a, b, true, false)); assert(plus_minus_table_holds(a, b, false, true)); assert(plus_minus_table_holds(a, b, false, false));
                },
                SinglePlusMinusOperator::Plus => {
                    assert(plus_minus_table_holds(a, b, true, true)); assert(plus_minus_table_holds(a, b, true, false)); assert(plus_minus_table_holds(a, b, false, true)); assert(plus_minus_table_holds(a, b, false, false));
                },
                SinglePlusMinusOperator::Minus => {
                    assert(plus_minus_table_holds(a, b, true, true)); assert(plus_minus_table_holds(a, b, true, false)); assert(plus_minus_table_holds(a, b, false, true)); assert(plus_minus_table_holds(a, b, false, false));
                },
                SinglePlusMinusOperator::Z => {
                    assert(plus_minus_table_holds(a, b, true, true)); assert(plus_minus_table_holds(a, b, true, false)); assert(plus_minus_table_holds(a, b, false, true)); assert(plus_minus_table_holds(a, b, false, false));
                },
            }
        },
        SinglePlusMinusOperator::Z => {
            match b {
                SinglePlusMinusOperator::Identity => {
                    assert(plus_minus_table_holds(a, b, true, true)); assert(plus_minus_table_holds(a, b, true, false)); assert(plus_minus_table_holds(a, b, false, true)); assert(plus_minus_table_holds(a, b, false, false));
                },
                SinglePlusMinusOperator::Plus => {
                    assert(plus_minus_table_holds(a, b, true, true)); assert(plus_minus_table_holds(a, b, true, false)); assert(plus_minus_table_holds(a, b, false, true)); assert(plus_minus_table_holds(a, b, false, false));
                },
                SinglePlusMinusOperator::Minus => {
                    assert(plus_minus_table_holds(a, b, true, true)); assert(plus_minus_table_holds(a, b, true, false)); assert(plus_minus_table_holds(a, b, false, true)); assert(plus_minus_table_holds(a, b, false, false));
                },
                SinglePlusMinusOperator::Z => {
                    assert(plus_minus_table_holds(a, b, true, true)); assert(plus_minus_table_holds(a, b, true, false)); assert(plus_minus_table_holds(a, b, false, true)); assert(plus_minus_table_holds(a, b, false, false));
                },
            }
        },
    }
}

// ----------------------------------------------------------------------------
// The changes of basis are matrix identities
// ----------------------------------------------------------------------------

/// Twice the entry in row `row` and column `col` of the sum of the terms
/// `c * M(op)` of Pauli or decoherence matrices, for prefactors `c` with at
/// most one halving.
pub open spec fn doubled_matrix_terms_entry<T: MatrixOperator>(terms: Seq<(T, Prefactor)>, row: bool, col: bool) -> (int, int)
    decreases terms.len(),
{
    if terms.len() == 0 {
        (0, 0)
    } else {
        let (op, c) = terms.last();
        let v = entry_parts(entry_times(Some(c.phase), op.entry(row, col)));
        cadd(doubled_matrix_terms_entry(terms.drop_last(), row, col), if c.halvings == 0 { cadd(v, v) } else { v })
    }
}

/// The terms written for a plus/minus operator in Pauli matrices have at most
/// one halving, and their sum has the entry of its own matrix.
pub open spec fn plus_minus_as_pauli_holds(op: SinglePlusMinusOperator, row: bool, col: bool) -> bool {
    let e = entry_parts(plus_minus_entry(op, row, col));
    &&& forall|i: int| 0 <= i < plus_minus_to_pauli_spec(op).len() ==> #[trigger] plus_minus_to_pauli_spec(op)[i].1.halvings <= 1
    &&& doubled_matrix_terms_entry(plus_minus_to_pauli_spec(op), row, col) == cadd(e, e)
}

/// The terms written for a plus/minus operator in decoherence matrices have
/// at most one halving, and their sum has the entry of its own matrix.
pub open spec fn plus_minus_as_decoherence_holds(op: SinglePlusMinusOperator, row: bool, col: bool) -> bool {
    let e = entry_parts(plus_minus_entry(op, row, col));
    &&& forall|i: int| 0 <= i < plus_minus_to_decoherence_spec(op).len() ==> #[trigger] plus_minus_to_decoherence_spec(op)[i].1.halvings <= 1
    &&& doubled_matrix_terms_entry(plus_minus_to_decoherence_spec(op), row, col) == cadd(e, e)
}

/// The terms written for a Pauli matrix in the plus/minus basis have at most
/// one halving, and their sum has the entry of the Pauli matrix.
pub open spec fn pauli_as_plus_minus_holds(op: SinglePauliOperator, row: bool, col: bool) -> bool {
    let e = entry_parts(op.entry(row, col));
    &&& forall|i: int| 0 <= i < pauli_to_plus_minus_spec(op).len() ==> #[trigger] pauli_to_plus_minus_spec(op)[i].1.halvings <= 1
    &&& doubled_terms_entry(pauli_to_plus_minus_spec(op), row, col) == cadd(e, e)
}

/// The terms written for a decoherence matrix in the plus/minus basis have at
/// most one halving, and their sum has the entry of the decoherence matrix.
pub open spec fn decoherence_as_plus_minus_holds(op: SingleDecoherenceOperator, row: bool, col: bool) -> bool {
    let e = entry_parts(op.entry(row, col));
    &&& forall|i: int| 0 <= i < decoherence_to_plus_minus_spec(op).len() ==> #[trigger] decoherence_to_plus_minus_spec(op)[i].1.halvings <= 1
    &&& doubled_terms_entry(decoherence_to_plus_minus_spec(op), row, col) == cadd(e, e)
}

/// A plus/minus operator written in Pauli matrices is the same matrix:
/// sigma+ = (X + iY)/2, sigma- = (X - iY)/2, Z = Z, 1 = 1, entry by entry.
#[verifier::spinoff_prover]
#[verifier::rlimit(80)]
pub proof fn lemma_plus_minus_as_pauli_is_same_matrix(op: SinglePlusMinusOperator, row: bool, col: bool)
    ensures
        plus_minus_as_pauli_holds(op, row, col),
{
    reveal_with_fuel(doubled_matrix_terms_entry, 3);
    match op {
        SinglePlusMinusOperator::Identity => {
            assert(plus_minus_as_pauli_holds(op, true, true)); assert(plus_minus_as_pauli_holds(op, true, false)); assert(plus_minus_as_pauli_holds(op, false, true)); assert(plus_minus_as_pauli_holds(op, false, false));
        },
        SinglePlusMinusOperator::Plus => {
            assert(plus_minus_as_pauli_holds(op, true, true)); assert(plus_minus_as_pauli_holds(op, true, false)); assert(plus_minus_as_pauli_holds(op, false, true)); assert(plus_minus_as_pauli_holds(op, false, false));
        },
        SinglePlusMinusOperator::Minus => {
            assert(plus_minus_as_pauli_holds(op, true, true)); assert(plus_minus_as_pauli_holds(op, true, false)); assert(plus_minus_as_pauli_holds(op, false, true)); assert(plus_minus_as_pauli_holds(op, false, false));
        },
        SinglePlusMinusOperator::Z => {
            assert(plus_minus_as_pauli_holds(op, true, true)); assert(plus_minus_as_pauli_holds(op, true, false)); assert(plus_minus_as_pauli_holds(op, false, true)); assert(plus_minus_as_pauli_holds(op, false, false));
        },
    }
}

/// A plus/minus operator written in decoherence matrices is the same matrix:
/// sigma+ = (X + iY)/2, sigma- = (X - iY)/2, Z = Z, 1 = 1, entry by entry.
#[verifier::spinoff_prover]
#[verifier::rlimit(80)]
pub proof fn lemma_plus_minus_as_decoherence_is_same_matrix(op: SinglePlusMinusOperator, row: bool, col: bool)
    ensures
        plus_minus_as_decoherence_holds(op, row, col),
{
    reveal_with_fuel(doubled_matrix_terms_entry, 3);
    match op {
        SinglePlusMinusOperator::Identity => {
            assert(plus_minus_as_decoherence_holds(op, true, true)); assert(plus_minus_as_decoherence_holds(op, true, false)); assert(plus_minus_as_decoherence_holds(op, false, true)); assert(plus_minus_as_decoherence_holds(op, false, false));
        },
        SinglePlusMinusOperator::Plus => {
            assert(plus_minus_as_decoherence_holds(op, true, true)); assert(plus_minus_as_decoherence_holds(op, true, false)); assert(plus_minus_as_decoherence_holds(op, false, true)); assert(plus_minus_as_decoherence_holds(op, false, false));
        },
        SinglePlusMinusOperator::Minus => {
            assert(plus_minus_as_decoherence_holds(op, true, true)); assert(plus_minus_as_decoherence_holds(op, true, false)); assert(plus_minus_as_decoherence_holds(op, false, true)); assert(plus_minus_as_decoherence_holds(op, false, false));
        },
        SinglePlusMinusOperator::Z => {
            assert(plus_minus_as_decoherence_holds(op, true, true)); assert(plus_minus_as_decoherence_holds(op, true, false)); assert(plus_minus_as_decoherence_holds(op, false, true)); assert(plus_minus_as_decoherence_holds(op, false, false));
        },
    }
}

/// A Pauli matrix written in the plus/minus basis is the same matrix:
/// X = sigma+ + sigma-, Y = -i sigma+ + i sigma-, Z = Z, 1 = 1, entry by entry.
#[verifier::spinoff_prover]
#[verifier::rlimit(80)]
pub proof fn lemma_pauli_as_plus_minus_is_same_matrix(op: SinglePauliOperator, row: bool, col: bool)
    ensures
        pauli_as_plus_minus_holds(op, row, col),
{
    reveal_with_fuel(doubled_terms_entry, 3);
    match op {
        SinglePauliOperator::Identity => {
            assert(pauli_as_plus_minus_holds(op, true, true)); assert(pauli_as_plus_minus_holds(op, true, false)); assert(pauli_as_plus_minus_holds(op, false, true)); assert(pauli_as_plus_minus_holds(op, false, false));
        },
        SinglePauliOperator::X => {
            assert(pauli_as_plus_minus_holds(op, true, true)); assert(pauli_as_plus_minus_holds(op, true, false)); assert(pauli_as_plus_minus_holds(op, false, true)); assert(pauli_as_plus_minus_holds(op, false, false));
        },
        SinglePauliOperator::Y => {
            assert(pauli_as_plus_minus_holds(op, true, true)); assert(pauli_as_plus_minus_holds(op, true, false)); assert(pauli_as_plus_minus_holds(op, false, true)); assert(pauli_as_plus_minus_holds(op, false, false));
        },
        SinglePauliOperator::Z => {
            assert(pauli_as_plus_minus_holds(op, true, true)); assert(pauli_as_plus_minus_holds(op, true, false)); assert(pauli_as_plus_minus_holds(op, false, true)); assert(pauli_as_plus_minus_holds(op, false, false));
        },
    }
}

/// A decoherence matrix written in the plus/minus basis is the same matrix:
/// X = sigma+ + sigma-, iY = sigma+ - sigma-, Z = Z, 1 = 1, entry by entry.
#[verifier::spinoff_prover]
#[verifier::rlimit(80)]
pub proof fn lemma_decoherence_as_plus_minus_is_same_matrix(op: SingleDecoherenceOperator, row: bool, col: bool)
    ensures
        decoherence_as_plus_minus_holds(op, row, col),
{
    reveal_with_fuel(doubled_terms_entry, 3);
    match op {
        SingleDecoherenceOperator::Identity => {
            assert(decoherence_as_plus_minus_holds(op, true, true)); assert(decoherence_as_plus_minus_holds(op, true, false)); assert(decoherence_as_plus_minus_holds(op, false, true)); assert(decoherence_as_plus_minus_holds(op, false, false));
        },
        SingleDecoherenceOperator::X => {
            assert(decoherence_as_plus_minus_holds(op, true, true)); assert(decoherence_as_plus_minus_holds(op, true, false)); assert(decoherence_as_plus_minus_holds(op, false, true)); assert(decoherence_as_plus_minus_holds(op, false, false));
        },
        SingleDecoherenceOperator::IY => {
            assert(decoherence_as_plus_minus_holds(op, true, true)); assert(decoherence_as_plus_minus_holds(op, true, false)); assert(decoherence_as_plus_minus_holds(op, false, true)); assert(decoherence_as_plus_minus_holds(op, false, false));
        },
        SingleDecoherenceOperator::Z => {
            assert(decoherence_as_plus_minus_holds(op, true, true)); assert(decoherence_as_plus_minus_holds(op, true, false)); assert(decoherence_as_plus_minus_holds(op, false, true)); assert(decoherence_as_plus_minus_holds(op, false, false));
        },
    }
}

/// Conjugating a plus/minus operator gives the adjoint of its matrix:
/// sigma+ and sigma- are each other's transpose, and all entries are real.
pub proof fn lemma_plus_minus_conjugate_is_adjoint(op: SinglePlusMinusOperator, row: bool, col: bool)
    ensures
        plus_minus_entry(conjugate_single(op), row, col) == plus_minus_entry(op, col, row),
{
    match op {
        SinglePlusMinusOperator::Identity => {},
        SinglePlusMinusOperator::Plus => {},
        SinglePlusMinusOperator::Minus => {},
        SinglePlusMinusOperator::Z => {},
    }
}

} // verus!
