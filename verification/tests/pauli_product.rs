use std::collections::HashMap;
use std::cmp::Ordering;
use struqture_spins::matrix::try_walk_row;
use struqture_spins::{PauliProduct, Phase, SinglePauliOperator, StruqtureError, OperateOnSpins};

#[test]
fn pauli_product_new_is_identity() {
    let pp = PauliProduct::new();
    assert!(pp.is_empty());
    assert_eq!(pp.len(), 0);
    assert_eq!(pp.to_string(), "I");
    assert_eq!(pp.current_number_spins(), 0);
    assert_eq!(pp, PauliProduct::default());
    assert_eq!(pp, PauliProduct::with_capacity(12));
}

#[test]
fn pauli_product_set_and_get() {
    let pp = PauliProduct::new().x(0).z(2);
    assert_eq!(pp.get(&0), Some(&SinglePauliOperator::X));
    assert_eq!(pp.get(&1), None);
    assert_eq!(pp.get(&2), Some(&SinglePauliOperator::Z));
    assert_eq!(pp.len(), 2);
    assert_eq!(pp.to_string(), "0X2Z");
    assert_eq!(pp.as_slice(), &[(0, SinglePauliOperator::X), (2, SinglePauliOperator::Z)]);
}

#[test]
fn pauli_product_set_keeps_spin_order() {
    let pp = PauliProduct::new().z(5).x(1).y(3);
    assert_eq!(
        pp.as_slice(),
        &[(1, SinglePauliOperator::X), (3, SinglePauliOperator::Y), (5, SinglePauliOperator::Z)]
    );
    assert_eq!(pp.to_string(), "1X3Y5Z");
}

#[test]
fn pauli_product_set_replaces_and_removes() {
    let pp = PauliProduct::new().x(0).z(2);
    let replaced = pp.clone().set_pauli(0, SinglePauliOperator::Y);
    assert_eq!(replaced.to_string(), "0Y2Z");
    let removed = pp.clone().set_pauli(2, SinglePauliOperator::Identity);
    assert_eq!(removed.to_string(), "0X");
    let untouched = pp.clone().set_pauli(1, SinglePauliOperator::Identity);
    assert_eq!(untouched, pp);
}

#[test]
fn pauli_product_current_number_spins() {
    assert_eq!(PauliProduct::new().x(0).current_number_spins(), 1);
    assert_eq!(PauliProduct::new().x(0).z(7).current_number_spins(), 8);
    let pp = PauliProduct::new().y(3);
    assert_eq!(OperateOnSpins::current_number_spins(&pp), 4);
}

#[test]
fn pauli_product_multiply_single_sites() {
    let (prod, phase) = PauliProduct::multiply(PauliProduct::new().x(0), PauliProduct::new().y(0));
    assert_eq!(prod, PauliProduct::new().z(0));
    assert_eq!(phase, Phase::I);
    let (prod, phase) = PauliProduct::multiply(PauliProduct::new().y(0), PauliProduct::new().x(0));
    assert_eq!(prod, PauliProduct::new().z(0));
    assert_eq!(phase, Phase::MinusI);
    let (prod, phase) = PauliProduct::multiply(PauliProduct::new().z(1), PauliProduct::new().z(1));
    assert!(prod.is_empty());
    assert_eq!(phase, Phase::One);
}

#[test]
fn pauli_product_multiply_several_sites() {
    // (0X 1Y) (0Y 2Z) = (XY)_0 1Y 2Z = i 0Z 1Y 2Z
    let left = PauliProduct::new().x(0).y(1);
    let right = PauliProduct::new().y(0).z(2);
    let (prod, phase) = PauliProduct::multiply(left, right);
    assert_eq!(prod.to_string(), "0Z1Y2Z");
    assert_eq!(phase, Phase::I);
    // (0X 1Z) (0Z 1X) = (XZ)(ZX) = (-i Y)(i Y) = 0Y1Y
    let (prod, phase) = PauliProduct::multiply(PauliProduct::new().x(0).z(1), PauliProduct::new().z(0).x(1));
    assert_eq!(prod.to_string(), "0Y1Y");
    assert_eq!(phase, Phase::One);
}

#[test]
fn pauli_product_concatenate() {
    let a = PauliProduct::new().x(0).z(4);
    let b = PauliProduct::new().y(2);
    let joined = a.concatenate(b).unwrap();
    assert_eq!(joined.to_string(), "0X2Y4Z");
    let c = PauliProduct::new().y(1).z(4);
    assert_eq!(
        a.concatenate(c),
        Err(StruqtureError::ProductIndexAlreadyOccupied { index: 4 })
    );
}

#[test]
fn pauli_product_remap_qubits() {
    let pp = PauliProduct::new().x(0).z(2);
    let mut mapping: HashMap<usize, usize> = HashMap::new();
    mapping.insert(0, 2);
    mapping.insert(2, 0);
    assert_eq!(pp.remap_qubits(&mapping).to_string(), "0Z2X");
    let mut shift: HashMap<usize, usize> = HashMap::new();
    shift.insert(0, 5);
    assert_eq!(pp.remap_qubits(&shift).to_string(), "2Z5X");
    assert_eq!(pp.remap_qubits(&HashMap::new()), pp);
}

#[test]
fn pauli_product_hermitian_conjugate() {
    let pp = PauliProduct::new().x(0).y(1).z(2);
    let (conj, prefactor) = pp.hermitian_conjugate();
    assert_eq!(conj, pp);
    assert_eq!(prefactor, 1);
    assert!(pp.is_natural_hermitian());
}

#[test]
fn pauli_product_from_str_ok() {
    let pp = PauliProduct::from_str("0X1Y12Z").unwrap();
    assert_eq!(pp, PauliProduct::new().x(0).y(1).z(12));
    assert_eq!(PauliProduct::from_str("I").unwrap(), PauliProduct::new());
    assert_eq!(PauliProduct::from_str("").unwrap(), PauliProduct::new());
    // entries are sorted by spin, identities are dropped
    assert_eq!(PauliProduct::from_str("3Z1X").unwrap().to_string(), "1X3Z");
    assert_eq!(PauliProduct::from_str("0X1I").unwrap().to_string(), "0X");
    // a trailing index without a symbol is ignored
    assert_eq!(PauliProduct::from_str("0X1").unwrap().to_string(), "0X");
    // the FromStr trait reads the same
    let parsed: PauliProduct = "2Y".parse().unwrap();
    assert_eq!(parsed, PauliProduct::new().y(2));
}

#[test]
fn pauli_product_from_str_errors() {
    assert_eq!(
        PauliProduct::from_str("X0"),
        Err(StruqtureError::FromStringFailed {
            msg: "Missing spin index in the following PauliProduct: X0".to_string()
        })
    );
    assert_eq!(
        PauliProduct::from_str("0A"),
        Err(StruqtureError::IncorrectPauliEntry { pauli: "A".to_string() })
    );
    assert_eq!(
        PauliProduct::from_str("0X+1Y"),
        Err(StruqtureError::IncorrectPauliEntry { pauli: "X+".to_string() })
    );
    assert_eq!(
        PauliProduct::from_str("0X0Y"),
        Err(StruqtureError::FromStringFailed {
            msg: "At least one spin index is used more than once.".to_string()
        })
    );
    assert_eq!(
        PauliProduct::from_str("99999999999999999999999X"),
        Err(StruqtureError::FromStringFailed {
            msg: "Using 99999999999999999999999 instead of unsigned integer as spin index".to_string()
        })
    );
}

#[test]
fn pauli_product_from_str_non_ascii() {
    // an Arabic-Indic digit is numeric but no decimal digit of usize::from_str
    assert_eq!(
        PauliProduct::from_str("\u{0663}X"),
        Err(StruqtureError::FromStringFailed {
            msg: "Using \u{0663} instead of unsigned integer as spin index".to_string()
        })
    );
    // a non-ASCII letter splits the indices and is an unknown symbol
    assert_eq!(
        PauliProduct::from_str("0\u{e9}"),
        Err(StruqtureError::IncorrectPauliEntry { pauli: "\u{e9}".to_string() })
    );
}

#[test]
fn pauli_product_string_roundtrip() {
    for pp in [
        PauliProduct::new(),
        PauliProduct::new().x(0),
        PauliProduct::new().x(3).y(10).z(123),
    ] {
        assert_eq!(PauliProduct::from_str(&pp.to_string()).unwrap(), pp);
    }
}

#[test]
fn pauli_product_order() {
    let a = PauliProduct::new().x(1);
    let b = PauliProduct::new().y(2);
    let c = PauliProduct::new().x(1).y(2);
    // shorter first, then entry by entry
    assert_eq!(a.compare(&b), Ordering::Less);
    assert_eq!(b.compare(&a), Ordering::Greater);
    assert_eq!(b.compare(&c), Ordering::Less);
    assert_eq!(c.compare(&c.clone()), Ordering::Equal);
    assert_eq!(PauliProduct::new().x(1).compare(&PauliProduct::new().z(1)), Ordering::Less);
}

#[test]
fn pauli_product_from_iter_and_extend() {
    let pp = PauliProduct::from_iter(vec![
        (2, SinglePauliOperator::Z),
        (0, SinglePauliOperator::X),
        (2, SinglePauliOperator::Y),
        (1, SinglePauliOperator::Identity),
    ]);
    assert_eq!(pp.to_string(), "0X2Y");
    let mut ext = PauliProduct::new().z(1);
    ext.extend(vec![(0, SinglePauliOperator::Y), (1, SinglePauliOperator::Identity)]);
    assert_eq!(ext.to_string(), "0Y");
}

#[test]
fn pauli_product_matrix_entry_on_row() {
    // X on spin 0, Z on spin 1: row 0 = |00> goes to column 1 with +1
    let pp = PauliProduct::new().x(0).z(1);
    assert_eq!(pp.matrix_entry_on_row(0), (1, Phase::One));
    // row 2 = |10>: X flips bit 0, Z reads bit 1 = 1
    assert_eq!(pp.matrix_entry_on_row(2), (3, Phase::MinusOne));
    // Y: row 0 to column 1 with -i, row 1 to column 0 with +i
    let y = PauliProduct::new().y(0);
    assert_eq!(y.matrix_entry_on_row(0), (1, Phase::MinusI));
    assert_eq!(y.matrix_entry_on_row(1), (0, Phase::I));
    assert_eq!(PauliProduct::new().matrix_entry_on_row(5), (5, Phase::One));
}

#[test]
fn pauli_product_superoperator_entries_on_row() {
    // H = 0Z on one spin: -i H (x) 1 and i 1 (x) H^T on row 0
    let z = PauliProduct::new().z(0);
    assert_eq!(z.superoperator_entries_on_row(0, 1), vec![(0, Phase::MinusI), (0, Phase::I)]);
    // H = 0X on one spin, row 1 = (high bit 0, low bit 1)
    let x = PauliProduct::new().x(0);
    assert_eq!(x.superoperator_entries_on_row(1, 1), vec![(3, Phase::MinusI), (0, Phase::I)]);
    // H = 0Y: the transposed half picks up the sign of Y^T = -Y
    let y = PauliProduct::new().y(0);
    assert_eq!(y.superoperator_entries_on_row(0, 1), vec![(2, Phase::MinusOne), (1, Phase::MinusOne)]);
}

#[test]
fn pauli_product_clone_and_eq() {
    let pp = PauliProduct::new().x(0).y(3);
    let cl = pp.clone();
    assert_eq!(pp, cl);
    assert_ne!(pp, PauliProduct::new().x(0));
}

#[test]
fn pauli_product_try_walk_row() {
    let pp = PauliProduct::new().x(0).z(1);
    assert_eq!(try_walk_row(pp.as_slice(), 2, 2, 0, false), Some((3, Phase::MinusOne)));
    // a spin beyond the bits of a usize
    let far = PauliProduct::new().x(usize::BITS as usize);
    assert_eq!(try_walk_row(far.as_slice(), 0, 0, 0, false), None);
    // a column that would leave the range of a usize
    let x = PauliProduct::new().x(0);
    assert_eq!(try_walk_row(x.as_slice(), 0, usize::MAX, 0, false), None);
    assert_eq!(try_walk_row(x.as_slice(), 1, 0, 0, false), None);
    // a shifted spin beyond the bits of a usize
    assert_eq!(try_walk_row(x.as_slice(), 0, 0, usize::BITS as usize, false), None);
}
