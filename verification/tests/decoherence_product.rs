use std::collections::HashMap;
use std::cmp::Ordering;
use struqture_spins::decoherence_product::{anti_commutator_entries, lindblad_term_entry};
use struqture_spins::{
    DecoherenceProduct, PauliProduct, Phase, Prefactor, SingleDecoherenceOperator, StruqtureError,
};

#[test]
fn decoherence_product_build_and_read() {
    let dp = DecoherenceProduct::new().x(0).iy(1).z(3);
    assert_eq!(dp.to_string(), "0X1iY3Z");
    assert_eq!(dp.get(&1), Some(&SingleDecoherenceOperator::IY));
    assert_eq!(dp.get(&2), None);
    assert_eq!(dp.len(), 3);
    assert!(!dp.is_empty());
    assert_eq!(dp.current_number_spins(), 4);
    assert_eq!(DecoherenceProduct::new().to_string(), "I");
    assert_eq!(DecoherenceProduct::default(), DecoherenceProduct::with_capacity(3));
    let removed = dp.clone().set_pauli(1, SingleDecoherenceOperator::Identity);
    assert_eq!(removed.to_string(), "0X3Z");
}

#[test]
fn decoherence_product_multiply() {
    // X iY = -Z, so (0X)(0iY) = -0Z
    let (prod, phase) = DecoherenceProduct::multiply(DecoherenceProduct::new().x(0), DecoherenceProduct::new().iy(0));
    assert_eq!(prod, DecoherenceProduct::new().z(0));
    assert_eq!(phase, Phase::MinusOne);
    // iY iY = -1
    let (prod, phase) = DecoherenceProduct::multiply(DecoherenceProduct::new().iy(2), DecoherenceProduct::new().iy(2));
    assert!(prod.is_empty());
    assert_eq!(phase, Phase::MinusOne);
    // disjoint spins join without a phase
    let (prod, phase) = DecoherenceProduct::multiply(DecoherenceProduct::new().z(1), DecoherenceProduct::new().x(0));
    assert_eq!(prod.to_string(), "0X1Z");
    assert_eq!(phase, Phase::One);
}

#[test]
fn decoherence_product_hermitian_conjugate() {
    let one_iy = DecoherenceProduct::new().x(0).iy(1);
    assert_eq!(one_iy.hermitian_conjugate(), (one_iy.clone(), -1));
    assert!(!one_iy.is_natural_hermitian());
    let two_iy = DecoherenceProduct::new().iy(0).iy(1).z(2);
    assert_eq!(two_iy.hermitian_conjugate(), (two_iy.clone(), 1));
    assert!(two_iy.is_natural_hermitian());
}

#[test]
fn decoherence_product_concatenate_and_remap() {
    let a = DecoherenceProduct::new().x(3);
    let b = DecoherenceProduct::new().iy(1);
    assert_eq!(a.concatenate(b.clone()).unwrap().to_string(), "1iY3X");
    assert_eq!(
        a.concatenate(DecoherenceProduct::new().z(3)),
        Err(StruqtureError::ProductIndexAlreadyOccupied { index: 3 })
    );
    let mut mapping: HashMap<usize, usize> = HashMap::new();
    mapping.insert(1, 4);
    assert_eq!(a.concatenate(b).unwrap().remap_qubits(&mapping).to_string(), "3X4iY");
}

#[test]
fn decoherence_product_from_str() {
    assert_eq!(
        DecoherenceProduct::from_str("0X1iY2Z").unwrap(),
        DecoherenceProduct::new().x(0).iy(1).z(2)
    );
    assert_eq!(DecoherenceProduct::from_str("I").unwrap(), DecoherenceProduct::new());
    assert_eq!(DecoherenceProduct::from_str("").unwrap(), DecoherenceProduct::new());
    // no leading index is needed: the pieces are paired up in order
    assert_eq!(DecoherenceProduct::from_str("X0").unwrap().to_string(), "0X");
    assert_eq!(
        DecoherenceProduct::from_str("0Y"),
        Err(StruqtureError::IncorrectPauliEntry { pauli: "Y".to_string() })
    );
    assert_eq!(
        DecoherenceProduct::from_str("0X1.5Z"),
        Err(StruqtureError::FromStringFailed {
            msg: "Using 1.5 instead of unsigned integer as spin index".to_string()
        })
    );
    // a repeated spin is refused
    assert_eq!(
        DecoherenceProduct::from_str("0X0Z"),
        Err(StruqtureError::FromStringFailed {
            msg: "At least one spin index is used more than once.".to_string()
        })
    );
    assert_eq!(
        DecoherenceProduct::from_str("3Z1X3Z"),
        Err(StruqtureError::FromStringFailed {
            msg: "At least one spin index is used more than once.".to_string()
        })
    );
    let parsed: DecoherenceProduct = "4iY".parse().unwrap();
    assert_eq!(parsed, DecoherenceProduct::new().iy(4));
}

#[test]
fn decoherence_product_string_roundtrip() {
    for dp in [
        DecoherenceProduct::new(),
        DecoherenceProduct::new().iy(0),
        DecoherenceProduct::new().x(2).iy(5).z(40),
    ] {
        assert_eq!(DecoherenceProduct::from_str(&dp.to_string()).unwrap(), dp);
    }
}

#[test]
fn decoherence_product_spin_conversion() {
    let dp = DecoherenceProduct::new().x(0).iy(1).z(2);
    let (pp, phase) = DecoherenceProduct::decoherence_to_spin(dp.clone());
    assert_eq!(pp, PauliProduct::new().x(0).y(1).z(2));
    assert_eq!(phase, Phase::I);
    let (back, phase_back) = DecoherenceProduct::spin_to_decoherence(pp);
    assert_eq!(back, dp);
    assert_eq!(phase_back, Phase::MinusI);
    let (two, phase_two) = DecoherenceProduct::decoherence_to_spin(DecoherenceProduct::new().iy(0).iy(1));
    assert_eq!(two, PauliProduct::new().y(0).y(1));
    assert_eq!(phase_two, Phase::MinusOne);
}

#[test]
fn decoherence_product_to_coo() {
    // iY on one spin: [[0, 1], [-1, 0]]
    let (values, (rows, columns)) = DecoherenceProduct::new().iy(0).to_coo(1).unwrap();
    assert_eq!(values, vec![Phase::One, Phase::MinusOne]);
    assert_eq!(rows, vec![0, 1]);
    assert_eq!(columns, vec![1, 0]);
    // Z on spin 1 of two spins: diagonal 1, 1, -1, -1
    let (values, (rows, columns)) = DecoherenceProduct::new().z(1).to_coo(2).unwrap();
    assert_eq!(values, vec![Phase::One, Phase::One, Phase::MinusOne, Phase::MinusOne]);
    assert_eq!(rows, vec![0, 1, 2, 3]);
    assert_eq!(columns, vec![0, 1, 2, 3]);
    // the identity on no spins is the 1x1 unit matrix
    let (values, (rows, columns)) = DecoherenceProduct::new().to_coo(0).unwrap();
    assert_eq!((values, rows, columns), (vec![Phase::One], vec![0], vec![0]));
}

#[test]
fn decoherence_product_lindblad_entries() {
    // left = right = 0X on one spin: the term X p X maps row 0 (|0><0|) to column 3 (|1><1|)
    let x = DecoherenceProduct::new().x(0);
    assert_eq!(lindblad_term_entry(&x, &x, 0, 1), (3, Phase::One));
    assert_eq!(lindblad_term_entry(&x, &x, 1, 1), (2, Phase::One));
    // the anti-commutator part: X^dagger X = 1, so -1/2 on the diagonal, twice
    let half = Prefactor { phase: Phase::MinusOne, halvings: 1 };
    assert_eq!(anti_commutator_entries(&x, &x, 2, 1), vec![(2, half), (2, half)]);
    // left = iY, right = iY: iY p iY^dagger
    let iy = DecoherenceProduct::new().iy(0);
    assert_eq!(lindblad_term_entry(&iy, &iy, 0, 1), (3, Phase::One));
    assert_eq!(lindblad_term_entry(&iy, &iy, 1, 1), (2, Phase::MinusOne));
}

#[test]
fn decoherence_product_order_and_eq() {
    let a = DecoherenceProduct::new().x(0);
    let b = DecoherenceProduct::new().iy(0);
    assert_eq!(a.compare(&b), Ordering::Less);
    assert_eq!(b.compare(&a), Ordering::Greater);
    assert_eq!(a.compare(&DecoherenceProduct::new().x(0).z(1)), Ordering::Less);
    assert_eq!(a, a.clone());
    assert_ne!(a, b);
}

#[test]
fn decoherence_product_from_iter_and_extend() {
    let dp = DecoherenceProduct::from_iter(vec![(1, SingleDecoherenceOperator::Z), (0, SingleDecoherenceOperator::IY)]);
    assert_eq!(dp.to_string(), "0iY1Z");
    let mut ext = dp.clone();
    ext.extend(vec![(1, SingleDecoherenceOperator::Identity), (2, SingleDecoherenceOperator::X)]);
    assert_eq!(ext.to_string(), "0iY2X");
}
